//! A theme palette in which every colour is a hex literal or a reference to
//! another colour: its validation, its resolution to literal colours, the
//! colour conversions that templates ask for, and the summary of a resolved
//! palette as text.

pub mod address;
pub mod color;
pub mod error;
pub mod laws;
pub mod palette;
pub mod render;
pub mod resolve;
pub mod show;
pub mod slots;
pub mod table;
pub mod text;
pub mod validate;
