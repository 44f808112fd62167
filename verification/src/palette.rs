//! The palette: a declarative description of a theme in which every colour is
//! a hex literal or a reference to another colour, and its resolved form, in
//! which every colour is a literal.

use vstd::prelude::*;
use vstd::string::*;

use crate::table::Table;

verus! {

/// The value of a colour slot as written: a hex literal (`#RRGGBB`) or a
/// dotted path to another slot.
#[derive(Debug, Clone)]
pub enum ColorRef {
    Hex(String),
    Path(String),
}

/// What a [`ColorRef`] says: a literal with its text, or a reference with
/// the path it names.
pub enum ColorSpec {
    Literal(Seq<char>),
    Reference(Seq<char>),
}

impl View for ColorRef {
    type V = ColorSpec;

    open spec fn view(&self) -> ColorSpec {
        match self {
            ColorRef::Hex(s) => ColorSpec::Literal(s@),
            ColorRef::Path(p) => ColorSpec::Reference(p@),
        }
    }
}

/// How a raw string is read: one that starts with `#` is meant as a literal,
/// any other as a reference.
pub open spec fn classify(s: Seq<char>) -> ColorSpec {
    if s.len() > 0 && s[0] == '#' {
        ColorSpec::Literal(s)
    } else {
        ColorSpec::Reference(s)
    }
}

impl ColorRef {
    /// Reads a raw value of a palette document.
    pub fn from_raw(s: String) -> (c: ColorRef)
        ensures
            c@ == classify(s@),
    {
        let literal = !s.as_str().is_empty() && s.as_str().get_char(0) == '#';
        if literal {
            ColorRef::Hex(s)
        } else {
            ColorRef::Path(s)
        }
    }
}

/// Descriptive data of a palette. Resolution passes it through unchanged.
#[derive(Debug)]
pub struct Meta {
    pub name: String,
    pub version: Option<String>,
    pub slug: Option<String>,
}

/// The texts of a [`Meta`].
pub struct MetaView {
    pub name: Seq<char>,
    pub version: Option<Seq<char>>,
    pub slug: Option<Seq<char>>,
}

/// The characters of an optional string.
pub open spec fn text_of(s: Option<String>) -> Option<Seq<char>> {
    match s {
        Some(s) => Some(s@),
        None => None,
    }
}

impl View for Meta {
    type V = MetaView;

    open spec fn view(&self) -> MetaView {
        MetaView { name: self.name@, version: text_of(self.version), slug: text_of(self.slug) }
    }
}

fn clone_text(s: &Option<String>) -> (r: Option<String>)
    ensures
        text_of(r) == text_of(*s),
{
    match s {
        Some(s) => Some(s.clone()),
        None => None,
    }
}

impl Clone for Meta {
    fn clone(&self) -> (r: Self)
        ensures
            r@ == self@,
    {
        Meta {
            name: self.name.clone(),
            version: clone_text(&self.version),
            slug: clone_text(&self.slug),
        }
    }
}

/// The named colours of the light and of the dark tone.
#[derive(Debug, Clone)]
pub struct Colors {
    pub light: Table<ColorRef>,
    pub dark: Table<ColorRef>,
}

/// One row of terminal colours: the eight fixed slots.
#[derive(Debug, Clone)]
pub struct AnsiRow {
    pub black: ColorRef,
    pub red: ColorRef,
    pub green: ColorRef,
    pub yellow: ColorRef,
    pub blue: ColorRef,
    pub magenta: ColorRef,
    pub cyan: ColorRef,
    pub white: ColorRef,
}

impl View for AnsiRow {
    type V = Seq<ColorSpec>;

    /// The eight slots in their fixed order.
    open spec fn view(&self) -> Seq<ColorSpec> {
        seq![
            self.black@,
            self.red@,
            self.green@,
            self.yellow@,
            self.blue@,
            self.magenta@,
            self.cyan@,
            self.white@,
        ]
    }
}

/// The terminal colours of one tone: a normal and a bright row.
#[derive(Debug, Clone)]
pub struct AnsiScheme {
    pub normal: AnsiRow,
    pub bright: AnsiRow,
}

impl View for AnsiScheme {
    type V = Seq<ColorSpec>;

    /// The sixteen slots: the normal row, then the bright row.
    open spec fn view(&self) -> Seq<ColorSpec> {
        self.normal@ + self.bright@
    }
}

/// The terminal colours of both tones.
#[derive(Debug, Clone)]
pub struct Ansi {
    pub light: AnsiScheme,
    pub dark: AnsiScheme,
}

impl View for Ansi {
    type V = Seq<ColorSpec>;

    /// The thirty-two slots: the light scheme, then the dark scheme.
    open spec fn view(&self) -> Seq<ColorSpec> {
        self.light@ + self.dark@
    }
}

/// A palette as written.
#[derive(Debug, Clone)]
pub struct Palette {
    pub meta: Meta,
    pub colors: Colors,
    pub accents: Table<ColorRef>,
    pub ansi: Ansi,
}

/// What a [`Palette`] holds: its three open tables, each a sequence of named
/// values, and the thirty-two terminal slots in their fixed order.
pub struct PaletteView {
    pub meta: MetaView,
    pub light: Seq<(Seq<char>, ColorSpec)>,
    pub dark: Seq<(Seq<char>, ColorSpec)>,
    pub accents: Seq<(Seq<char>, ColorSpec)>,
    pub ansi: Seq<ColorSpec>,
}

impl PaletteView {
    /// The terminal part has its closed shape.
    pub open spec fn wf(self) -> bool {
        self.ansi.len() == 32
    }
}

impl Palette {
    /// A palette is well formed when its tables are: the names of each
    /// stand in ascending order.
    pub open spec fn wf(&self) -> bool {
        self.colors.light.wf() && self.colors.dark.wf() && self.accents.wf()
    }
}

impl View for Palette {
    type V = PaletteView;

    open spec fn view(&self) -> PaletteView {
        PaletteView {
            meta: self.meta@,
            light: self.colors.light@,
            dark: self.colors.dark@,
            accents: self.accents@,
            ansi: self.ansi@,
        }
    }
}

/// The resolved colours of the light and of the dark tone.
#[derive(Debug, Clone)]
pub struct ResolvedColors {
    pub light: Table<String>,
    pub dark: Table<String>,
}

/// One resolved row of terminal colours.
#[derive(Debug, Clone)]
pub struct ResolvedAnsiRow {
    pub black: String,
    pub red: String,
    pub green: String,
    pub yellow: String,
    pub blue: String,
    pub magenta: String,
    pub cyan: String,
    pub white: String,
}

impl View for ResolvedAnsiRow {
    type V = Seq<Seq<char>>;

    /// The eight slots in their fixed order.
    open spec fn view(&self) -> Seq<Seq<char>> {
        seq![
            self.black@,
            self.red@,
            self.green@,
            self.yellow@,
            self.blue@,
            self.magenta@,
            self.cyan@,
            self.white@,
        ]
    }
}

/// The resolved terminal colours of one tone.
#[derive(Debug, Clone)]
pub struct ResolvedAnsiScheme {
    pub normal: ResolvedAnsiRow,
    pub bright: ResolvedAnsiRow,
}

impl View for ResolvedAnsiScheme {
    type V = Seq<Seq<char>>;

    open spec fn view(&self) -> Seq<Seq<char>> {
        self.normal@ + self.bright@
    }
}

/// The resolved terminal colours of both tones.
#[derive(Debug, Clone)]
pub struct ResolvedAnsi {
    pub light: ResolvedAnsiScheme,
    pub dark: ResolvedAnsiScheme,
}

impl View for ResolvedAnsi {
    type V = Seq<Seq<char>>;

    open spec fn view(&self) -> Seq<Seq<char>> {
        self.light@ + self.dark@
    }
}

/// A palette in which every slot holds a canonical `#RRGGBB` literal.
#[derive(Debug, Clone)]
pub struct ResolvedPalette {
    pub meta: Meta,
    pub colors: ResolvedColors,
    pub accents: Table<String>,
    pub ansi: ResolvedAnsi,
}

/// What a [`ResolvedPalette`] holds, in the shape of a [`PaletteView`].
pub struct ResolvedView {
    pub meta: MetaView,
    pub light: Seq<(Seq<char>, Seq<char>)>,
    pub dark: Seq<(Seq<char>, Seq<char>)>,
    pub accents: Seq<(Seq<char>, Seq<char>)>,
    pub ansi: Seq<Seq<char>>,
}

impl ResolvedPalette {
    /// A resolved palette is well formed when its tables are: the names of
    /// each stand in ascending order.
    pub open spec fn wf(&self) -> bool {
        self.colors.light.wf() && self.colors.dark.wf() && self.accents.wf()
    }
}

impl View for ResolvedPalette {
    type V = ResolvedView;

    open spec fn view(&self) -> ResolvedView {
        ResolvedView {
            meta: self.meta@,
            light: self.colors.light@,
            dark: self.colors.dark@,
            accents: self.accents@,
            ansi: self.ansi@,
        }
    }
}

} // verus!
