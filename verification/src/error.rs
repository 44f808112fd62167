//! What can go wrong with a palette, and how each error reads.

use vstd::prelude::*;
use vstd::string::*;

use crate::text::{join, join_spec, views};

verus! {

/// Why the validator refuses a slot.
#[derive(Debug, Clone, PartialEq, Eq)]
pub enum ValidationError {
    /// A literal that is not `#` and six hexadecimal digits.
    InvalidHexColor { label: String, value: String },
    /// A reference without a `.` in it.
    MalformedPath { label: String, value: String },
}

/// The texts of a [`ValidationError`].
pub enum ValidationErrorView {
    InvalidHexColor { label: Seq<char>, value: Seq<char> },
    MalformedPath { label: Seq<char>, value: Seq<char> },
}

impl View for ValidationError {
    type V = ValidationErrorView;

    open spec fn view(&self) -> ValidationErrorView {
        match self {
            ValidationError::InvalidHexColor { label, value } => ValidationErrorView::InvalidHexColor {
                label: label@,
                value: value@,
            },
            ValidationError::MalformedPath { label, value } => ValidationErrorView::MalformedPath {
                label: label@,
                value: value@,
            },
        }
    }
}

/// How a [`ValidationError`] reads.
pub open spec fn validation_message(e: ValidationErrorView) -> Seq<char> {
    match e {
        ValidationErrorView::InvalidHexColor { label, value } => label + " has invalid hex color: "@
            + value,
        ValidationErrorView::MalformedPath { label, value } => label
            + " path must contain at least one '.' segment: "@ + value,
    }
}

impl ValidationError {
    /// The error as a line of text.
    pub fn message(&self) -> (s: String)
        ensures
            s@ == validation_message(self@),
    {
        match self {
            ValidationError::InvalidHexColor { label, value } => {
                let mut s = label.clone();
                s.append(" has invalid hex color: ");
                s.append(value.as_str());
                s
            },
            ValidationError::MalformedPath { label, value } => {
                let mut s = label.clone();
                s.append(" path must contain at least one '.' segment: ");
                s.append(value.as_str());
                s
            },
        }
    }
}

/// Why a path does not resolve to a colour.
#[derive(Debug, Clone, PartialEq, Eq)]
pub enum Failure {
    /// The chain of references ends in a literal that is not a hex colour.
    InvalidHexColor { value: String },
    /// The chain of references reaches a path that names no slot.
    MissingPath { path: String },
    /// The chain of references comes back to a path it has passed: the paths
    /// in the order in which they were entered, the repeated one last.
    CycleDetected { cycle: Vec<String> },
}

/// The texts of a [`Failure`].
pub enum FailureView {
    InvalidHexColor { value: Seq<char> },
    MissingPath { path: Seq<char> },
    CycleDetected { cycle: Seq<Seq<char>> },
}

impl View for Failure {
    type V = FailureView;

    open spec fn view(&self) -> FailureView {
        match self {
            Failure::InvalidHexColor { value } => FailureView::InvalidHexColor { value: value@ },
            Failure::MissingPath { path } => FailureView::MissingPath { path: path@ },
            Failure::CycleDetected { cycle } => FailureView::CycleDetected { cycle: views(cycle@) },
        }
    }
}

/// How a [`Failure`] reads.
pub open spec fn failure_message(e: FailureView) -> Seq<char> {
    match e {
        FailureView::InvalidHexColor { value } => "invalid hex color: "@ + value,
        FailureView::MissingPath { path } => "missing path '"@ + path
            + "'; expected colors.*, accents.*, or ansi.*.*.*"@,
        FailureView::CycleDetected { cycle } => "cycle detected: "@ + join_spec(cycle, " -> "@),
    }
}

impl Failure {
    /// The failure as a line of text.
    pub fn message(&self) -> (s: String)
        ensures
            s@ == failure_message(self@),
    {
        match self {
            Failure::InvalidHexColor { value } => {
                let mut s = String::from_str("invalid hex color: ");
                s.append(value.as_str());
                s
            },
            Failure::MissingPath { path } => {
                let mut s = String::from_str("missing path '");
                s.append(path.as_str());
                s.append("'; expected colors.*, accents.*, or ansi.*.*.*");
                s
            },
            Failure::CycleDetected { cycle } => {
                let mut s = String::from_str("cycle detected: ");
                let chain = join(cycle, " -> ");
                s.append(chain.as_str());
                s
            },
        }
    }
}

/// A failure to resolve a palette: the slot at which it came up, the path
/// that the slot refers to if it is a reference, and the failure itself.
#[derive(Debug, Clone, PartialEq, Eq)]
pub struct ResolveError {
    pub label: String,
    pub target: Option<String>,
    pub failure: Failure,
}

/// The texts of a [`ResolveError`].
pub struct ResolveErrorView {
    pub label: Seq<char>,
    pub target: Option<Seq<char>>,
    pub failure: FailureView,
}

impl View for ResolveError {
    type V = ResolveErrorView;

    open spec fn view(&self) -> ResolveErrorView {
        ResolveErrorView {
            label: self.label@,
            target: match self.target {
                Some(t) => Some(t@),
                None => None,
            },
            failure: self.failure@,
        }
    }
}

/// How a [`ResolveError`] reads: the slot, then for a reference its target,
/// then the failure.
pub open spec fn resolve_message(e: ResolveErrorView) -> Seq<char> {
    match e.target {
        Some(target) => "resolving "@ + e.label + " -> "@ + target + ": "@ + failure_message(
            e.failure,
        ),
        None => "resolving "@ + e.label + ": "@ + failure_message(e.failure),
    }
}

impl ResolveError {
    /// The error as a line of text.
    pub fn message(&self) -> (s: String)
        ensures
            s@ == resolve_message(self@),
    {
        let cause = self.failure.message();
        let mut s = String::from_str("resolving ");
        s.append(self.label.as_str());
        match &self.target {
            Some(target) => {
                s.append(" -> ");
                s.append(target.as_str());
            },
            None => {},
        }
        s.append(": ");
        s.append(cause.as_str());
        s
    }
}

} // verus!
