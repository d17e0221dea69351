//! The errors of parsing and of rendering.
use vstd::prelude::*;

verus! {

broadcast use vstd::string::group_string_axioms;

/// An error that occurs during template parsing.
#[derive(Debug, Clone, PartialEq)]
pub enum ParseError {
    /// A block tag (`#if`, `#each`) was opened but not properly closed,
    /// or closed without being opened.
    UnmatchedBlock(String),
    /// The template contains invalid syntax.
    InvalidSyntax(String),
}

/// What a `ParseError` holds: its kind and its message.
pub enum ParseErrorV {
    UnmatchedBlock(Seq<char>),
    InvalidSyntax(Seq<char>),
}

impl View for ParseError {
    type V = ParseErrorV;

    open spec fn view(&self) -> ParseErrorV {
        match self {
            ParseError::UnmatchedBlock(m) => ParseErrorV::UnmatchedBlock(m@),
            ParseError::InvalidSyntax(m) => ParseErrorV::InvalidSyntax(m@),
        }
    }
}

/// An error that occurs during template rendering.
#[derive(Debug, Clone, PartialEq)]
pub enum RenderError {
    /// A required variable was not found in the data.
    MissingVariable(String),
    /// A value had the wrong type for the operation, or a filter is unknown.
    TypeError(String),
}

/// What a `RenderError` holds: its kind and its message.
pub enum RenderErrorV {
    MissingVariable(Seq<char>),
    TypeError(Seq<char>),
}

impl View for RenderError {
    type V = RenderErrorV;

    open spec fn view(&self) -> RenderErrorV {
        match self {
            RenderError::MissingVariable(m) => RenderErrorV::MissingVariable(m@),
            RenderError::TypeError(m) => RenderErrorV::TypeError(m@),
        }
    }
}

/// The one-line description of a parse error.
pub open spec fn parse_error_text(e: ParseErrorV) -> Seq<char> {
    match e {
        ParseErrorV::UnmatchedBlock(m) => "unmatched block: "@ + m,
        ParseErrorV::InvalidSyntax(m) => "invalid syntax: "@ + m,
    }
}

/// The one-line description of a render error.
pub open spec fn render_error_text(e: RenderErrorV) -> Seq<char> {
    match e {
        RenderErrorV::MissingVariable(m) => "missing variable: "@ + m,
        RenderErrorV::TypeError(m) => "type error: "@ + m,
    }
}

impl ParseError {
    /// The one-line description of this error.
    pub fn display_string(&self) -> (r: String)
        ensures
            r@ == parse_error_text(self@),
    {
        match self {
            ParseError::UnmatchedBlock(m) => {
                let mut s = String::from_str("unmatched block: ");
                s.append(m.as_str());
                s
            },
            ParseError::InvalidSyntax(m) => {
                let mut s = String::from_str("invalid syntax: ");
                s.append(m.as_str());
                s
            },
        }
    }
}

impl RenderError {
    /// The one-line description of this error.
    pub fn display_string(&self) -> (r: String)
        ensures
            r@ == render_error_text(self@),
    {
        match self {
            RenderError::MissingVariable(m) => {
                let mut s = String::from_str("missing variable: ");
                s.append(m.as_str());
                s
            },
            RenderError::TypeError(m) => {
                let mut s = String::from_str("type error: ");
                s.append(m.as_str());
                s
            },
        }
    }
}

} // verus!
