//! Failures of parsing a request.
use vstd::prelude::*;

verus! {

/// Why a request line or a header line could not be parsed.
#[derive(Debug)]
pub enum ParsingError {
    /// The first token of the request line names no known method; holds that token.
    UnsupportedOrMissingMethodError(String),
    /// The request line has no path token.
    NoPathError,
    /// A header line without `:`; holds that line.
    UnsupportedHeaderFormat(String),
}

/// The content of a `ParsingError`, with its text as characters.
pub ghost enum ParsingErrorView {
    UnsupportedOrMissingMethodError(Seq<char>),
    NoPathError,
    UnsupportedHeaderFormat(Seq<char>),
}

impl View for ParsingError {
    type V = ParsingErrorView;

    open spec fn view(&self) -> ParsingErrorView {
        match self {
            ParsingError::UnsupportedOrMissingMethodError(s) => {
                ParsingErrorView::UnsupportedOrMissingMethodError(s@)
            },
            ParsingError::NoPathError => ParsingErrorView::NoPathError,
            ParsingError::UnsupportedHeaderFormat(s) => ParsingErrorView::UnsupportedHeaderFormat(
                s@,
            ),
        }
    }
}

/// The human-readable description of an error.
pub open spec fn description_of(e: ParsingErrorView) -> Seq<char> {
    match e {
        ParsingErrorView::UnsupportedOrMissingMethodError(s) => "Failed to parse http method: "@
            + s,
        ParsingErrorView::NoPathError => "Failed to parse path"@,
        ParsingErrorView::UnsupportedHeaderFormat(s) => "Unsupported header format: "@ + s,
    }
}

impl ParsingError {
    /// Describes the error in words, as sent back to a client.
    pub fn to_string(&self) -> (r: String)
        ensures
            r@ == description_of(self@),
    {
        match self {
            ParsingError::UnsupportedOrMissingMethodError(s) => String::from_str(
                "Failed to parse http method: ",
            ).concat(s.as_str()),
            ParsingError::NoPathError => String::from_str("Failed to parse path"),
            ParsingError::UnsupportedHeaderFormat(s) => String::from_str(
                "Unsupported header format: ",
            ).concat(s.as_str()),
        }
    }
}

} // verus!
