use vstd::prelude::*;

verus! {

/// Why a MiniMessage string could not be parsed.
#[derive(Debug, PartialEq)]
pub enum ParseError {
    /// A token stood where the grammar allows none like it; holds the token's text.
    InvalidToken(String),
    /// The input ended in the middle of a construct.
    UnexpectedEof,
    /// A closing tag named another element than the one it closes.
    MismatchedTag { expected: String, found: String },
}

/// The mathematical value of a parse error.
pub enum ParseErrorView {
    InvalidToken(Seq<char>),
    UnexpectedEof,
    MismatchedTag { expected: Seq<char>, found: Seq<char> },
}

impl View for ParseError {
    type V = ParseErrorView;

    open spec fn view(&self) -> ParseErrorView {
        match self {
            ParseError::InvalidToken(s) => ParseErrorView::InvalidToken(s@),
            ParseError::UnexpectedEof => ParseErrorView::UnexpectedEof,
            ParseError::MismatchedTag { expected, found } => ParseErrorView::MismatchedTag {
                expected: expected@,
                found: found@,
            },
        }
    }
}

} // verus!
