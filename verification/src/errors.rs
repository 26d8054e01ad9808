//! The error reported when the tokenizer cannot classify its input.

use vstd::prelude::*;

verus! {

/// The markup construct whose required terminator was still open when the
/// scan gave up.
#[derive(Clone, Copy, Debug, PartialEq, Eq, Structural)]
pub enum Construct {
    /// A `{` brace region with no closing `}`.
    Braces,
    /// An apostrophe emphasis run (`''` or `'''`) with no closing apostrophe.
    Emphasis,
    /// A `[[` link with no closing `]`.
    Link,
    /// A `<` tag with no closing `>`.
    Tag,
    /// A heading's `=` run with no closing `=`.
    Heading,
    /// An escaped quotation mark (`\"`) with no closing backslash.
    Quote,
}

/// A recoverable parse failure: a required terminator was never found before
/// the scan-step ceiling or the buffer end was reached.  The caller decides
/// whether to skip the document, retry, or abort; no partial output is ever
/// produced alongside this error.
#[derive(Clone, Copy, Debug, PartialEq, Eq, Structural)]
pub enum ParseError {
    MalformedMarkup {
        /// Approximate buffer offset of the construct left open: the index at
        /// which the construct began.
        offset: usize,
        /// Which construct was left open.
        construct: Construct,
    },
}

/// Mathematical image of a [`ParseError`], with the offset as an unbounded
/// integer.
pub struct ParseErrorModel {
    pub offset: int,
    pub construct: Construct,
}

impl View for ParseError {
    type V = ParseErrorModel;

    open spec fn view(&self) -> ParseErrorModel {
        match *self {
            ParseError::MalformedMarkup { offset, construct } => ParseErrorModel {
                offset: offset as int,
                construct,
            },
        }
    }
}

/// Abbreviation used throughout the tokenizer's model.
pub open spec fn malformed(offset: int, construct: Construct) -> ParseErrorModel {
    ParseErrorModel { offset, construct }
}

} // verus!
