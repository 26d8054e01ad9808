//! Token types shared by the tokenizer and the renderer.

use vstd::prelude::*;

verus! {

/// The closed set of span classifications the scanner can emit.  Each tag
/// determines both how the scanner recognised the span and how the renderer
/// emits it.
#[derive(Clone, Copy, Debug, PartialEq, Eq, Structural)]
pub enum FormatType {
    Bold,
    Title,
    Italic,
    PlainWord,
    Space,
    Subtitle,
    Subsubtitle,
    WikiLink,
    NewLine,
    BulletBold,
    BulletItalic,
    InlineQuote,
}

/// One classified span of the character buffer: a half-open range
/// `[start, start + length)` of buffer indices plus its classification.
/// Tokens hold offsets into the buffer, not copies of its text.
#[derive(Clone, Copy, Debug, PartialEq, Eq, Structural)]
pub struct Token {
    pub start: usize,
    pub length: usize,
    pub format: FormatType,
}

/// Mathematical image of a [`Token`]: the same data over unbounded integers,
/// used throughout the contracts.
pub struct TokenModel {
    pub start: int,
    pub length: int,
    pub kind: FormatType,
}

impl TokenModel {
    /// Index one past the last buffer position the token covers.
    pub open spec fn end(self) -> int {
        self.start + self.length
    }

    /// The token lies inside a buffer of length `len` and never covers the
    /// final (sentinel) position.
    pub open spec fn in_bounds(self, len: int) -> bool {
        0 <= self.start && 0 <= self.length && self.end() <= len - 1
    }
}

impl View for Token {
    type V = TokenModel;

    open spec fn view(&self) -> TokenModel {
        TokenModel { start: self.start as int, length: self.length as int, kind: self.format }
    }
}

/// The image of a token vector under [`Token::view`], element by element.
pub open spec fn tokens_view(ts: Seq<Token>) -> Seq<TokenModel> {
    ts.map_values(|t: Token| t@)
}

} // verus!
