//! Cursor and token-stream utilities used by the tokenizer.

use vstd::prelude::*;

use crate::token::{FormatType, Token};
use crate::tokenizer::MAX_SCAN_STEPS;

verus! {

/// Consume one character: return the character under the cursor (or the
/// sentinel when the cursor has run off the buffer) and move the cursor one
/// position forward, charging one scan step.
pub fn advance(text: &Vec<char>, current: &mut usize, iter: &mut i32) -> (c: char)
    requires
        *old(iter) < MAX_SCAN_STEPS as i32,
        *old(current) < usize::MAX,
    ensures
        *final(iter) == *old(iter) + 1,
        *final(current) == *old(current) + 1,
        c == if *old(current) + 1 < text@.len() {
            text@[*old(current) as int]
        } else {
            '\0'
        },
{
    *iter = *iter + 1;
    *current = *current + 1;
    if *current < text.len() {
        text[*current - 1]
    } else {
        '\0'
    }
}

/// The character one past the cursor, or the sentinel when none exists.
pub fn peek_ahead(text: &Vec<char>, current: usize) -> (c: char)
    ensures
        c == if current + 1 < text@.len() {
            text@[current as int + 1]
        } else {
            '\0'
        },
{
    if current < text.len() && current + 1 < text.len() {
        text[current + 1]
    } else {
        '\0'
    }
}

/// Append a token spanning `[start, current - 1)`: `current` is the cursor
/// position just past the span's terminator character.
pub fn add_token(tokens: &mut Vec<Token>, start: usize, current: usize, format: FormatType)
    requires
        start < current,
    ensures
        final(tokens)@ == old(tokens)@.push(
            (Token { start, length: (current - start - 1) as usize, format }),
        ),
{
    tokens.push(Token { start, length: current - start - 1, format });
}

/// Append the two-character line-break token whose second character sits at
/// `current`.
pub fn add_new_line(tokens: &mut Vec<Token>, current: usize)
    requires
        current >= 1,
    ensures
        final(tokens)@ == old(tokens)@.push(
            (Token { start: (current - 1) as usize, length: 2, format: FormatType::NewLine }),
        ),
{
    tokens.push(Token { start: current - 1, length: 2, format: FormatType::NewLine });
}

/// Append a one-character space token at `current`.
pub fn add_space(tokens: &mut Vec<Token>, current: usize)
    ensures
        final(tokens)@ == old(tokens)@.push(
            (Token { start: current, length: 1, format: FormatType::Space }),
        ),
{
    tokens.push(Token { start: current, length: 1, format: FormatType::Space });
}

} // verus!
