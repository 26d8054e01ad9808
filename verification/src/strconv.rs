//! Conversions between `String`/`&str` and the character buffers the
//! pipeline works on.  These two functions are the library's only trusted
//! boundary with std's string machinery, which vstd does not specify.

use vstd::prelude::*;

verus! {

/// Relies on std's `str::chars`: iterating a string slice yields exactly
/// its sequence of Unicode scalar values, in order.
#[verifier::external_body]
pub(crate) fn str_to_chars(text: &str) -> (r: Vec<char>)
    ensures
        r@ == text@,
{
    text.chars().collect()
}

/// Relies on std's `String: FromIterator<char>`: collecting characters
/// yields the string of exactly those characters, in order.
#[verifier::external_body]
pub(crate) fn chars_to_string(chars: &Vec<char>) -> (r: String)
    ensures
        r@ == chars@,
{
    chars.iter().collect()
}

} // verus!
