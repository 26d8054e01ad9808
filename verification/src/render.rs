//! The plaintext renderer.
//!
//! The renderer walks the token stream once, in order, and appends each
//! token's text to the output: most kinds verbatim, spaces and line breaks
//! as single literal characters, and `Italic`/`InlineQuote` spans through a
//! repair step.  The tokenizer deliberately abstains from classifying
//! bracket spans that hold a pipe or a nested bracket, so such spans can end
//! up inside emphasis tokens; the repair step strips their `[[`/`]]` markers
//! and keeps only the link target before any pipe.  The final output is
//! trimmed of leading and trailing whitespace.

use vstd::prelude::*;

use crate::scan::{find_char_within, find_double_within, scan_char_within, scan_double_within};
use crate::strconv::chars_to_string;
use crate::token::{tokens_view, FormatType, Token, TokenModel};

verus! {

/// The repaired text of the window `[lo, hi)` of `s`: each `[[ ... ]]` group
/// loses its markers, and its interior is cut at the first pipe, keeping the
/// link target and dropping the display text.  Text outside such groups, and
/// any window without a complete group, passes through unchanged.
pub open spec fn repair_from(s: Seq<char>, lo: int, hi: int) -> Seq<char>
    decreases hi - lo,
{
    if !(0 <= lo <= hi <= s.len()) {
        Seq::empty()
    } else {
        match find_double_within(s, lo, hi, '[') {
            None => s.subrange(lo, hi),
            Some(i) => match find_double_within(s, i + 2, hi, ']') {
                None => s.subrange(lo, hi),
                Some(j) => {
                    let target = match find_char_within(s, i + 2, j, '|') {
                        None => s.subrange(i + 2, j),
                        Some(q) => s.subrange(i + 2, q),
                    };
                    if lo <= i && lo < j + 2 <= hi {
                        s.subrange(lo, i) + target + repair_from(s, j + 2, hi)
                    } else {
                        s.subrange(lo, hi)
                    }
                },
            },
        }
    }
}

/// The text one token contributes to the output.
pub open spec fn render_one(t: TokenModel, s: Seq<char>) -> Seq<char> {
    match t.kind {
        FormatType::Space => seq![' '],
        FormatType::NewLine => seq!['\n'],
        FormatType::Italic => repair_from(s, t.start, t.end()),
        FormatType::InlineQuote => repair_from(s, t.start, t.end()),
        _ => s.subrange(t.start, t.end()),
    }
}

/// The text a whole token stream contributes, in order.
pub open spec fn render_tokens(ts: Seq<TokenModel>, s: Seq<char>) -> Seq<char>
    decreases ts.len(),
{
    if ts.len() == 0 {
        Seq::empty()
    } else {
        render_tokens(ts.drop_last(), s) + render_one(ts.last(), s)
    }
}

/// Whitespace for the purpose of trimming the final output.
pub open spec fn is_blank_char(c: char) -> bool {
    c == ' ' || c == '\n' || c == '\t' || c == '\r'
}

/// Runtime test for [`is_blank_char`].
pub fn blank_char(c: char) -> (r: bool)
    ensures
        r == is_blank_char(c),
{
    c == ' ' || c == '\n' || c == '\t' || c == '\r'
}

/// `s` with leading and trailing whitespace removed.
pub open spec fn trim_spec(s: Seq<char>) -> Seq<char>
    decreases s.len(),
{
    if s.len() == 0 {
        s
    } else if is_blank_char(s[0]) {
        trim_spec(s.drop_first())
    } else if is_blank_char(s.last()) {
        trim_spec(s.drop_last())
    } else {
        s
    }
}

/// Trimming text that is blank at exactly its edges yields the inner window.
proof fn lemma_trim_window(s: Seq<char>, lo: int, hi: int)
    requires
        0 <= lo <= hi <= s.len(),
        forall|x: int| 0 <= x < lo ==> is_blank_char(#[trigger] s[x]),
        forall|x: int| hi <= x < s.len() ==> is_blank_char(#[trigger] s[x]),
        lo < hi ==> !is_blank_char(s[lo]) && !is_blank_char(s[hi - 1]),
    ensures
        trim_spec(s) == s.subrange(lo, hi),
    decreases s.len(),
{
    if s.len() == 0 {
        assert(s.subrange(lo, hi) =~= s);
    } else if is_blank_char(s[0]) {
        let d = s.drop_first();
        if lo == hi {
            lemma_trim_window(d, 0, 0);
            assert(s.subrange(lo, hi) =~= d.subrange(0, 0));
        } else {
            lemma_trim_window(d, lo - 1, hi - 1);
            assert(s.subrange(lo, hi) =~= d.subrange(lo - 1, hi - 1));
        }
    } else if is_blank_char(s.last()) {
        if lo == hi {
            lemma_trim_window(s.drop_last(), lo, lo);
            assert(s.subrange(lo, hi) =~= s.drop_last().subrange(lo, lo));
        } else {
            let d = s.drop_last();
            lemma_trim_window(d, lo, hi);
            assert(s.subrange(lo, hi) =~= d.subrange(lo, hi));
        }
    } else {
        assert(s.subrange(lo, hi) =~= s);
    }
}

/// Trimming is idempotent: a second trim changes nothing.
pub proof fn lemma_trim_idempotent(s: Seq<char>)
    ensures
        trim_spec(trim_spec(s)) == trim_spec(s),
    decreases s.len(),
{
    if s.len() == 0 {
    } else if is_blank_char(s[0]) {
        lemma_trim_idempotent(s.drop_first());
    } else if is_blank_char(s.last()) {
        lemma_trim_idempotent(s.drop_last());
    }
}

/// Append `chars[lo..hi]` to `out`.
pub(crate) fn append_range(out: &mut Vec<char>, chars: &Vec<char>, lo: usize, hi: usize)
    requires
        lo <= hi <= chars.len(),
    ensures
        final(out)@ == old(out)@ + chars@.subrange(lo as int, hi as int),
{
    let ghost out0 = out@;
    let mut k: usize = lo;
    while k < hi
        invariant
            lo <= k <= hi <= chars.len(),
            out@ == out0 + chars@.subrange(lo as int, k as int),
        decreases hi - k,
    {
        out.push(chars[k]);
        proof {
            assert(out0 + chars@.subrange(lo as int, k + 1) =~= (out0 + chars@.subrange(
                lo as int,
                k as int,
            )).push(chars@[k as int]));
        }
        k = k + 1;
    }
    proof {
        assert(out@ =~= out0 + chars@.subrange(lo as int, hi as int));
    }
}

/// Append the repaired text of the window `[lo, hi)` to `out`:
/// the executable form of [`repair_from`].
fn append_repaired(out: &mut Vec<char>, chars: &Vec<char>, lo: usize, hi: usize)
    requires
        lo <= hi <= chars.len(),
    ensures
        final(out)@ == old(out)@ + repair_from(chars@, lo as int, hi as int),
{
    let ghost out0 = out@;
    let ghost s = chars@;
    let mut p: usize = lo;
    loop
        invariant_except_break
            lo <= p <= hi <= chars.len(),
            s == chars@,
            out0 + repair_from(s, lo as int, hi as int) == out@ + repair_from(
                s,
                p as int,
                hi as int,
            ),
        ensures
            out@ == out0 + repair_from(s, lo as int, hi as int),
        decreases hi - p,
    {
        match scan_double_within(chars, p, hi, '[') {
            None => {
                append_range(out, chars, p, hi);
                proof {
                    assert(repair_from(s, p as int, hi as int) == s.subrange(p as int, hi as int));
                    assert(out@ =~= out0 + repair_from(s, lo as int, hi as int));
                }
                break ;
            },
            Some(i) => {
                match scan_double_within(chars, i + 2, hi, ']') {
                    None => {
                        append_range(out, chars, p, hi);
                        proof {
                            assert(repair_from(s, p as int, hi as int) == s.subrange(
                                p as int,
                                hi as int,
                            ));
                            assert(out@ =~= out0 + repair_from(s, lo as int, hi as int));
                        }
                        break ;
                    },
                    Some(j) => {
                        let ghost out_pre = out@;
                        append_range(out, chars, p, i);
                        let ghost target = match find_char_within(s, i + 2, j as int, '|') {
                            None => s.subrange(i + 2, j as int),
                            Some(q) => s.subrange(i + 2, q),
                        };
                        match scan_char_within(chars, i + 2, j, '|') {
                            None => {
                                append_range(out, chars, i + 2, j);
                            },
                            Some(q) => {
                                append_range(out, chars, i + 2, q);
                            },
                        }
                        proof {
                            assert(out@ =~= out_pre + (s.subrange(p as int, i as int) + target));
                            assert(repair_from(s, p as int, hi as int) == s.subrange(
                                p as int,
                                i as int,
                            ) + target + repair_from(s, j + 2, hi as int));
                            assert(out_pre + (s.subrange(p as int, i as int) + target)
                                + repair_from(s, j + 2, hi as int) =~= out_pre + repair_from(
                                s,
                                p as int,
                                hi as int,
                            ));
                        }
                        p = j + 2;
                    },
                }
            },
        }
    }
}

/// Render a token stream over its buffer into the final plaintext string:
/// each token's text in order, as [`render_tokens`] defines it, trimmed of
/// leading and trailing whitespace.
pub fn generate_plaintext(tokens: &Vec<Token>, characters: &Vec<char>) -> (r: String)
    requires
        forall|n: int| 0 <= n < tokens@.len() ==> (#[trigger] tokens@[n]@).in_bounds(
            characters@.len() as int,
        ),
    ensures
        r@ == trim_spec(render_tokens(tokens_view(tokens@), characters@)),
{
    let ghost s = characters@;
    let mut out: Vec<char> = Vec::new();
    let mut idx: usize = 0;
    while idx < tokens.len()
        invariant
            idx <= tokens.len(),
            s == characters@,
            forall|n: int| 0 <= n < tokens@.len() ==> (#[trigger] tokens@[n]@).in_bounds(
                characters@.len() as int,
            ),
            out@ == render_tokens(tokens_view(tokens@.take(idx as int)), s),
        decreases tokens@.len() - idx,
    {
        let ghost pre = tokens_view(tokens@.take(idx as int));
        let t = tokens[idx];
        let buffer_len = characters.len();
        proof {
            assert(tokens@[idx as int]@.in_bounds(s.len() as int));
            assert(t.start as int + t.length as int <= buffer_len as int - 1);
        }
        match t.format {
            FormatType::Space => {
                out.push(' ');
            },
            FormatType::NewLine => {
                out.push('\n');
            },
            FormatType::Italic => {
                append_repaired(&mut out, characters, t.start, t.start + t.length);
            },
            FormatType::InlineQuote => {
                append_repaired(&mut out, characters, t.start, t.start + t.length);
            },
            _ => {
                append_range(&mut out, characters, t.start, t.start + t.length);
            },
        }
        proof {
            let taken = tokens_view(tokens@.take(idx + 1));
            assert(taken.drop_last() =~= pre);
            assert(taken.last() == tokens@[idx as int]@);
            assert(out@ == render_tokens(pre, s) + render_one(tokens@[idx as int]@, s));
        }
        idx = idx + 1;
    }
    proof {
        assert(tokens@.take(tokens@.len() as int) =~= tokens@);
    }
    let mut lo: usize = 0;
    while lo < out.len() && blank_char(out[lo])
        invariant
            lo <= out.len(),
            forall|x: int| 0 <= x < lo ==> is_blank_char(#[trigger] out@[x]),
        decreases out@.len() - lo,
    {
        lo = lo + 1;
    }
    if lo == out.len() {
        proof {
            lemma_trim_window(out@, 0, 0);
        }
        let empty: Vec<char> = Vec::new();
        return chars_to_string(&empty);
    }
    let mut hi: usize = out.len();
    while hi > lo + 1 && blank_char(out[hi - 1])
        invariant
            lo < hi <= out.len(),
            forall|x: int| hi <= x < out@.len() ==> is_blank_char(#[trigger] out@[x]),
        decreases hi,
    {
        hi = hi - 1;
    }
    proof {
        lemma_trim_window(out@, lo as int, hi as int);
    }
    let mut trimmed: Vec<char> = Vec::new();
    append_range(&mut trimmed, &out, lo, hi);
    chars_to_string(&trimmed)
}

} // verus!
