//! The single-pass markup tokenizer.
//!
//! The scanner walks a sentinel-terminated character buffer with one forward
//! cursor, dispatching on the character under the cursor, and emits typed
//! tokens holding offsets into the buffer.  Its behaviour is defined by the
//! spec function [`tok_from`], which the executable scanner
//! [`parse_text_with_limit`] is proved to follow exactly: every scan for a
//! required terminator is bounded both by the buffer end and by a global
//! scan-step ceiling, and either bound being hit is reported as a
//! [`ParseError`] rather than a hang, a crash, or silently truncated output.

use vstd::prelude::*;

use crate::errors::{malformed, Construct, ParseError, ParseErrorModel};
use crate::scan::{
    is_trigger_char, seek, seek_past, word_end, lemma_word_end, seek_char, seek_past_char,
    word_scan,
};
use crate::token::{tokens_view, FormatType, Token, TokenModel};
use crate::utils::{add_new_line, add_space, add_token, peek_ahead};

verus! {

/// Ceiling on the number of scan steps the tokenizer may spend inside
/// terminator scans over one buffer.  A required terminator not found within
/// this many steps is reported as malformed markup.
pub const MAX_SCAN_STEPS: usize = 150000;

/// Deepest `{`-brace nesting the scanner follows.  One level deeper and it
/// gives the region up, skipping to the end of the input.
pub const MAX_BRACE_DEPTH: usize = 3;

/// A buffer the tokenizer accepts: nonempty, with the sentinel as its last
/// element.  The preprocessor establishes this shape.
pub open spec fn wf_buffer(s: Seq<char>) -> bool {
    s.len() >= 1 && s[s.len() - 1] == '\0'
}

/// Brace-region skip, from `j` with `depth` levels currently open.  The
/// region that began at `origin` ends when the depth returns to zero; a
/// fourth nesting level makes the scanner give the region up and skip to the
/// sentinel.  Yields the cursor position after the region and the steps
/// consumed.
pub open spec fn brace_scan(
    s: Seq<char>,
    origin: int,
    j: int,
    depth: int,
    used: int,
    max: int,
) -> Result<(int, int), ParseErrorModel>
    decreases s.len() - j,
{
    if j < 0 || j >= s.len() || used >= max {
        Err(malformed(origin, Construct::Braces))
    } else if s[j] == '{' {
        if depth >= MAX_BRACE_DEPTH as int {
            Ok((s.len() - 1, used + 1))
        } else {
            brace_scan(s, origin, j + 1, depth + 1, used + 1, max)
        }
    } else if s[j] == '}' {
        if depth <= 1 {
            Ok((j + 1, used + 1))
        } else {
            brace_scan(s, origin, j + 1, depth - 1, used + 1, max)
        }
    } else {
        brace_scan(s, origin, j + 1, depth, used + 1, max)
    }
}

/// Bracket-span scan for the link that began at `origin`, from `j`.  Records
/// whether a nested `[` or a pipe separator was seen; a nested bracket's own
/// span is skipped through its first `]` and one character beyond.  Yields
/// the closing bracket's position, both flags, and the steps consumed.
pub open spec fn link_scan(
    s: Seq<char>,
    origin: int,
    j: int,
    nested: bool,
    piped: bool,
    used: int,
    max: int,
) -> Result<(int, bool, bool, int), ParseErrorModel>
    decreases s.len() - j,
{
    if j < 0 || j >= s.len() || used >= max {
        Err(malformed(origin, Construct::Link))
    } else if s[j] == ']' {
        Ok((j, nested, piped, used + 1))
    } else if s[j] == '[' {
        match seek(s, j + 1, ']', used + 1, max) {
            None => Err(malformed(origin, Construct::Link)),
            Some(p) => {
                let resume = if p.0 + 2 <= s.len() {
                    p.0 + 2
                } else {
                    s.len() as int
                };
                if j < resume <= s.len() {
                    link_scan(s, origin, resume, true, piped, p.1, max)
                } else {
                    Err(malformed(origin, Construct::Link))
                }
            },
        }
    } else if s[j] == '|' {
        link_scan(s, origin, j + 1, nested, true, used + 1, max)
    } else {
        link_scan(s, origin, j + 1, nested, piped, used + 1, max)
    }
}

/// Prepend an already-emitted token prefix to the outcome of the remaining
/// scan.
pub open spec fn with_prefix(
    prefix: Seq<TokenModel>,
    r: Result<Seq<TokenModel>, ParseErrorModel>,
) -> Result<Seq<TokenModel>, ParseErrorModel> {
    match r {
        Ok(rest) => Ok(prefix + rest),
        Err(e) => Err(e),
    }
}

/// Prepend one token to the outcome of the remaining scan.
pub open spec fn emit(t: TokenModel, r: Result<Seq<TokenModel>, ParseErrorModel>) -> Result<
    Seq<TokenModel>,
    ParseErrorModel,
> {
    with_prefix(seq![t], r)
}

/// The token stream the scanner produces from cursor position `i` to the end
/// of the buffer, with `bullet` pending and `used` of `max` scan steps
/// already consumed.  This is the tokenizer's defining dispatch table:
///
/// - `{` enters a depth-counted brace skip ([`brace_scan`]), emitting nothing;
/// - a doubled `'` run becomes an emphasis token (`Italic`/`Bold`, or their
///   bullet variants when a `*` is pending; runs longer than three fall back
///   to `Bold` and leave the bullet pending);
/// - `[` scans a `[[...]]` span ([`link_scan`]); a span with no nested
///   bracket and no pipe becomes a `WikiLink` over its interior, any other
///   span is dropped;
/// - a space becomes a one-character `Space` token;
/// - `<` skips to the matching `>`, emitting nothing;
/// - an `=` run of length two, three or four becomes a
///   `Title`/`Subtitle`/`Subsubtitle` over the text up to the next `=`; other
///   run lengths emit nothing;
/// - `\` handles an upstream escape: `\n` becomes a `NewLine`, `\"` an
///   `InlineQuote` spanning to the next `\`, anything else is skipped;
/// - `*` sets the pending-bullet flag and emits nothing;
/// - the sentinel stops the scan;
/// - anything else is scanned greedily to the next trigger character and
///   becomes a `PlainWord`.
pub open spec fn tok_from(s: Seq<char>, i: int, bullet: bool, used: int, max: int) -> Result<
    Seq<TokenModel>,
    ParseErrorModel,
>
    decreases s.len() - i,
{
    if i < 0 || i >= s.len() {
        Ok(seq![])
    } else {
        let c = s[i];
        if c == '\0' {
            Ok(seq![])
        } else if c == '{' {
            match brace_scan(s, i, i + 1, 1, used, max) {
                Err(e) => Err(e),
                Ok(p) => if i < p.0 <= s.len() {
                    tok_from(s, p.0, bullet, p.1, max)
                } else {
                    Ok(seq![])
                },
            }
        } else if c == '\'' {
            if i + 1 >= s.len() || s[i + 1] != '\'' {
                tok_from(s, i + 1, bullet, used, max)
            } else {
                match seek_past(s, i, '\'', used, max) {
                    None => Err(malformed(i, Construct::Emphasis)),
                    Some(p1) => match seek(s, p1.0 + 1, '\'', p1.1, max) {
                        None => Err(malformed(i, Construct::Emphasis)),
                        Some(p2) => {
                            let run = p1.0 - i;
                            let kind = if run == 2 {
                                if bullet {
                                    FormatType::BulletItalic
                                } else {
                                    FormatType::Italic
                                }
                            } else if run == 3 {
                                if bullet {
                                    FormatType::BulletBold
                                } else {
                                    FormatType::Bold
                                }
                            } else {
                                FormatType::Bold
                            };
                            let bullet2 = if run == 2 || run == 3 {
                                false
                            } else {
                                bullet
                            };
                            let tok = TokenModel { start: p1.0, length: p2.0 - p1.0, kind };
                            let next = if p2.0 + run <= s.len() {
                                p2.0 + run
                            } else {
                                s.len() as int
                            };
                            if i < next <= s.len() {
                                emit(tok, tok_from(s, next, bullet2, p2.1, max))
                            } else {
                                Ok(seq![tok])
                            }
                        },
                    },
                }
            }
        } else if c == '[' {
            match link_scan(s, i, i + 2, false, false, used, max) {
                Err(e) => Err(e),
                Ok(q) => {
                    let next = if q.0 + 2 <= s.len() {
                        q.0 + 2
                    } else {
                        s.len() as int
                    };
                    if !q.1 && !q.2 {
                        let tok = TokenModel {
                            start: i + 2,
                            length: q.0 - (i + 2),
                            kind: FormatType::WikiLink,
                        };
                        if i < next <= s.len() {
                            emit(tok, tok_from(s, next, bullet, q.3, max))
                        } else {
                            Ok(seq![tok])
                        }
                    } else {
                        if i < next <= s.len() {
                            tok_from(s, next, bullet, q.3, max)
                        } else {
                            Ok(seq![])
                        }
                    }
                },
            }
        } else if c == ' ' {
            emit(
                TokenModel { start: i, length: 1, kind: FormatType::Space },
                tok_from(s, i + 1, bullet, used, max),
            )
        } else if c == '<' {
            match seek(s, i, '>', used, max) {
                None => Err(malformed(i, Construct::Tag)),
                Some(p) => if i < p.0 + 1 <= s.len() {
                    tok_from(s, p.0 + 1, bullet, p.1, max)
                } else {
                    Ok(seq![])
                },
            }
        } else if c == '=' {
            match seek_past(s, i, '=', used, max) {
                None => Err(malformed(i, Construct::Heading)),
                Some(p1) => match seek(s, p1.0 + 1, '=', p1.1, max) {
                    None => Err(malformed(i, Construct::Heading)),
                    Some(p2) => {
                        let run = p1.0 - i;
                        if run == 2 || run == 3 || run == 4 {
                            let kind = if run == 2 {
                                FormatType::Title
                            } else if run == 3 {
                                FormatType::Subtitle
                            } else {
                                FormatType::Subsubtitle
                            };
                            let tok = TokenModel { start: p1.0, length: p2.0 - p1.0, kind };
                            let next = if p2.0 + run <= s.len() {
                                p2.0 + run
                            } else {
                                s.len() as int
                            };
                            if i < next <= s.len() {
                                emit(tok, tok_from(s, next, bullet, p2.1, max))
                            } else {
                                Ok(seq![tok])
                            }
                        } else {
                            if i < p2.0 + 1 <= s.len() {
                                tok_from(s, p2.0 + 1, bullet, p2.1, max)
                            } else {
                                Ok(seq![])
                            }
                        }
                    },
                },
            }
        } else if c == '\\' {
            if i + 1 >= s.len() {
                Ok(seq![])
            } else if s[i + 1] == 'n' {
                emit(
                    TokenModel { start: i, length: 2, kind: FormatType::NewLine },
                    tok_from(s, i + 2, bullet, used, max),
                )
            } else if s[i + 1] == '"' {
                match seek(s, i + 2, '\\', used, max) {
                    None => Err(malformed(i, Construct::Quote)),
                    Some(p) => {
                        let tok = TokenModel {
                            start: i + 2,
                            length: p.0 - (i + 2),
                            kind: FormatType::InlineQuote,
                        };
                        let next = if p.0 + 2 <= s.len() {
                            p.0 + 2
                        } else {
                            s.len() as int
                        };
                        if i < next <= s.len() {
                            emit(tok, tok_from(s, next, bullet, p.1, max))
                        } else {
                            Ok(seq![tok])
                        }
                    },
                }
            } else {
                tok_from(s, i + 2, bullet, used, max)
            }
        } else if c == '*' {
            tok_from(s, i + 1, true, used, max)
        } else {
            let j = word_end(s, i);
            let tok = TokenModel { start: i, length: j - i, kind: FormatType::PlainWord };
            if i < j < s.len() && s[j] != '\0' {
                emit(tok, tok_from(s, j, bullet, used, max))
            } else {
                Ok(seq![tok])
            }
        }
    }
}

/// The token stream of a whole buffer under a given scan-step ceiling.
pub open spec fn tokenize_with(s: Seq<char>, max: int) -> Result<Seq<TokenModel>, ParseErrorModel> {
    tok_from(s, 0, false, 0, max)
}

/// Moving a newly emitted token from the remaining scan's outcome into the
/// already-built token vector leaves the combined stream unchanged.
proof fn lemma_with_prefix_push(
    pre: Seq<Token>,
    t: Token,
    r: Result<Seq<TokenModel>, ParseErrorModel>,
)
    ensures
        with_prefix(tokens_view(pre), emit(t@, r)) == with_prefix(tokens_view(pre.push(t)), r),
{
    assert(tokens_view(pre.push(t)) =~= tokens_view(pre).push(t@));
    match r {
        Ok(rest) => {
            assert(tokens_view(pre) + (seq![t@] + rest) =~= tokens_view(pre).push(t@) + rest);
        },
        Err(_) => {},
    }
}

/// A token emitted at the very end of the scan extends the built vector the
/// same way.
proof fn lemma_view_push(pre: Seq<Token>, t: Token)
    ensures
        tokens_view(pre.push(t)) =~= tokens_view(pre) + seq![t@],
{
    assert(tokens_view(pre.push(t)) =~= tokens_view(pre) + seq![t@]);
}

/// Executable form of [`brace_scan`], entered at the region's opening brace.
fn scan_braces(chars: &Vec<char>, origin: usize, used: usize, max_steps: usize) -> (r: Result<
    (usize, usize),
    ParseError,
>)
    requires
        origin < chars.len(),
        used <= max_steps,
    ensures
        match r {
            Ok(p) => {
                &&& brace_scan(
                    chars@,
                    origin as int,
                    origin as int + 1,
                    1,
                    used as int,
                    max_steps as int,
                ) == Ok::<(int, int), ParseErrorModel>((p.0 as int, p.1 as int))
                &&& origin < p.0 <= chars.len()
                &&& used <= p.1 <= max_steps
            },
            Err(e) => brace_scan(
                chars@,
                origin as int,
                origin as int + 1,
                1,
                used as int,
                max_steps as int,
            ) == Err::<(int, int), ParseErrorModel>(e@),
        },
{
    let mut j: usize = origin + 1;
    let mut depth: usize = 1;
    let mut u: usize = used;
    while j < chars.len()
        invariant
            origin < chars.len(),
            origin + 1 <= j,
            used <= u <= max_steps,
            1 <= depth <= MAX_BRACE_DEPTH,
            brace_scan(
                chars@,
                origin as int,
                origin as int + 1,
                1,
                used as int,
                max_steps as int,
            ) == brace_scan(
                chars@,
                origin as int,
                j as int,
                depth as int,
                u as int,
                max_steps as int,
            ),
        decreases chars@.len() - j,
    {
        if u >= max_steps {
            return Err(ParseError::MalformedMarkup { offset: origin, construct: Construct::Braces });
        }
        let c = chars[j];
        if c == '{' {
            if depth >= MAX_BRACE_DEPTH {
                return Ok((chars.len() - 1, u + 1));
            }
            depth = depth + 1;
        } else if c == '}' {
            if depth <= 1 {
                return Ok((j + 1, u + 1));
            }
            depth = depth - 1;
        }
        j = j + 1;
        u = u + 1;
    }
    Err(ParseError::MalformedMarkup { offset: origin, construct: Construct::Braces })
}

/// Executable form of [`link_scan`], entered at the span's opening bracket.
fn scan_link(chars: &Vec<char>, origin: usize, used: usize, max_steps: usize) -> (r: Result<
    (usize, bool, bool, usize),
    ParseError,
>)
    requires
        origin < chars.len(),
        used <= max_steps,
    ensures
        match r {
            Ok(q) => {
                &&& link_scan(
                    chars@,
                    origin as int,
                    origin as int + 2,
                    false,
                    false,
                    used as int,
                    max_steps as int,
                ) == Ok::<(int, bool, bool, int), ParseErrorModel>(
                    (q.0 as int, q.1, q.2, q.3 as int),
                )
                &&& origin + 2 <= q.0 < chars.len()
                &&& chars@[q.0 as int] == ']'
                &&& used <= q.3 <= max_steps
            },
            Err(e) => link_scan(
                chars@,
                origin as int,
                origin as int + 2,
                false,
                false,
                used as int,
                max_steps as int,
            ) == Err::<(int, bool, bool, int), ParseErrorModel>(e@),
        },
{
    let mut j: usize = if chars.len() - origin >= 2 {
        origin + 2
    } else {
        chars.len()
    };
    let mut nested: bool = false;
    let mut piped: bool = false;
    let mut u: usize = used;
    while j < chars.len()
        invariant
            origin < chars.len(),
            origin + 2 <= j || j >= chars.len(),
            origin < j,
            used <= u <= max_steps,
            link_scan(
                chars@,
                origin as int,
                origin as int + 2,
                false,
                false,
                used as int,
                max_steps as int,
            ) == link_scan(
                chars@,
                origin as int,
                j as int,
                nested,
                piped,
                u as int,
                max_steps as int,
            ),
        decreases chars@.len() - j,
    {
        if u >= max_steps {
            return Err(ParseError::MalformedMarkup { offset: origin, construct: Construct::Link });
        }
        let c = chars[j];
        if c == ']' {
            return Ok((j, nested, piped, u + 1));
        } else if c == '[' {
            match seek_char(chars, j + 1, ']', u + 1, max_steps) {
                None => {
                    return Err(
                        ParseError::MalformedMarkup { offset: origin, construct: Construct::Link },
                    );
                },
                Some(p) => {
                    nested = true;
                    u = p.1;
                    j = if chars.len() - p.0 >= 2 {
                        p.0 + 2
                    } else {
                        chars.len()
                    };
                },
            }
        } else {
            if c == '|' {
                piped = true;
            }
            j = j + 1;
            u = u + 1;
        }
    }
    Err(ParseError::MalformedMarkup { offset: origin, construct: Construct::Link })
}

/// The token stream of a whole buffer under the default ceiling
/// [`MAX_SCAN_STEPS`].
pub open spec fn tokenize(s: Seq<char>) -> Result<Seq<TokenModel>, ParseErrorModel> {
    tokenize_with(s, MAX_SCAN_STEPS as int)
}

/// Every token of `ts` lies within a buffer of length `len`, never covers
/// the final (sentinel) position, and starts at or after `lo`.
pub open spec fn tokens_bounded(ts: Seq<TokenModel>, lo: int, len: int) -> bool {
    forall|n: int| 0 <= n < ts.len() ==> ((#[trigger] ts[n]).in_bounds(len) && lo <= ts[n].start)
}

/// The tokens of `ts` appear in increasing start order and never overlap:
/// each ends at or before the next begins.
pub open spec fn tokens_ordered(ts: Seq<TokenModel>) -> bool {
    forall|n: int| 0 <= n && n + 1 < ts.len() ==> (#[trigger] ts[n]).end() <= ts[n + 1].start
}

/// Everything [`link_scan`] guarantees about a successful result.
proof fn lemma_link_scan_bounds(
    s: Seq<char>,
    origin: int,
    j: int,
    nested: bool,
    piped: bool,
    used: int,
    max: int,
)
    requires
        0 <= j,
    ensures
        link_scan(s, origin, j, nested, piped, used, max) matches Ok(q) ==> {
            &&& j <= q.0 < s.len()
            &&& s[q.0] == ']'
            &&& used <= q.3 <= max
        },
    decreases s.len() - j,
{
    if j >= s.len() || used >= max {
    } else if s[j] == ']' {
    } else if s[j] == '[' {
        crate::scan::lemma_seek_bounds(s, j + 1, ']', used + 1, max);
        match seek(s, j + 1, ']', used + 1, max) {
            None => {},
            Some(p) => {
                let resume = if p.0 + 2 <= s.len() {
                    p.0 + 2
                } else {
                    s.len() as int
                };
                if j < resume <= s.len() {
                    lemma_link_scan_bounds(s, origin, resume, true, piped, p.1, max);
                }
            },
        }
    } else if s[j] == '|' {
        lemma_link_scan_bounds(s, origin, j + 1, nested, true, used + 1, max);
    } else {
        lemma_link_scan_bounds(s, origin, j + 1, nested, piped, used + 1, max);
    }
}

/// A single well-placed token forms a well-formed stream.
proof fn lemma_single_wf(t: TokenModel, lo: int, len: int)
    requires
        t.in_bounds(len),
        lo <= t.start,
    ensures
        tokens_bounded(seq![t], lo, len),
        tokens_ordered(seq![t]),
{
}

/// Prepending a token that ends before the rest begins preserves stream
/// well-formedness.
proof fn lemma_cons_wf(t: TokenModel, rest: Seq<TokenModel>, lo: int, next: int, len: int)
    requires
        t.in_bounds(len),
        lo <= t.start,
        t.end() <= next,
        tokens_bounded(rest, next, len),
        tokens_ordered(rest),
        lo <= next,
    ensures
        tokens_bounded(seq![t] + rest, lo, len),
        tokens_ordered(seq![t] + rest),
{
    let ts = seq![t] + rest;
    assert forall|n: int| 0 <= n < ts.len() implies ((#[trigger] ts[n]).in_bounds(len) && lo
        <= ts[n].start) by {
        if n == 0 {
            assert(ts[0] == t);
        } else {
            assert(ts[n] == rest[n - 1]);
        }
    }
    assert forall|n: int| 0 <= n && n + 1 < ts.len() implies (#[trigger] ts[n]).end() <= ts[n
        + 1].start by {
        if n == 0 {
            assert(ts[0] == t);
            assert(ts[1] == rest[0]);
        } else {
            assert(ts[n] == rest[n - 1]);
            assert(ts[n + 1] == rest[n]);
        }
    }
}

/// The scanner's structural invariant: every token stream it accepts from
/// cursor position `i` onward lies inside the buffer, excludes the sentinel,
/// starts at or after `i`, and is ordered without overlaps.
#[verifier::rlimit(100)]
pub proof fn lemma_tok_from_wf(s: Seq<char>, i: int, bullet: bool, used: int, max: int)
    requires
        wf_buffer(s),
        0 <= i,
    ensures
        tok_from(s, i, bullet, used, max) matches Ok(ts) ==> tokens_bounded(ts, i, s.len() as int)
            && tokens_ordered(ts),
    decreases s.len() - i,
{
    let len = s.len() as int;
    if i < len {
        let c = s[i];
        if c == '\0' {
        } else if c == '{' {
            match brace_scan(s, i, i + 1, 1, used, max) {
                Err(_) => {},
                Ok(p) => {
                    if i < p.0 <= len {
                        lemma_tok_from_wf(s, p.0, bullet, p.1, max);
                    }
                },
            }
        } else if c == '\'' {
            if i + 1 >= len || s[i + 1] != '\'' {
                lemma_tok_from_wf(s, i + 1, bullet, used, max);
            } else {
                crate::scan::lemma_seek_past_bounds(s, i, '\'', used, max);
                match seek_past(s, i, '\'', used, max) {
                    None => {},
                    Some(p1) => {
                        crate::scan::lemma_seek_bounds(s, p1.0 + 1, '\'', p1.1, max);
                        match seek(s, p1.0 + 1, '\'', p1.1, max) {
                            None => {},
                            Some(p2) => {
                                let run = p1.0 - i;
                                let kind = if run == 2 {
                                    if bullet {
                                        FormatType::BulletItalic
                                    } else {
                                        FormatType::Italic
                                    }
                                } else if run == 3 {
                                    if bullet {
                                        FormatType::BulletBold
                                    } else {
                                        FormatType::Bold
                                    }
                                } else {
                                    FormatType::Bold
                                };
                                let bullet2 = if run == 2 || run == 3 {
                                    false
                                } else {
                                    bullet
                                };
                                let tok = TokenModel { start: p1.0, length: p2.0 - p1.0, kind };
                                let next = if p2.0 + run <= len {
                                    p2.0 + run
                                } else {
                                    len
                                };
                                assert(p2.0 < len - 1);
                                if i < next <= len {
                                    lemma_tok_from_wf(s, next, bullet2, p2.1, max);
                                    match tok_from(s, next, bullet2, p2.1, max) {
                                        Ok(rest) => {
                                            lemma_cons_wf(tok, rest, i, next, len);
                                        },
                                        Err(_) => {},
                                    }
                                } else {
                                    lemma_single_wf(tok, i, len);
                                }
                            },
                        }
                    },
                }
            }
        } else if c == '[' {
            lemma_link_scan_bounds(s, i, i + 2, false, false, used, max);
            match link_scan(s, i, i + 2, false, false, used, max) {
                Err(_) => {},
                Ok(q) => {
                    let next = if q.0 + 2 <= len {
                        q.0 + 2
                    } else {
                        len
                    };
                    assert(q.0 < len - 1);
                    if !q.1 && !q.2 {
                        let tok = TokenModel {
                            start: i + 2,
                            length: q.0 - (i + 2),
                            kind: FormatType::WikiLink,
                        };
                        if i < next <= len {
                            lemma_tok_from_wf(s, next, bullet, q.3, max);
                            match tok_from(s, next, bullet, q.3, max) {
                                Ok(rest) => {
                                    lemma_cons_wf(tok, rest, i, next, len);
                                },
                                Err(_) => {},
                            }
                        } else {
                            lemma_single_wf(tok, i, len);
                        }
                    } else {
                        if i < next <= len {
                            lemma_tok_from_wf(s, next, bullet, q.3, max);
                        }
                    }
                },
            }
        } else if c == ' ' {
            let tok = TokenModel { start: i, length: 1, kind: FormatType::Space };
            assert(i < len - 1);
            lemma_tok_from_wf(s, i + 1, bullet, used, max);
            match tok_from(s, i + 1, bullet, used, max) {
                Ok(rest) => {
                    lemma_cons_wf(tok, rest, i, i + 1, len);
                },
                Err(_) => {},
            }
        } else if c == '<' {
            crate::scan::lemma_seek_bounds(s, i, '>', used, max);
            match seek(s, i, '>', used, max) {
                None => {},
                Some(p) => {
                    if i < p.0 + 1 <= len {
                        lemma_tok_from_wf(s, p.0 + 1, bullet, p.1, max);
                    }
                },
            }
        } else if c == '=' {
            crate::scan::lemma_seek_past_bounds(s, i, '=', used, max);
            match seek_past(s, i, '=', used, max) {
                None => {},
                Some(p1) => {
                    crate::scan::lemma_seek_bounds(s, p1.0 + 1, '=', p1.1, max);
                    match seek(s, p1.0 + 1, '=', p1.1, max) {
                        None => {},
                        Some(p2) => {
                            let run = p1.0 - i;
                            assert(p2.0 < len - 1);
                            if run == 2 || run == 3 || run == 4 {
                                let kind = if run == 2 {
                                    FormatType::Title
                                } else if run == 3 {
                                    FormatType::Subtitle
                                } else {
                                    FormatType::Subsubtitle
                                };
                                let tok = TokenModel { start: p1.0, length: p2.0 - p1.0, kind };
                                let next = if p2.0 + run <= len {
                                    p2.0 + run
                                } else {
                                    len
                                };
                                if i < next <= len {
                                    lemma_tok_from_wf(s, next, bullet, p2.1, max);
                                    match tok_from(s, next, bullet, p2.1, max) {
                                        Ok(rest) => {
                                            lemma_cons_wf(tok, rest, i, next, len);
                                        },
                                        Err(_) => {},
                                    }
                                } else {
                                    lemma_single_wf(tok, i, len);
                                }
                            } else {
                                if i < p2.0 + 1 <= len {
                                    lemma_tok_from_wf(s, p2.0 + 1, bullet, p2.1, max);
                                }
                            }
                        },
                    }
                },
            }
        } else if c == '\\' {
            if i + 1 >= len {
            } else if s[i + 1] == 'n' {
                let tok = TokenModel { start: i, length: 2, kind: FormatType::NewLine };
                assert(i + 1 < len - 1);
                lemma_tok_from_wf(s, i + 2, bullet, used, max);
                match tok_from(s, i + 2, bullet, used, max) {
                    Ok(rest) => {
                        lemma_cons_wf(tok, rest, i, i + 2, len);
                    },
                    Err(_) => {},
                }
            } else if s[i + 1] == '"' {
                crate::scan::lemma_seek_bounds(s, i + 2, '\\', used, max);
                match seek(s, i + 2, '\\', used, max) {
                    None => {},
                    Some(p) => {
                        let tok = TokenModel {
                            start: i + 2,
                            length: p.0 - (i + 2),
                            kind: FormatType::InlineQuote,
                        };
                        let next = if p.0 + 2 <= len {
                            p.0 + 2
                        } else {
                            len
                        };
                        assert(p.0 < len - 1);
                        if i < next <= len {
                            lemma_tok_from_wf(s, next, bullet, p.1, max);
                            match tok_from(s, next, bullet, p.1, max) {
                                Ok(rest) => {
                                    lemma_cons_wf(tok, rest, i, next, len);
                                },
                                Err(_) => {},
                            }
                        } else {
                            lemma_single_wf(tok, i, len);
                        }
                    },
                }
            } else {
                lemma_tok_from_wf(s, i + 2, bullet, used, max);
            }
        } else if c == '*' {
            lemma_tok_from_wf(s, i + 1, true, used, max);
        } else {
            lemma_word_end(s, i);
            let j = word_end(s, i);
            assert(j <= len - 1);
            let tok = TokenModel { start: i, length: j - i, kind: FormatType::PlainWord };
            if i < j < len && s[j] != '\0' {
                lemma_tok_from_wf(s, j, bullet, used, max);
                match tok_from(s, j, bullet, used, max) {
                    Ok(rest) => {
                        lemma_cons_wf(tok, rest, i, j, len);
                    },
                    Err(_) => {},
                }
            } else {
                lemma_single_wf(tok, i, len);
            }
        }
    }
}

/// The token-stream invariant at the whole-buffer level: a stream the
/// tokenizer accepts is ordered, free of overlaps, and confined to the
/// buffer with the sentinel excluded, whatever the step ceiling.
pub proof fn lemma_tokenize_wf(s: Seq<char>, max: int)
    requires
        wf_buffer(s),
    ensures
        tokenize_with(s, max) matches Ok(ts) ==> tokens_bounded(ts, 0, s.len() as int)
            && tokens_ordered(ts),
{
    lemma_tok_from_wf(s, 0, false, 0, max);
}

/// Tokenize a sentinel-terminated buffer under the given scan-step ceiling.
/// The result is exactly the token stream [`tokenize_with`] defines: offsets
/// into the buffer in increasing order, never covering the sentinel, or the
/// malformed-markup error naming the construct left open.
#[verifier::rlimit(100)]
pub fn parse_text_with_limit(characters: &Vec<char>, max_steps: usize) -> (r: Result<
    Vec<Token>,
    ParseError,
>)
    requires
        wf_buffer(characters@),
    ensures
        match r {
            Ok(tokens) => tokenize_with(characters@, max_steps as int) == Ok::<
                Seq<TokenModel>,
                ParseErrorModel,
            >(tokens_view(tokens@)),
            Err(e) => tokenize_with(characters@, max_steps as int) == Err::<
                Seq<TokenModel>,
                ParseErrorModel,
            >(e@),
        },
{
    let ghost s = characters@;
    let ghost m = max_steps as int;
    let mut current: usize = 0;
    let mut tokens: Vec<Token> = Vec::new();
    let mut is_bullet: bool = false;
    let mut used: usize = 0;
    while current < characters.len()
        invariant
            wf_buffer(s),
            s == characters@,
            m == max_steps as int,
            current <= characters.len(),
            used <= max_steps,
            tok_from(s, 0, false, 0, m) == with_prefix(
                tokens_view(tokens@),
                tok_from(s, current as int, is_bullet, used as int, m),
            ),
        decreases characters@.len() - current,
    {
        let ghost i0 = current as int;
        let ghost b0 = is_bullet;
        let ghost u0 = used as int;
        let ghost pre = tokens@;
        let c = characters[current];
        if c == '\0' {
            proof {
                assert(tok_from(s, i0, b0, u0, m) == Ok::<Seq<TokenModel>, ParseErrorModel>(
                    seq![],
                ));
                assert(tokens_view(pre) + Seq::<TokenModel>::empty() =~= tokens_view(pre));
            }
            return Ok(tokens);
        } else if c == '{' {
            match scan_braces(characters, current, used, max_steps) {
                Err(e) => {
                    return Err(e);
                },
                Ok(p) => {
                    current = p.0;
                    used = p.1;
                },
            }
        } else if c == '\'' {
            if peek_ahead(characters, current) == '\'' {
                match seek_past_char(characters, current, '\'', used, max_steps) {
                    None => {
                        return Err(
                            ParseError::MalformedMarkup {
                                offset: current,
                                construct: Construct::Emphasis,
                            },
                        );
                    },
                    Some(p1) => {
                        match seek_char(characters, p1.0 + 1, '\'', p1.1, max_steps) {
                            None => {
                                return Err(
                                    ParseError::MalformedMarkup {
                                        offset: current,
                                        construct: Construct::Emphasis,
                                    },
                                );
                            },
                            Some(p2) => {
                                proof {
                                    assert(s[i0] == '\'');
                                    assert(s[i0 + 1] == '\'');
                                    assert(s[p1.0 as int] != '\'');
                                    assert(p1.0 >= current + 2);
                                }
                                let run: usize = p1.0 - current;
                                let format: FormatType = if run == 2 {
                                    if is_bullet {
                                        FormatType::BulletItalic
                                    } else {
                                        FormatType::Italic
                                    }
                                } else if run == 3 {
                                    if is_bullet {
                                        FormatType::BulletBold
                                    } else {
                                        FormatType::Bold
                                    }
                                } else {
                                    FormatType::Bold
                                };
                                if run == 2 || run == 3 {
                                    is_bullet = false;
                                }
                                add_token(&mut tokens, p1.0, p2.0 + 1, format);
                                current = if characters.len() - p2.0 >= run {
                                    p2.0 + run
                                } else {
                                    characters.len()
                                };
                                used = p2.1;
                                proof {
                                    let t = Token { start: p1.0, length: (p2.0 - p1.0) as usize, format };
                                    assert(tokens@ == pre.push(t));
                                    assert(tok_from(s, i0, b0, u0, m) == emit(
                                        t@,
                                        tok_from(s, current as int, is_bullet, used as int, m),
                                    ));
                                    lemma_with_prefix_push(
                                        pre,
                                        t,
                                        tok_from(s, current as int, is_bullet, used as int, m),
                                    );
                                }
                            },
                        }
                    },
                }
            } else {
                current = current + 1;
            }
        } else if c == '[' {
            match scan_link(characters, current, used, max_steps) {
                Err(e) => {
                    return Err(e);
                },
                Ok(q) => {
                    let close: usize = q.0;
                    if !q.1 && !q.2 {
                        add_token(&mut tokens, current + 2, close + 1, FormatType::WikiLink);
                        proof {
                            let t = Token {
                                start: (i0 + 2) as usize,
                                length: (close - (i0 + 2)) as usize,
                                format: FormatType::WikiLink,
                            };
                            assert(tokens@ == pre.push(t));
                        }
                    }
                    current = if characters.len() - close >= 2 {
                        close + 2
                    } else {
                        characters.len()
                    };
                    used = q.3;
                    proof {
                        if !q.1 && !q.2 {
                            let t = Token {
                                start: (i0 + 2) as usize,
                                length: (close - (i0 + 2)) as usize,
                                format: FormatType::WikiLink,
                            };
                            assert(tok_from(s, i0, b0, u0, m) == emit(
                                t@,
                                tok_from(s, current as int, is_bullet, used as int, m),
                            ));
                            lemma_with_prefix_push(
                                pre,
                                t,
                                tok_from(s, current as int, is_bullet, used as int, m),
                            );
                        }
                    }
                },
            }
        } else if c == ' ' {
            add_space(&mut tokens, current);
            current = current + 1;
            proof {
                let t = Token { start: i0 as usize, length: 1, format: FormatType::Space };
                assert(tokens@ == pre.push(t));
                assert(tok_from(s, i0, b0, u0, m) == emit(
                    t@,
                    tok_from(s, current as int, is_bullet, used as int, m),
                ));
                lemma_with_prefix_push(
                    pre,
                    t,
                    tok_from(s, current as int, is_bullet, used as int, m),
                );
            }
        } else if c == '<' {
            match seek_char(characters, current, '>', used, max_steps) {
                None => {
                    return Err(
                        ParseError::MalformedMarkup { offset: current, construct: Construct::Tag },
                    );
                },
                Some(p) => {
                    current = p.0 + 1;
                    used = p.1;
                },
            }
        } else if c == '=' {
            match seek_past_char(characters, current, '=', used, max_steps) {
                None => {
                    return Err(
                        ParseError::MalformedMarkup {
                            offset: current,
                            construct: Construct::Heading,
                        },
                    );
                },
                Some(p1) => {
                    match seek_char(characters, p1.0 + 1, '=', p1.1, max_steps) {
                        None => {
                            return Err(
                                ParseError::MalformedMarkup {
                                    offset: current,
                                    construct: Construct::Heading,
                                },
                            );
                        },
                        Some(p2) => {
                            proof {
                                assert(s[p1.0 as int] != '=');
                                assert(s[i0] == '=');
                                assert(p1.0 > current);
                            }
                            let run: usize = p1.0 - current;
                            if run == 2 || run == 3 || run == 4 {
                                let format: FormatType = if run == 2 {
                                    FormatType::Title
                                } else if run == 3 {
                                    FormatType::Subtitle
                                } else {
                                    FormatType::Subsubtitle
                                };
                                add_token(&mut tokens, p1.0, p2.0 + 1, format);
                                current = if characters.len() - p2.0 >= run {
                                    p2.0 + run
                                } else {
                                    characters.len()
                                };
                                used = p2.1;
                                proof {
                                    let t = Token {
                                        start: p1.0,
                                        length: (p2.0 - p1.0) as usize,
                                        format,
                                    };
                                    assert(tokens@ == pre.push(t));
                                    assert(tok_from(s, i0, b0, u0, m) == emit(
                                        t@,
                                        tok_from(s, current as int, is_bullet, used as int, m),
                                    ));
                                    lemma_with_prefix_push(
                                        pre,
                                        t,
                                        tok_from(s, current as int, is_bullet, used as int, m),
                                    );
                                }
                            } else {
                                current = p2.0 + 1;
                                used = p2.1;
                            }
                        },
                    }
                },
            }
        } else if c == '\\' {
            proof {
                assert(s[i0] != '\0');
                assert(i0 < s.len() - 1);
            }
            let c2 = characters[current + 1];
            if c2 == 'n' {
                add_new_line(&mut tokens, current + 1);
                current = current + 2;
                proof {
                    let t = Token { start: i0 as usize, length: 2, format: FormatType::NewLine };
                    assert(tokens@ == pre.push(t));
                    assert(tok_from(s, i0, b0, u0, m) == emit(
                        t@,
                        tok_from(s, current as int, is_bullet, used as int, m),
                    ));
                    lemma_with_prefix_push(
                        pre,
                        t,
                        tok_from(s, current as int, is_bullet, used as int, m),
                    );
                }
            } else if c2 == '"' {
                match seek_char(characters, current + 2, '\\', used, max_steps) {
                    None => {
                        return Err(
                            ParseError::MalformedMarkup {
                                offset: current,
                                construct: Construct::Quote,
                            },
                        );
                    },
                    Some(p) => {
                        add_token(&mut tokens, current + 2, p.0 + 1, FormatType::InlineQuote);
                        let ghost t = Token {
                            start: (i0 + 2) as usize,
                            length: (p.0 - (i0 + 2)) as usize,
                            format: FormatType::InlineQuote,
                        };
                        current = if characters.len() - p.0 >= 2 {
                            p.0 + 2
                        } else {
                            characters.len()
                        };
                        used = p.1;
                        proof {
                            assert(tokens@ == pre.push(t));
                            assert(tok_from(s, i0, b0, u0, m) == emit(
                                t@,
                                tok_from(s, current as int, is_bullet, used as int, m),
                            ));
                            lemma_with_prefix_push(
                                pre,
                                t,
                                tok_from(s, current as int, is_bullet, used as int, m),
                            );
                        }
                    },
                }
            } else {
                current = current + 2;
            }
        } else if c == '*' {
            is_bullet = true;
            current = current + 1;
        } else {
            proof {
                assert(!is_trigger_char(s[i0]));
                lemma_word_end(s, i0);
            }
            let j = word_scan(characters, current);
            tokens.push(Token { start: current, length: j - current, format: FormatType::PlainWord });
            let ghost t = Token {
                start: i0 as usize,
                length: (word_end(s, i0) - i0) as usize,
                format: FormatType::PlainWord,
            };
            if j == characters.len() || characters[j] == '\0' {
                proof {
                    assert(tokens@ == pre.push(t));
                    assert(tok_from(s, i0, b0, u0, m) == Ok::<Seq<TokenModel>, ParseErrorModel>(
                        seq![t@],
                    ));
                    lemma_view_push(pre, t);
                }
                return Ok(tokens);
            }
            current = j;
            proof {
                assert(tokens@ == pre.push(t));
                assert(tok_from(s, i0, b0, u0, m) == emit(
                    t@,
                    tok_from(s, current as int, is_bullet, used as int, m),
                ));
                lemma_with_prefix_push(
                    pre,
                    t,
                    tok_from(s, current as int, is_bullet, used as int, m),
                );
            }
        }
    }
    proof {
        assert(tok_from(s, current as int, is_bullet, used as int, m) == Ok::<
            Seq<TokenModel>,
            ParseErrorModel,
        >(seq![]));
        assert(tokens_view(tokens@) + Seq::<TokenModel>::empty() =~= tokens_view(tokens@));
    }
    Ok(tokens)
}

/// Tokenize a sentinel-terminated buffer under the default scan-step
/// ceiling, as [`parse_text_with_limit`] does.
pub fn parse_text(characters: &Vec<char>) -> (r: Result<Vec<Token>, ParseError>)
    requires
        wf_buffer(characters@),
    ensures
        match r {
            Ok(tokens) => tokenize(characters@) == Ok::<Seq<TokenModel>, ParseErrorModel>(
                tokens_view(tokens@),
            ),
            Err(e) => tokenize(characters@) == Err::<Seq<TokenModel>, ParseErrorModel>(e@),
        },
{
    parse_text_with_limit(characters, MAX_SCAN_STEPS)
}

} // verus!
