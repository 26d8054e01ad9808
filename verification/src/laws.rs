//! Global properties of the pipeline, stated and proved over the spec
//! functions that the components' own contracts use.

use vstd::prelude::*;

use crate::errors::{malformed, Construct, ParseErrorModel};
use crate::pipeline::convert_spec;
use crate::preprocess::{preprocess_spec, strip_braces_from, strip_braces_spec};
use crate::render::{render_one, render_tokens, trim_spec};
use crate::scan::{is_trigger_char, lemma_word_end, word_end};
use crate::token::{FormatType, TokenModel};
use crate::tokenizer::{brace_scan, tok_from, tokenize_with, wf_buffer};

verus! {

/// Every character is either a space or free of the tokenizer's trigger
/// characters `{ } [ ] ' = \ < *` and the sentinel: text in which the
/// scanner can only ever emit words and spaces.
pub open spec fn markup_free(s: Seq<char>) -> bool {
    forall|x: int| 0 <= x < s.len() ==> (s[x] == ' ' || !is_trigger_char(#[trigger] s[x]))
}

/// Splitting a token off the front of a stream splits its rendering.
proof fn lemma_render_cons(t: TokenModel, ts: Seq<TokenModel>, s: Seq<char>)
    ensures
        render_tokens(seq![t] + ts, s) == render_one(t, s) + render_tokens(ts, s),
    decreases ts.len(),
{
    if ts.len() == 0 {
        assert(seq![t] + ts =~= seq![t]);
        assert((seq![t]).last() == t);
        assert((seq![t]).drop_last() =~= Seq::<TokenModel>::empty());
        assert(render_tokens(seq![t], s) == render_tokens(Seq::<TokenModel>::empty(), s)
            + render_one(t, s));
        assert(Seq::<char>::empty() + render_one(t, s) =~= render_one(t, s) + Seq::<
            char,
        >::empty());
    } else {
        assert((seq![t] + ts).drop_last() =~= seq![t] + ts.drop_last());
        assert((seq![t] + ts).last() == ts.last());
        lemma_render_cons(t, ts.drop_last(), s);
        assert((render_one(t, s) + render_tokens(ts.drop_last(), s)) + render_one(ts.last(), s)
            =~= render_one(t, s) + (render_tokens(ts.drop_last(), s) + render_one(ts.last(), s)));
    }
}

/// On a buffer whose body is words and spaces only, the scan from any
/// position succeeds, and rendering its tokens reproduces the remaining
/// body verbatim.
proof fn lemma_words_and_spaces_from(s: Seq<char>, i: int, bullet: bool, used: int, max: int)
    requires
        wf_buffer(s),
        markup_free(s.subrange(0, s.len() - 1)),
        0 <= i <= s.len() - 1,
    ensures
        tok_from(s, i, bullet, used, max) is Ok,
        tok_from(s, i, bullet, used, max) matches Ok(ts) ==> render_tokens(ts, s) == s.subrange(
            i,
            s.len() - 1,
        ),
    decreases s.len() - i,
{
    let len = s.len() as int;
    let body = s.subrange(0, len - 1);
    if i == len - 1 {
        assert(s[i] == '\0');
        assert(render_tokens(Seq::<TokenModel>::empty(), s) =~= s.subrange(i, len - 1));
    } else {
        let c = s[i];
        assert(body[i] == c);
        if c == ' ' {
            lemma_words_and_spaces_from(s, i + 1, bullet, used, max);
            let t = TokenModel { start: i, length: 1, kind: FormatType::Space };
            match tok_from(s, i + 1, bullet, used, max) {
                Ok(rest) => {
                    lemma_render_cons(t, rest, s);
                    assert(render_one(t, s) =~= seq![' ']);
                    assert(seq![' '] + s.subrange(i + 1, len - 1) =~= s.subrange(i, len - 1));
                },
                Err(_) => {},
            }
        } else {
            assert(!is_trigger_char(c));
            lemma_word_end(s, i);
            let j = word_end(s, i);
            assert(j <= len - 1);
            assert(i < j);
            let t = TokenModel { start: i, length: j - i, kind: FormatType::PlainWord };
            assert(render_one(t, s) == s.subrange(i, j));
            if j == len - 1 {
                assert(s[j] == '\0');
                assert(tok_from(s, i, bullet, used, max) == Ok::<
                    Seq<TokenModel>,
                    crate::errors::ParseErrorModel,
                >(seq![t]));
                assert((seq![t]).last() == t);
                assert((seq![t]).drop_last() =~= Seq::<TokenModel>::empty());
                assert(render_tokens(seq![t], s) == render_tokens(
                    Seq::<TokenModel>::empty(),
                    s,
                ) + render_one(t, s));
                assert(Seq::<char>::empty() + s.subrange(i, j) =~= s.subrange(i, len - 1));
            } else {
                assert(body[j] == s[j]);
                assert(s[j] == ' ' || !is_trigger_char(s[j]));
                assert(s[j] != '\0');
                lemma_words_and_spaces_from(s, j, bullet, used, max);
                match tok_from(s, j, bullet, used, max) {
                    Ok(rest) => {
                        lemma_render_cons(t, rest, s);
                        assert(s.subrange(i, j) + s.subrange(j, len - 1) =~= s.subrange(
                            i,
                            len - 1,
                        ));
                    },
                    Err(_) => {},
                }
            }
        }
    }
}

/// A body free of the trigger characters and of spaces is scanned as
/// exactly one `PlainWord` spanning the whole body, under any step ceiling.
pub proof fn lemma_plain_body_single_token(s: Seq<char>, max: int)
    requires
        wf_buffer(s),
        s.len() >= 2,
        forall|x: int| 0 <= x < s.len() - 1 ==> !is_trigger_char(#[trigger] s[x]),
    ensures
        tokenize_with(s, max) == Ok::<Seq<TokenModel>, crate::errors::ParseErrorModel>(
            seq![
                (TokenModel {
                    start: 0,
                    length: s.len() - 1,
                    kind: FormatType::PlainWord,
                }),
            ],
        ),
{
    let len = s.len() as int;
    lemma_word_end(s, 0);
    let j = word_end(s, 0);
    assert(j <= len - 1) by {
        if j == len {
            assert(!is_trigger_char(s[len - 1]));
        }
    }
    assert(j == len - 1) by {
        if j < len - 1 {
            assert(is_trigger_char(s[j]));
        }
    }
    assert(s[j] == '\0');
}

/// On a buffer whose body is words and spaces, tokenization succeeds and
/// rendering reproduces the body, trimmed of surrounding whitespace.
pub proof fn lemma_markup_free_round_trip(s: Seq<char>, max: int)
    requires
        wf_buffer(s),
        markup_free(s.subrange(0, s.len() - 1)),
    ensures
        tokenize_with(s, max) is Ok,
        tokenize_with(s, max) matches Ok(ts) ==> trim_spec(render_tokens(ts, s)) == trim_spec(
            s.subrange(0, s.len() - 1),
        ),
{
    lemma_words_and_spaces_from(s, 0, false, 0, max);
}

/// Rendering is idempotent: tokenizing already-rendered plaintext (free of
/// markup sigils, already trimmed) and rendering the resulting stream
/// returns the same text unchanged, under any step ceiling.
pub proof fn lemma_render_idempotent(text: Seq<char>, max: int)
    requires
        markup_free(text),
        trim_spec(text) == text,
    ensures
        tokenize_with(text.push('\0'), max) is Ok,
        tokenize_with(text.push('\0'), max) matches Ok(ts) ==> trim_spec(
            render_tokens(ts, text.push('\0')),
        ) == text,
{
    let buf = text.push('\0');
    assert(buf[buf.len() - 1] == '\0');
    assert(buf.subrange(0, buf.len() - 1) =~= text);
    lemma_markup_free_round_trip(buf, max);
}

/// [`lemma_render_idempotent`] applied to the pipeline's own results: a
/// conversion result that came out free of markup sigils is already
/// trimmed, so tokenizing and rendering it again returns it unchanged.
pub proof fn lemma_rendered_output_round_trips(
    markup: Seq<char>,
    strip: bool,
    out: Seq<char>,
    max: int,
)
    requires
        convert_spec(markup, strip) == Ok::<Seq<char>, ParseErrorModel>(out),
        markup_free(out),
    ensures
        tokenize_with(out.push('\0'), max) is Ok,
        tokenize_with(out.push('\0'), max) matches Ok(ts) ==> trim_spec(
            render_tokens(ts, out.push('\0')),
        ) == out,
{
    let buffer = preprocess_spec(markup, strip);
    match crate::tokenizer::tokenize(buffer) {
        Ok(ts) => {
            assert(out == trim_spec(render_tokens(ts, buffer)));
            crate::render::lemma_trim_idempotent(render_tokens(ts, buffer));
        },
        Err(_) => {
            assert(false);
        },
    }
    lemma_render_idempotent(out, max);
}

/// Equal suffixes stay equal when both cursors advance by the same amount.
proof fn lemma_tail_eq(s1: Seq<char>, i1: int, s2: Seq<char>, i2: int, d: int)
    requires
        0 <= i1,
        0 <= i2,
        0 <= d,
        i1 + d <= s1.len(),
        i2 + d <= s2.len(),
        s1.subrange(i1, s1.len() as int) == s2.subrange(i2, s2.len() as int),
    ensures
        s1.subrange(i1 + d, s1.len() as int) == s2.subrange(i2 + d, s2.len() as int),
{
    let t1 = s1.subrange(i1, s1.len() as int);
    let t2 = s2.subrange(i2, s2.len() as int);
    let u1 = s1.subrange(i1 + d, s1.len() as int);
    let u2 = s2.subrange(i2 + d, s2.len() as int);
    assert(t1.len() == s1.len() - i1);
    assert(t2.len() == s2.len() - i2);
    assert(u1.len() == u2.len());
    assert forall|k: int| 0 <= k < u1.len() implies #[trigger] u1[k] == u2[k] by {
        assert(u1[k] == s1[i1 + d + k]);
        assert(u2[k] == s2[i2 + d + k]);
        assert(t1[d + k] == s1[i1 + d + k]);
        assert(t2[d + k] == s2[i2 + d + k]);
    }
    assert(u1 =~= u2);
}

/// [`strip_braces_from`] reads only the suffix of the text from its cursor:
/// equal suffixes under equal depths strip equally.
proof fn lemma_strip_shift(s1: Seq<char>, i1: int, s2: Seq<char>, i2: int, depth: int)
    requires
        0 <= i1 <= s1.len(),
        0 <= i2 <= s2.len(),
        s1.subrange(i1, s1.len() as int) == s2.subrange(i2, s2.len() as int),
    ensures
        strip_braces_from(s1, i1, depth) == strip_braces_from(s2, i2, depth),
    decreases s1.len() - i1,
{
    let t1 = s1.subrange(i1, s1.len() as int);
    let t2 = s2.subrange(i2, s2.len() as int);
    assert(t1.len() == s1.len() - i1);
    assert(t2.len() == s2.len() - i2);
    if i1 >= s1.len() {
        assert(i2 >= s2.len());
    } else {
        assert(t1[0] == s1[i1]);
        assert(t2[0] == s2[i2]);
        assert(s1[i1] == s2[i2]);
        if i1 + 1 < s1.len() {
            assert(t1[1] == s1[i1 + 1]);
            assert(t2[1] == s2[i2 + 1]);
        }
        assert(i1 + 1 < s1.len() <==> i2 + 1 < s2.len());
        if s1[i1] == '{' && i1 + 1 < s1.len() && s1[i1 + 1] == '{' {
            lemma_tail_eq(s1, i1, s2, i2, 2);
            lemma_strip_shift(s1, i1 + 2, s2, i2 + 2, depth + 1);
        } else if s1[i1] == '}' && i1 + 1 < s1.len() && s1[i1 + 1] == '}' {
            lemma_tail_eq(s1, i1, s2, i2, 2);
            lemma_strip_shift(
                s1,
                i1 + 2,
                s2,
                i2 + 2,
                if depth > 0 {
                    depth - 1
                } else {
                    0
                },
            );
        } else {
            lemma_tail_eq(s1, i1, s2, i2, 1);
            lemma_strip_shift(s1, i1 + 1, s2, i2 + 1, depth);
        }
    }
}

/// Inside an open pair, a run of brace-free characters up to a closing
/// `}}` is consumed without output.
proof fn lemma_strip_middle(x: Seq<char>, p: int, q: int, d: int)
    requires
        0 <= p <= q,
        q + 2 <= x.len(),
        d >= 1,
        forall|k: int| p <= k < q ==> (#[trigger] x[k] != '{' && x[k] != '}'),
        x[q] == '}',
        x[q + 1] == '}',
    ensures
        strip_braces_from(x, p, d) == strip_braces_from(x, q + 2, d - 1),
    decreases q - p,
{
    if p == q {
    } else {
        lemma_strip_middle(x, p + 1, q, d);
    }
}

/// The two-character template delimiters around an interior.
pub open spec fn template_span(m: Seq<char>) -> Seq<char> {
    seq!['{', '{'] + m + seq!['}', '}']
}

/// Scanning with a complete braceless template spliced in at or after the
/// cursor's remaining prefix strips the same text as scanning without it.
proof fn lemma_strip_with_template(a: Seq<char>, m: Seq<char>, b: Seq<char>, i: int, d: int)
    requires
        0 <= i <= a.len(),
        d >= 0,
        a.len() > 0 ==> (a.last() != '{' && a.last() != '}'),
        forall|x: int| 0 <= x < m.len() ==> (#[trigger] m[x] != '{' && m[x] != '}'),
    ensures
        strip_braces_from(a + template_span(m) + b, i, d) == strip_braces_from(a + b, i, d),
    decreases a.len() - i,
{
    let x1 = a + template_span(m) + b;
    let x2 = a + b;
    let alen = a.len() as int;
    let mlen = m.len() as int;
    if i == alen {
        assert(x1[alen] == '{');
        assert(x1[alen + 1] == '{');
        assert(strip_braces_from(x1, alen, d) == strip_braces_from(x1, alen + 2, d + 1));
        assert forall|k: int| alen + 2 <= k < alen + 2 + mlen implies (#[trigger] x1[k] != '{'
            && x1[k] != '}') by {
            assert(x1[k] == m[k - alen - 2]);
        }
        assert(x1[alen + 2 + mlen] == '}');
        assert(x1[alen + 2 + mlen + 1] == '}');
        lemma_strip_middle(x1, alen + 2, alen + 2 + mlen, d + 1);
        assert(x1.subrange(alen + 4 + mlen, x1.len() as int) =~= b);
        assert(x2.subrange(alen, x2.len() as int) =~= b);
        assert(x1.subrange(alen + 4 + mlen, x1.len() as int) == x2.subrange(
            alen,
            x2.len() as int,
        ));
        lemma_strip_shift(x1, alen + 4 + mlen, x2, alen, d);
    } else {
        let c = a[i];
        assert(x1[i] == c);
        assert(x2[i] == c);
        if c == '{' && i + 1 < x1.len() && x1[i + 1] == '{' {
            assert(i + 1 < alen) by {
                if i + 1 == alen {
                    assert(a.last() == '{');
                }
            }
            assert(x2[i + 1] == '{');
            lemma_strip_with_template(a, m, b, i + 2, d + 1);
        } else if c == '}' && i + 1 < x1.len() && x1[i + 1] == '}' {
            assert(i + 1 < alen) by {
                if i + 1 == alen {
                    assert(a.last() == '}');
                }
            }
            assert(x2[i + 1] == '}');
            lemma_strip_with_template(
                a,
                m,
                b,
                i + 2,
                if d > 0 {
                    d - 1
                } else {
                    0
                },
            );
        } else {
            assert(i + 1 < alen ==> x2[i + 1] == x1[i + 1]);
            if i + 1 == alen {
                assert(c != '{' && c != '}');
            }
            lemma_strip_with_template(a, m, b, i + 1, d);
        }
    }
}

/// A complete `{{ ... }}` template span with a braceless interior
/// contributes nothing: wherever it stands, the preprocessor's brace
/// removal yields exactly what it yields with the span absent.  The text
/// before the span must not end in the middle of a brace pair.
pub proof fn lemma_template_contributes_nothing(a: Seq<char>, m: Seq<char>, b: Seq<char>)
    requires
        a.len() > 0 ==> (a.last() != '{' && a.last() != '}'),
        forall|x: int| 0 <= x < m.len() ==> (#[trigger] m[x] != '{' && m[x] != '}'),
    ensures
        strip_braces_spec(a + template_span(m) + b) == strip_braces_spec(a + b),
{
    lemma_strip_with_template(a, m, b, 0, 0);
}

/// With no `}` anywhere at or after an opening `{`, and no further `{`
/// beyond the position just after it, [`brace_scan`] reports the brace
/// region as malformed from any scan position inside it, whatever the
/// budget already spent.
proof fn lemma_brace_scan_unterminated(s: Seq<char>, p: int, j: int, d: int, u: int, max: int)
    requires
        p + 1 <= j,
        forall|x: int| j <= x < s.len() ==> #[trigger] s[x] != '}',
        forall|x: int| p + 2 <= x < s.len() ==> #[trigger] s[x] != '{',
        j == p + 1 ==> d < crate::tokenizer::MAX_BRACE_DEPTH as int,
    ensures
        brace_scan(s, p, j, d, u, max) == Err::<(int, int), crate::errors::ParseErrorModel>(
            malformed(p, Construct::Braces),
        ),
    decreases s.len() - j,
{
    if j >= s.len() || u >= max {
    } else if s[j] == '{' {
        assert(j == p + 1);
        if d >= crate::tokenizer::MAX_BRACE_DEPTH as int {
            assert(false);
        } else {
            lemma_brace_scan_unterminated(s, p, j + 1, d + 1, u + 1, max);
        }
    } else {
        lemma_brace_scan_unterminated(s, p, j + 1, d, u + 1, max);
    }
}

/// A buffer holding an unterminated `{{` — no closing brace anywhere after
/// it, no further opening brace, and only words and spaces before it — is
/// reported as malformed markup at the construct's offset, under any step
/// ceiling.
pub proof fn lemma_unterminated_braces_reported(
    s: Seq<char>,
    p: int,
    i: int,
    bullet: bool,
    used: int,
    max: int,
)
    requires
        wf_buffer(s),
        0 <= i <= p < s.len(),
        s[p] == '{',
        forall|x: int| p <= x < s.len() ==> #[trigger] s[x] != '}',
        forall|x: int| p + 2 <= x < s.len() ==> #[trigger] s[x] != '{',
        forall|x: int| i <= x < p ==> (s[x] == ' ' || !is_trigger_char(#[trigger] s[x])),
    ensures
        tok_from(s, i, bullet, used, max) == Err::<
            Seq<TokenModel>,
            crate::errors::ParseErrorModel,
        >(malformed(p, Construct::Braces)),
    decreases p - i,
{
    let len = s.len() as int;
    if i == p {
        lemma_brace_scan_unterminated(s, p, p + 1, 1, used, max);
    } else {
        let c = s[i];
        assert(s[i] == ' ' || !is_trigger_char(s[i]));
        if c == ' ' {
            lemma_unterminated_braces_reported(s, p, i + 1, bullet, used, max);
        } else {
            assert(!is_trigger_char(c));
            lemma_word_end(s, i);
            let j = word_end(s, i);
            assert(j <= p) by {
                if j > p {
                    assert(!is_trigger_char(s[p]));
                }
            }
            assert(i < j);
            assert(s[j] != '\0') by {
                if j < p {
                    assert(s[j] == ' ' || !is_trigger_char(s[j]));
                    assert(is_trigger_char(s[j]));
                }
            }
            assert(j < len);
            lemma_unterminated_braces_reported(s, p, j, bullet, used, max);
        }
    }
}

/// [`lemma_unterminated_braces_reported`] at the whole-buffer level: such a
/// buffer makes tokenization fail with the malformed-markup error.
pub proof fn lemma_unterminated_braces_fail_tokenize(s: Seq<char>, p: int, max: int)
    requires
        wf_buffer(s),
        0 <= p < s.len(),
        s[p] == '{',
        forall|x: int| p <= x < s.len() ==> #[trigger] s[x] != '}',
        forall|x: int| p + 2 <= x < s.len() ==> #[trigger] s[x] != '{',
        forall|x: int| 0 <= x < p ==> (s[x] == ' ' || !is_trigger_char(#[trigger] s[x])),
    ensures
        tokenize_with(s, max) == Err::<Seq<TokenModel>, crate::errors::ParseErrorModel>(
            malformed(p, Construct::Braces),
        ),
{
    lemma_unterminated_braces_reported(s, p, 0, false, 0, max);
}

} // verus!

