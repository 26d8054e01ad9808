//! The preprocessor.
//!
//! Raw markup, as delivered by a fetch collaborator, is reduced to a form
//! the tokenizer can scan without unbounded recursive structure: citation
//! spans (`<ref>...</ref>`) are stripped first, then optionally a trailing
//! references section, then doubly-braced template and infobox spans via a
//! nesting-depth counter.  Finally the document body is located after the
//! first quotation mark (an artifact of upstream JSON-string extraction,
//! falling back to the whole text when none is found), its trailing
//! character is dropped (another upstream artifact), and the sentinel is
//! appended.

use vstd::prelude::*;

use crate::render::append_range;
use crate::scan::{find_char_within, find_sub, scan_char_within, scan_sub};
use crate::strconv::{chars_to_string, str_to_chars};
use crate::tokenizer::wf_buffer;

verus! {

/// The opening citation tag `<ref>`.
pub open spec fn ref_open() -> Seq<char> {
    seq!['<', 'r', 'e', 'f', '>']
}

/// The closing citation tag `</ref>`.
pub open spec fn ref_close() -> Seq<char> {
    seq!['<', '/', 'r', 'e', 'f', '>']
}

/// The heading that opens a trailing references section.
pub open spec fn references_heading() -> Seq<char> {
    seq!['=', '=', ' ', 'R', 'e', 'f', 'e', 'r', 'e', 'n', 'c', 'e', 's', ' ', '=', '=']
}

/// The suffix of `s` from `lo` with every complete `<ref>...</ref>` span
/// removed, non-greedily: each opening tag is closed by the nearest closing
/// tag after it.  An opening tag that is never closed passes through
/// unchanged, as does everything after it.
pub open spec fn strip_refs_from(s: Seq<char>, lo: int) -> Seq<char>
    decreases s.len() - lo,
{
    if !(0 <= lo <= s.len()) {
        Seq::empty()
    } else {
        match find_sub(s, lo, ref_open()) {
            None => s.subrange(lo, s.len() as int),
            Some(i) => match find_sub(s, i + 5, ref_close()) {
                None => s.subrange(lo, s.len() as int),
                Some(j) => if lo <= i && lo < j + 6 <= s.len() {
                    s.subrange(lo, i) + strip_refs_from(s, j + 6)
                } else {
                    s.subrange(lo, s.len() as int)
                },
            },
        }
    }
}

/// [`strip_refs_from`] over the whole text.
pub open spec fn strip_refs_spec(s: Seq<char>) -> Seq<char> {
    strip_refs_from(s, 0)
}

/// Everything from the first `== References ==` heading on is dropped; a
/// text without the heading is kept whole.
pub open spec fn cut_references_spec(s: Seq<char>) -> Seq<char> {
    match find_sub(s, 0, references_heading()) {
        None => s,
        Some(i) => s.subrange(0, i),
    }
}

/// The text with every doubly-braced span removed: `{{` and `}}` pairs
/// adjust a nesting depth counter and are never emitted, characters at
/// depth zero pass through, and characters inside any open pair are
/// discarded.  A `}}` with no pair open is discarded without effect.
pub open spec fn strip_braces_from(s: Seq<char>, i: int, depth: int) -> Seq<char>
    decreases s.len() - i,
{
    if i < 0 || i >= s.len() {
        Seq::empty()
    } else if s[i] == '{' && i + 1 < s.len() && s[i + 1] == '{' {
        strip_braces_from(s, i + 2, depth + 1)
    } else if s[i] == '}' && i + 1 < s.len() && s[i + 1] == '}' {
        strip_braces_from(
            s,
            i + 2,
            if depth > 0 {
                depth - 1
            } else {
                0
            },
        )
    } else if depth == 0 {
        seq![s[i]] + strip_braces_from(s, i + 1, depth)
    } else {
        strip_braces_from(s, i + 1, depth)
    }
}

/// [`strip_braces_from`] over the whole text, starting outside any pair.
pub open spec fn strip_braces_spec(s: Seq<char>) -> Seq<char> {
    strip_braces_from(s, 0, 0)
}

/// The document body: everything after the first quotation mark, or the
/// whole text when no quotation mark occurs.
pub open spec fn locate_body_spec(s: Seq<char>) -> Seq<char> {
    match find_char_within(s, 0, s.len() as int, '"') {
        None => s,
        Some(i) => s.subrange(i + 1, s.len() as int),
    }
}

/// The body with its trailing character dropped and the sentinel appended.
pub open spec fn seal_buffer_spec(s: Seq<char>) -> Seq<char> {
    if s.len() > 0 {
        s.drop_last().push('\0')
    } else {
        seq!['\0']
    }
}

/// The preprocessor, stage by stage: citation spans out, optionally the
/// trailing references section out, template braces out, then the body
/// located and sealed with the sentinel.
pub open spec fn preprocess_spec(s: Seq<char>, strip_references_section: bool) -> Seq<char> {
    let unref = strip_refs_spec(s);
    let cut = if strip_references_section {
        cut_references_spec(unref)
    } else {
        unref
    };
    seal_buffer_spec(locate_body_spec(strip_braces_spec(cut)))
}

/// The sealed buffer always has the shape the tokenizer requires.
pub proof fn lemma_sealed_wf(s: Seq<char>)
    ensures
        wf_buffer(seal_buffer_spec(s)),
{
}

/// Executable form of [`strip_refs_spec`].
pub fn strip_ref_spans(chars: &Vec<char>) -> (r: Vec<char>)
    ensures
        r@ == strip_refs_spec(chars@),
{
    let ghost s = chars@;
    let open_tag: Vec<char> = vec!['<', 'r', 'e', 'f', '>'];
    let close_tag: Vec<char> = vec!['<', '/', 'r', 'e', 'f', '>'];
    proof {
        assert(open_tag@ =~= ref_open());
        assert(close_tag@ =~= ref_close());
    }
    let mut out: Vec<char> = Vec::new();
    let mut p: usize = 0;
    loop
        invariant_except_break
            p <= chars.len(),
            s == chars@,
            open_tag@ == ref_open(),
            close_tag@ == ref_close(),
            strip_refs_spec(s) == out@ + strip_refs_from(s, p as int),
        ensures
            out@ == strip_refs_spec(s),
        decreases chars@.len() - p,
    {
        match scan_sub(chars, p, &open_tag) {
            None => {
                append_range(&mut out, chars, p, chars.len());
                proof {
                    assert(strip_refs_from(s, p as int) == s.subrange(p as int, s.len() as int));
                    assert(out@ =~= strip_refs_spec(s));
                }
                break ;
            },
            Some(i) => {
                match scan_sub(chars, i + 5, &close_tag) {
                    None => {
                        append_range(&mut out, chars, p, chars.len());
                        proof {
                            assert(strip_refs_from(s, p as int) == s.subrange(
                                p as int,
                                s.len() as int,
                            ));
                            assert(out@ =~= strip_refs_spec(s));
                        }
                        break ;
                    },
                    Some(j) => {
                        let ghost out_pre = out@;
                        append_range(&mut out, chars, p, i);
                        proof {
                            assert(strip_refs_from(s, p as int) == s.subrange(p as int, i as int)
                                + strip_refs_from(s, j + 6));
                            assert(out_pre + s.subrange(p as int, i as int) + strip_refs_from(
                                s,
                                j + 6,
                            ) =~= out_pre + strip_refs_from(s, p as int));
                        }
                        p = j + 6;
                    },
                }
            },
        }
    }
    out
}

/// Executable form of [`cut_references_spec`].
pub fn cut_references_section(chars: &Vec<char>) -> (r: Vec<char>)
    ensures
        r@ == cut_references_spec(chars@),
{
    let heading: Vec<char> = vec![
        '=',
        '=',
        ' ',
        'R',
        'e',
        'f',
        'e',
        'r',
        'e',
        'n',
        'c',
        'e',
        's',
        ' ',
        '=',
        '=',
    ];
    proof {
        assert(heading@ =~= references_heading());
    }
    let mut out: Vec<char> = Vec::new();
    match scan_sub(chars, 0, &heading) {
        None => {
            append_range(&mut out, chars, 0, chars.len());
            proof {
                assert(out@ =~= chars@);
            }
        },
        Some(i) => {
            append_range(&mut out, chars, 0, i);
        },
    }
    out
}

/// Remove every doubly-braced span from a character buffer: the executable
/// form of [`strip_braces_spec`].
pub fn remove_braces(chars: &Vec<char>) -> (r: Vec<char>)
    ensures
        r@ == strip_braces_spec(chars@),
{
    let ghost s = chars@;
    let mut out: Vec<char> = Vec::new();
    let mut depth: usize = 0;
    let mut i: usize = 0;
    while i < chars.len()
        invariant
            i <= chars.len(),
            depth <= i,
            s == chars@,
            strip_braces_spec(s) == out@ + strip_braces_from(s, i as int, depth as int),
        decreases chars@.len() - i,
    {
        let c = chars[i];
        if c == '{' && i + 1 < chars.len() && chars[i + 1] == '{' {
            depth = depth + 1;
            i = i + 2;
        } else if c == '}' && i + 1 < chars.len() && chars[i + 1] == '}' {
            if depth > 0 {
                depth = depth - 1;
            }
            i = i + 2;
        } else {
            if depth == 0 {
                let ghost out_pre = out@;
                out.push(c);
                proof {
                    assert(out_pre + (seq![s[i as int]] + strip_braces_from(s, i + 1, depth as int))
                        =~= out@ + strip_braces_from(s, i + 1, depth as int));
                }
            }
            i = i + 1;
        }
    }
    proof {
        assert(out@ + Seq::<char>::empty() =~= out@);
    }
    out
}

/// Remove every doubly-braced span from a string: [`remove_braces`] at the
/// string level.
pub fn remove_nested_braces(input: &str) -> (r: String)
    ensures
        r@ == strip_braces_spec(input@),
{
    let chars = str_to_chars(input);
    let stripped = remove_braces(&chars);
    chars_to_string(&stripped)
}

/// Executable form of [`locate_body_spec`] followed by
/// [`seal_buffer_spec`]: locate the body and seal it with the sentinel.
pub fn seal_body(chars: &Vec<char>) -> (r: Vec<char>)
    ensures
        r@ == seal_buffer_spec(locate_body_spec(chars@)),
        wf_buffer(r@),
{
    let mut body: Vec<char> = Vec::new();
    match scan_char_within(chars, 0, chars.len(), '"') {
        None => {
            append_range(&mut body, chars, 0, chars.len());
            proof {
                assert(body@ =~= locate_body_spec(chars@));
            }
        },
        Some(i) => {
            append_range(&mut body, chars, i + 1, chars.len());
        },
    }
    if body.len() > 0 {
        let _ = body.pop();
    }
    body.push('\0');
    proof {
        let located = locate_body_spec(chars@);
        if located.len() > 0 {
            assert(body@ =~= located.drop_last().push('\0'));
        } else {
            assert(body@ =~= seq!['\0']);
        }
    }
    body
}

/// The whole preprocessor over a character buffer: the executable form of
/// [`preprocess_spec`], yielding a buffer the tokenizer accepts.
pub fn preprocess(markup: &Vec<char>, strip_references_section: bool) -> (r: Vec<char>)
    ensures
        r@ == preprocess_spec(markup@, strip_references_section),
        wf_buffer(r@),
{
    let unref = strip_ref_spans(markup);
    let cut = if strip_references_section {
        cut_references_section(&unref)
    } else {
        unref
    };
    let unbraced = remove_braces(&cut);
    seal_body(&unbraced)
}

} // verus!
