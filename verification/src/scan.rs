//! Character-level scanning primitives.
//!
//! Every forward scan the pipeline performs is specified here twice: as a
//! recursive spec function that walks the character sequence one position at
//! a time, and as an executable loop proved equal to it.  The tokenizer's
//! scans carry a step budget (`used`/`max`) so that a scan for a missing
//! terminator gives up deterministically; the preprocessor's and renderer's
//! scans are bounded by the buffer alone.

use vstd::prelude::*;

verus! {

/// The characters on which the tokenizer's greedy word scan stops: every
/// dispatch trigger plus the buffer sentinel.
pub open spec fn is_trigger_char(c: char) -> bool {
    ||| c == '<'
    ||| c == '='
    ||| c == '{'
    ||| c == '['
    ||| c == '\\'
    ||| c == '*'
    ||| c == ' '
    ||| c == '\''
    ||| c == '\0'
}

/// Runtime test for [`is_trigger_char`].
pub fn trigger_char(c: char) -> (r: bool)
    ensures
        r == is_trigger_char(c),
{
    c == '<' || c == '=' || c == '{' || c == '[' || c == '\\' || c == '*' || c == ' ' || c == '\''
        || c == '\0'
}

/// Budgeted scan for the first `target` at or after `j`, consuming one step
/// per character examined (the terminator included).  Yields the terminator's
/// index and the steps consumed so far, or `None` when the buffer end or the
/// step ceiling is reached first.
pub open spec fn seek(s: Seq<char>, j: int, target: char, used: int, max: int) -> Option<(int, int)>
    decreases s.len() - j,
{
    if j < 0 || j >= s.len() {
        None
    } else if used >= max {
        None
    } else if s[j] == target {
        Some((j, used + 1))
    } else {
        seek(s, j + 1, target, used + 1, max)
    }
}

/// Budgeted scan for the first character at or after `j` that differs from
/// `avoid`; otherwise as [`seek`].
pub open spec fn seek_past(s: Seq<char>, j: int, avoid: char, used: int, max: int) -> Option<
    (int, int),
>
    decreases s.len() - j,
{
    if j < 0 || j >= s.len() {
        None
    } else if used >= max {
        None
    } else if s[j] != avoid {
        Some((j, used + 1))
    } else {
        seek_past(s, j + 1, avoid, used + 1, max)
    }
}

/// Index of the first trigger character at or after `j`, or `s.len()` when
/// none remains.  The greedy word scan is not budgeted: it can cover at most
/// the buffer once.
pub open spec fn word_end(s: Seq<char>, j: int) -> int
    decreases s.len() - j,
{
    if j < 0 || j >= s.len() {
        s.len() as int
    } else if is_trigger_char(s[j]) {
        j
    } else {
        word_end(s, j + 1)
    }
}

/// Everything [`seek`] guarantees about a successful result.
pub proof fn lemma_seek_bounds(s: Seq<char>, j: int, target: char, used: int, max: int)
    ensures
        seek(s, j, target, used, max) matches Some(p) ==> {
            &&& j <= p.0 < s.len()
            &&& s[p.0] == target
            &&& p.1 == used + (p.0 - j) + 1
            &&& used < p.1 <= max
        },
    decreases s.len() - j,
{
    if j < 0 || j >= s.len() || used >= max || s[j] == target {
    } else {
        lemma_seek_bounds(s, j + 1, target, used + 1, max);
    }
}

/// Everything [`seek_past`] guarantees about a successful result.
pub proof fn lemma_seek_past_bounds(s: Seq<char>, j: int, avoid: char, used: int, max: int)
    ensures
        seek_past(s, j, avoid, used, max) matches Some(p) ==> {
            &&& j <= p.0 < s.len()
            &&& s[p.0] != avoid
            &&& p.1 == used + (p.0 - j) + 1
            &&& used < p.1 <= max
            &&& forall|x: int| j <= x < p.0 ==> s[x] == avoid
        },
    decreases s.len() - j,
{
    if j < 0 || j >= s.len() || used >= max || s[j] != avoid {
    } else {
        lemma_seek_past_bounds(s, j + 1, avoid, used + 1, max);
    }
}

/// Everything [`word_end`] guarantees: the scanned span holds no trigger and
/// the stop position, when inside the buffer, holds one.
pub proof fn lemma_word_end(s: Seq<char>, j: int)
    requires
        0 <= j <= s.len(),
    ensures
        j <= word_end(s, j) <= s.len(),
        forall|x: int| j <= x < word_end(s, j) ==> !is_trigger_char(s[x]),
        word_end(s, j) < s.len() ==> is_trigger_char(s[word_end(s, j)]),
    decreases s.len() - j,
{
    if j >= s.len() || is_trigger_char(s[j]) {
    } else {
        lemma_word_end(s, j + 1);
    }
}

/// Executable form of [`seek`].
pub fn seek_char(chars: &Vec<char>, from: usize, target: char, used: usize, max_steps: usize) -> (r:
    Option<(usize, usize)>)
    requires
        used <= max_steps,
    ensures
        match r {
            Some(p) => {
                &&& seek(chars@, from as int, target, used as int, max_steps as int) == Some(
                    (p.0 as int, p.1 as int),
                )
                &&& from <= p.0 < chars@.len()
                &&& chars@[p.0 as int] == target
                &&& used < p.1 <= max_steps
            },
            None => seek(chars@, from as int, target, used as int, max_steps as int) is None,
        },
{
    let mut j: usize = from;
    let mut u: usize = used;
    while j < chars.len()
        invariant
            from <= j,
            used <= u <= max_steps,
            seek(chars@, from as int, target, used as int, max_steps as int) == seek(
                chars@,
                j as int,
                target,
                u as int,
                max_steps as int,
            ),
        decreases chars@.len() - j,
    {
        if u >= max_steps {
            return None;
        }
        if chars[j] == target {
            return Some((j, u + 1));
        }
        j = j + 1;
        u = u + 1;
    }
    None
}

/// Executable form of [`seek_past`].
pub fn seek_past_char(
    chars: &Vec<char>,
    from: usize,
    avoid: char,
    used: usize,
    max_steps: usize,
) -> (r: Option<(usize, usize)>)
    requires
        used <= max_steps,
    ensures
        match r {
            Some(p) => {
                &&& seek_past(chars@, from as int, avoid, used as int, max_steps as int) == Some(
                    (p.0 as int, p.1 as int),
                )
                &&& from <= p.0 < chars@.len()
                &&& chars@[p.0 as int] != avoid
                &&& used < p.1 <= max_steps
            },
            None => seek_past(chars@, from as int, avoid, used as int, max_steps as int) is None,
        },
{
    let mut j: usize = from;
    let mut u: usize = used;
    while j < chars.len()
        invariant
            from <= j,
            used <= u <= max_steps,
            seek_past(chars@, from as int, avoid, used as int, max_steps as int) == seek_past(
                chars@,
                j as int,
                avoid,
                u as int,
                max_steps as int,
            ),
        decreases chars@.len() - j,
    {
        if u >= max_steps {
            return None;
        }
        if chars[j] != avoid {
            return Some((j, u + 1));
        }
        j = j + 1;
        u = u + 1;
    }
    None
}

/// Executable form of [`word_end`].
pub fn word_scan(chars: &Vec<char>, from: usize) -> (r: usize)
    requires
        from <= chars.len(),
    ensures
        r as int == word_end(chars@, from as int),
        from <= r <= chars.len(),
{
    let mut j: usize = from;
    while j < chars.len()
        invariant
            from <= j <= chars.len(),
            word_end(chars@, from as int) == word_end(chars@, j as int),
        decreases chars@.len() - j,
    {
        if trigger_char(chars[j]) {
            return j;
        }
        j = j + 1;
    }
    j
}

/// First index `i` in `[from, hi)` with `s[i] == target`, confined to the
/// half-open window; `None` when the window holds no such character.
pub open spec fn find_char_within(s: Seq<char>, from: int, hi: int, target: char) -> Option<int>
    decreases hi - from,
{
    if from < 0 || from >= hi || from >= s.len() {
        None
    } else if s[from] == target {
        Some(from)
    } else {
        find_char_within(s, from + 1, hi, target)
    }
}

/// Everything [`find_char_within`] guarantees about a successful result.
pub proof fn lemma_find_char_within(s: Seq<char>, from: int, hi: int, target: char)
    requires
        0 <= from,
    ensures
        find_char_within(s, from, hi, target) matches Some(i) ==> {
            &&& from <= i < hi
            &&& i < s.len()
            &&& s[i] == target
            &&& forall|x: int| from <= x < i ==> s[x] != target
        },
        find_char_within(s, from, hi, target) is None ==> forall|x: int|
            from <= x < hi && 0 <= x < s.len() ==> s[x] != target,
    decreases hi - from,
{
    if from < 0 || from >= hi || from >= s.len() || s[from] == target {
    } else {
        lemma_find_char_within(s, from + 1, hi, target);
    }
}

/// Executable form of [`find_char_within`].
pub fn scan_char_within(chars: &Vec<char>, from: usize, hi: usize, target: char) -> (r: Option<
    usize,
>)
    requires
        hi <= chars.len(),
    ensures
        match r {
            Some(i) => {
                &&& find_char_within(chars@, from as int, hi as int, target) == Some(i as int)
                &&& from <= i < hi
            },
            None => find_char_within(chars@, from as int, hi as int, target) is None,
        },
{
    let mut j: usize = from;
    while j < hi
        invariant
            from <= j,
            hi <= chars.len(),
            find_char_within(chars@, from as int, hi as int, target) == find_char_within(
                chars@,
                j as int,
                hi as int,
                target,
            ),
        decreases hi - j,
    {
        if chars[j] == target {
            return Some(j);
        }
        j = j + 1;
    }
    None
}

/// First index `i` in `[from, hi - 1)` at which `target` occurs twice in a
/// row, both occurrences inside the window.
pub open spec fn find_double_within(s: Seq<char>, from: int, hi: int, target: char) -> Option<int>
    decreases hi - from,
{
    if from < 0 || from + 1 >= hi || from + 1 >= s.len() {
        None
    } else if s[from] == target && s[from + 1] == target {
        Some(from)
    } else {
        find_double_within(s, from + 1, hi, target)
    }
}

/// Everything [`find_double_within`] guarantees.
pub proof fn lemma_find_double_within(s: Seq<char>, from: int, hi: int, target: char)
    requires
        0 <= from,
    ensures
        find_double_within(s, from, hi, target) matches Some(i) ==> {
            &&& from <= i
            &&& i + 1 < hi
            &&& i + 1 < s.len()
            &&& s[i] == target
            &&& s[i + 1] == target
            &&& forall|x: int| from <= x < i ==> !(#[trigger] s[x] == target && s[x + 1] == target)
        },
        find_double_within(s, from, hi, target) is None ==> forall|x: int|
            from <= x && x + 1 < hi && x + 1 < s.len() ==> !(#[trigger] s[x] == target && s[x + 1]
                == target),
    decreases hi - from,
{
    if from < 0 || from + 1 >= hi || from + 1 >= s.len() || (s[from] == target && s[from + 1]
        == target) {
    } else {
        lemma_find_double_within(s, from + 1, hi, target);
    }
}

/// Executable form of [`find_double_within`].
pub fn scan_double_within(chars: &Vec<char>, from: usize, hi: usize, target: char) -> (r: Option<
    usize,
>)
    requires
        hi <= chars.len(),
    ensures
        match r {
            Some(i) => {
                &&& find_double_within(chars@, from as int, hi as int, target) == Some(i as int)
                &&& from <= i && i + 1 < hi
            },
            None => find_double_within(chars@, from as int, hi as int, target) is None,
        },
{
    let mut j: usize = from;
    while j < hi
        invariant
            from <= j,
            hi <= chars.len(),
            find_double_within(chars@, from as int, hi as int, target) == find_double_within(
                chars@,
                j as int,
                hi as int,
                target,
            ),
        decreases hi - j,
    {
        if j + 1 >= hi {
            return None;
        }
        if chars[j] == target && chars[j + 1] == target {
            return Some(j);
        }
        j = j + 1;
    }
    None
}

/// The fixed pattern `pat` occurs in `s` starting at index `i`.
pub open spec fn match_at(s: Seq<char>, i: int, pat: Seq<char>) -> bool {
    &&& 0 <= i
    &&& i + pat.len() <= s.len()
    &&& s.subrange(i, i + pat.len() as int) == pat
}

/// First index at or after `from` at which `pat` occurs in `s`.
pub open spec fn find_sub(s: Seq<char>, from: int, pat: Seq<char>) -> Option<int>
    decreases s.len() - from,
{
    if from < 0 || from + pat.len() > s.len() {
        None
    } else if pat.len() == 0 {
        Some(from)
    } else if match_at(s, from, pat) {
        Some(from)
    } else {
        find_sub(s, from + 1, pat)
    }
}

/// Everything [`find_sub`] guarantees.
pub proof fn lemma_find_sub(s: Seq<char>, from: int, pat: Seq<char>)
    requires
        0 <= from,
        pat.len() >= 1,
    ensures
        find_sub(s, from, pat) matches Some(i) ==> {
            &&& from <= i
            &&& i + pat.len() <= s.len()
            &&& match_at(s, i, pat)
            &&& forall|x: int| from <= x < i ==> !match_at(s, x, pat)
        },
        find_sub(s, from, pat) is None ==> forall|x: int| from <= x ==> !match_at(s, x, pat),
    decreases s.len() - from,
{
    if from + pat.len() > s.len() || match_at(s, from, pat) {
    } else {
        lemma_find_sub(s, from + 1, pat);
    }
}

/// `pat` occurs in `chars` at index `i`: executable test for [`match_at`].
fn pattern_at(chars: &Vec<char>, i: usize, pat: &Vec<char>) -> (r: bool)
    requires
        i + pat.len() <= chars.len(),
    ensures
        r == match_at(chars@, i as int, pat@),
{
    let mut k: usize = 0;
    while k < pat.len()
        invariant
            k <= pat.len(),
            i + pat.len() <= chars.len(),
            forall|x: int| 0 <= x < k ==> chars@[i + x] == pat@[x],
        decreases pat@.len() - k,
    {
        if chars[i + k] != pat[k] {
            proof {
                let win = chars@.subrange(i as int, i + pat@.len() as int);
                assert(win[k as int] == chars@[i + k]);
                assert(win != pat@);
            }
            return false;
        }
        k = k + 1;
    }
    proof {
        let win = chars@.subrange(i as int, i + pat@.len() as int);
        assert(win =~= pat@);
    }
    true
}

/// Executable form of [`find_sub`].
pub fn scan_sub(chars: &Vec<char>, from: usize, pat: &Vec<char>) -> (r: Option<usize>)
    requires
        pat.len() >= 1,
    ensures
        match r {
            Some(i) => {
                &&& find_sub(chars@, from as int, pat@) == Some(i as int)
                &&& from <= i
                &&& i + pat.len() <= chars.len()
            },
            None => find_sub(chars@, from as int, pat@) is None,
        },
{
    if chars.len() < pat.len() || from > chars.len() - pat.len() {
        return None;
    }
    let last: usize = chars.len() - pat.len();
    let mut j: usize = from;
    while j <= last
        invariant
            from <= j,
            1 <= pat.len() <= chars.len(),
            last == chars.len() - pat.len(),
            find_sub(chars@, from as int, pat@) == find_sub(chars@, j as int, pat@),
        decreases last + 1 - j,
    {
        if pattern_at(chars, j, pat) {
            return Some(j);
        }
        j = j + 1;
    }
    None
}

} // verus!
