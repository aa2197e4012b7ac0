//! Character classes and elementary text scanning: finding a character,
//! finding the end of a whitespace-delimited run, splitting on a separator,
//! trimming, unquoting and joining.

use vstd::prelude::*;

verus! {

/// Whitespace, as the scanner understands it.
pub open spec fn is_ws_char(c: char) -> bool {
    c == ' ' || c == '\t' || c == '\r' || c == '\n'
}

/// A quote character that may delimit a file token.
pub open spec fn is_quote_char(c: char) -> bool {
    c == '\'' || c == '"'
}

/// A character that may stand in a bare (unquoted) table identifier.
pub open spec fn is_ident_char(c: char) -> bool {
    ('a' as u32) <= (c as u32) && (c as u32) <= ('z' as u32)
        || ('A' as u32) <= (c as u32) && (c as u32) <= ('Z' as u32)
        || ('0' as u32) <= (c as u32) && (c as u32) <= ('9' as u32)
        || c == '_'
}

pub fn ws_char(c: char) -> (r: bool)
    ensures
        r == is_ws_char(c),
{
    c == ' ' || c == '\t' || c == '\r' || c == '\n'
}

pub fn quote_char(c: char) -> (r: bool)
    ensures
        r == is_quote_char(c),
{
    c == '\'' || c == '"'
}

pub fn ident_char(c: char) -> (r: bool)
    ensures
        r == is_ident_char(c),
{
    let u = c as u32;
    (97 <= u && u <= 122) || (65 <= u && u <= 90) || (48 <= u && u <= 57) || c == '_'
}

/// Index of the first occurrence of `q` at or after `from`, if any.
pub open spec fn find_char(s: Seq<char>, from: int, q: char) -> Option<int>
    decreases s.len() - from,
    when 0 <= from
{
    if from >= s.len() {
        None
    } else if s[from] == q {
        Some(from)
    } else {
        find_char(s, from + 1, q)
    }
}

pub proof fn lemma_find_char_found(s: Seq<char>, from: int, q: char, k: int)
    requires
        0 <= from <= k < s.len(),
        s[k] == q,
        forall|m: int| from <= m < k ==> s[m] != q,
    ensures
        find_char(s, from, q) == Some(k),
    decreases k - from,
{
    if from < k {
        lemma_find_char_found(s, from + 1, q, k);
    }
}

pub proof fn lemma_find_char_none(s: Seq<char>, from: int, q: char)
    requires
        0 <= from,
        forall|m: int| from <= m < s.len() ==> s[m] != q,
    ensures
        find_char(s, from, q) is None,
    decreases s.len() - from,
{
    if from < s.len() {
        lemma_find_char_none(s, from + 1, q);
    }
}

pub proof fn lemma_find_char_bounds(s: Seq<char>, from: int, q: char)
    requires
        0 <= from,
    ensures
        find_char(s, from, q) matches Some(j) ==> from <= j < s.len() && s[j] == q,
    decreases s.len() - from,
{
    if from < s.len() && s[from] != q {
        lemma_find_char_bounds(s, from + 1, q);
    }
}

/// End of the contiguous run of non-whitespace characters that starts at
/// `from`: the first index at or after `from` holding whitespace, or the
/// length of the text.
pub open spec fn run_end(s: Seq<char>, from: int) -> int
    decreases s.len() - from,
    when 0 <= from
{
    if from >= s.len() {
        s.len() as int
    } else if is_ws_char(s[from]) {
        from
    } else {
        run_end(s, from + 1)
    }
}

pub proof fn lemma_run_end_bounds(s: Seq<char>, from: int)
    requires
        0 <= from <= s.len(),
    ensures
        from <= run_end(s, from) <= s.len(),
        forall|m: int| from <= m < run_end(s, from) ==> !is_ws_char(s[m]),
        run_end(s, from) < s.len() ==> is_ws_char(s[run_end(s, from)]),
    decreases s.len() - from,
{
    if from < s.len() && !is_ws_char(s[from]) {
        lemma_run_end_bounds(s, from + 1);
    }
}

pub proof fn lemma_run_end_is(s: Seq<char>, from: int, k: int)
    requires
        0 <= from <= k <= s.len(),
        forall|m: int| from <= m < k ==> !is_ws_char(s[m]),
        k < s.len() ==> is_ws_char(s[k]),
    ensures
        run_end(s, from) == k,
    decreases k - from,
{
    if from < k {
        lemma_run_end_is(s, from + 1, k);
    }
}

/// Index of the last `/` of the text, or `-1` when there is none.
pub open spec fn last_slash(s: Seq<char>) -> int
    decreases s.len(),
{
    if s.len() == 0 {
        -1
    } else if s[s.len() - 1] == '/' {
        s.len() - 1
    } else {
        last_slash(s.drop_last())
    }
}

pub proof fn lemma_last_slash(s: Seq<char>)
    ensures
        -1 <= last_slash(s) < s.len(),
        last_slash(s) >= 0 ==> s[last_slash(s)] == '/',
        forall|j: int| last_slash(s) < j < s.len() ==> s[j] != '/',
    decreases s.len(),
{
    if s.len() > 0 && s[s.len() - 1] != '/' {
        lemma_last_slash(s.drop_last());
        assert forall|j: int| last_slash(s) < j < s.len() implies s[j] != '/' by {
            if j < s.len() - 1 {
                assert(s.drop_last()[j] == s[j]);
            }
        }
    }
}

pub proof fn lemma_last_slash_is(s: Seq<char>, k: int)
    requires
        -1 <= k < s.len(),
        k >= 0 ==> s[k] == '/',
        forall|j: int| k < j < s.len() ==> s[j] != '/',
    ensures
        last_slash(s) == k,
    decreases s.len(),
{
    if s.len() > 0 && s[s.len() - 1] != '/' {
        lemma_last_slash_is(s.drop_last(), k);
    }
}

/// The fields of `s` from `pos` on, split on every occurrence of `sep`.
/// There is always at least one field; empty fields are kept.
pub open spec fn split_from(s: Seq<char>, pos: int, sep: char) -> Seq<Seq<char>>
    decreases s.len() - pos,
    when 0 <= pos
    via split_from_dec
{
    match find_char(s, pos, sep) {
        Option::None => seq![s.subrange(pos, s.len() as int)],
        Option::Some(j) => seq![s.subrange(pos, j)] + split_from(s, j + 1, sep),
    }
}

#[via_fn]
proof fn split_from_dec(s: Seq<char>, pos: int, sep: char) {
    lemma_find_char_bounds(s, pos, sep);
}

pub proof fn lemma_split_from_len(s: Seq<char>, pos: int, sep: char)
    requires
        0 <= pos,
    ensures
        split_from(s, pos, sep).len() >= 1,
    decreases s.len() - pos,
{
    lemma_find_char_bounds(s, pos, sep);
    match find_char(s, pos, sep) {
        Option::Some(j) => lemma_split_from_len(s, j + 1, sep),
        Option::None => {},
    }
}

/// Leading whitespace removed.
pub open spec fn trim_start_spec(s: Seq<char>) -> Seq<char>
    decreases s.len(),
{
    if s.len() > 0 && is_ws_char(s[0]) {
        trim_start_spec(s.drop_first())
    } else {
        s
    }
}

/// Trailing whitespace removed.
pub open spec fn trim_end_spec(s: Seq<char>) -> Seq<char>
    decreases s.len(),
{
    if s.len() > 0 && is_ws_char(s.last()) {
        trim_end_spec(s.drop_last())
    } else {
        s
    }
}

/// One layer of surrounding double quotes removed, when present on both ends.
pub open spec fn unquote_spec(s: Seq<char>) -> Seq<char> {
    if s.len() >= 2 && s[0] == '"' && s.last() == '"' {
        s.subrange(1, s.len() - 1)
    } else {
        s
    }
}

/// A field as the reader hands it out: surrounding whitespace trimmed, then
/// one layer of surrounding double quotes removed.
pub open spec fn clean_field_spec(s: Seq<char>) -> Seq<char> {
    unquote_spec(trim_end_spec(trim_start_spec(s)))
}

pub proof fn lemma_trim_start_range(s: Seq<char>, i: int)
    requires
        0 <= i <= s.len(),
        forall|m: int| 0 <= m < i ==> is_ws_char(s[m]),
        i < s.len() ==> !is_ws_char(s[i]),
    ensures
        trim_start_spec(s) == s.subrange(i, s.len() as int),
    decreases i,
{
    if i == 0 {
        if s.len() > 0 && is_ws_char(s[0]) {
            assert(false);
        }
        assert(trim_start_spec(s) =~= s.subrange(0, s.len() as int));
    } else {
        lemma_trim_start_range(s.drop_first(), i - 1);
        assert(s.drop_first().subrange(i - 1, s.drop_first().len() as int) =~= s.subrange(
            i,
            s.len() as int,
        ));
    }
}

pub proof fn lemma_trim_end_range(s: Seq<char>, i: int)
    requires
        0 <= i <= s.len(),
        forall|m: int| i <= m < s.len() ==> is_ws_char(s[m]),
        i > 0 ==> !is_ws_char(s[i - 1]),
    ensures
        trim_end_spec(s) == s.subrange(0, i),
    decreases s.len(),
{
    if i == s.len() {
        if s.len() > 0 && is_ws_char(s.last()) {
            assert(false);
        }
        assert(trim_end_spec(s) =~= s.subrange(0, i));
    } else {
        assert(is_ws_char(s.last()));
        lemma_trim_end_range(s.drop_last(), i);
        assert(s.drop_last().subrange(0, i) =~= s.subrange(0, i));
    }
}

/// First index at or after `from` that holds `q`, if any.
pub fn find_char_in(s: &str, from: usize, q: char) -> (r: Option<usize>)
    requires
        from <= s@.len(),
    ensures
        match r {
            Option::Some(j) => from <= j < s@.len() && find_char(s@, from as int, q) == Some(
                j as int,
            ),
            Option::None => find_char(s@, from as int, q) is None,
        },
{
    let n = s.unicode_len();
    let mut i = from;
    while i < n
        invariant
            from <= i <= n,
            n == s@.len(),
            forall|m: int| from <= m < i ==> s@[m] != q,
        decreases n - i,
    {
        if s.get_char(i) == q {
            proof {
                lemma_find_char_found(s@, from as int, q, i as int);
            }
            return Option::Some(i);
        }
        i += 1;
    }
    proof {
        lemma_find_char_none(s@, from as int, q);
    }
    Option::None
}

/// End of the non-whitespace run starting at `from`.
pub fn run_end_in(s: &str, from: usize) -> (r: usize)
    requires
        from <= s@.len(),
    ensures
        r as int == run_end(s@, from as int),
        from <= r <= s@.len(),
{
    let n = s.unicode_len();
    let mut i = from;
    while i < n
        invariant
            from <= i <= n,
            n == s@.len(),
            forall|m: int| from <= m < i ==> !is_ws_char(s@[m]),
        decreases n - i,
    {
        if ws_char(s.get_char(i)) {
            proof {
                lemma_run_end_is(s@, from as int, i as int);
            }
            return i;
        }
        i += 1;
    }
    proof {
        lemma_run_end_is(s@, from as int, n as int);
    }
    n
}

/// The parts from index `i` on, joined with the separator text `sep`.
pub open spec fn join_from(parts: Seq<Seq<char>>, i: int, sep: Seq<char>) -> Seq<char>
    decreases parts.len() - i,
    when 0 <= i
{
    if i >= parts.len() {
        Seq::empty()
    } else if i == parts.len() - 1 {
        parts[i]
    } else {
        parts[i] + sep + join_from(parts, i + 1, sep)
    }
}

} // verus!
