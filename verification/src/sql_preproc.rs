//! Query preprocessing: detect file-path tokens in a free-form query string,
//! derive a table identifier from each path, and rewrite the query so that
//! every token is replaced by its derived name.
//!
//! A token is either a contiguous run of non-whitespace characters ending in
//! the recognized `.csv` extension, or a single- or double-quoted span whose
//! content ends in that extension. Tokens are found scanning left to right;
//! each is replaced at its own offsets, so a path that is a substring of some
//! other part of the query is never touched.

use vstd::prelude::*;

use crate::text::{
    find_char, find_char_in, ident_char, is_ident_char, is_quote_char, is_ws_char, last_slash,
    lemma_find_char_bounds, lemma_last_slash, lemma_last_slash_is, lemma_run_end_bounds,
    quote_char, run_end, run_end_in, ws_char,
};

verus! {

/// The text ends with the recognized `.csv` extension.
pub open spec fn ends_with_ext(s: Seq<char>) -> bool {
    &&& s.len() >= 4
    &&& s[s.len() - 4] == '.'
    &&& s[s.len() - 3] == 'c'
    &&& s[s.len() - 2] == 's'
    &&& s[s.len() - 1] == 'v'
}

/// The part of a path after its last `/`.
pub open spec fn basename_spec(s: Seq<char>) -> Seq<char> {
    s.subrange(last_slash(s) + 1, s.len() as int)
}

/// The text with a trailing `.csv` extension removed, unchanged otherwise.
pub open spec fn strip_ext_spec(s: Seq<char>) -> Seq<char> {
    if ends_with_ext(s) {
        s.take(s.len() - 4)
    } else {
        s
    }
}

/// A name that can stand as a bare identifier: nonempty, every character a
/// letter, a digit or an underscore.
pub open spec fn is_bare_name(s: Seq<char>) -> bool {
    s.len() > 0 && forall|i: int| 0 <= i < s.len() ==> is_ident_char(s[i])
}

/// The table identifier derived from a file path: directory components
/// stripped, the `.csv` extension stripped, and the result wrapped in single
/// quotes when it cannot stand as a bare identifier.
pub open spec fn derived_name_spec(s: Seq<char>) -> Seq<char> {
    let b = strip_ext_spec(basename_spec(s));
    if is_bare_name(b) {
        b
    } else {
        seq!['\''] + b + seq!['\'']
    }
}

/// For a quote character at `p`: the index of the closing quote, provided the
/// span's content ends with the recognized extension.
pub open spec fn quote_token_end(s: Seq<char>, p: int) -> Option<int> {
    match find_char(s, p + 1, s[p]) {
        Option::Some(j) => if ends_with_ext(s.subrange(p + 1, j)) {
            Option::Some(j)
        } else {
            Option::None
        },
        Option::None => Option::None,
    }
}

/// The largest `e` with `from + 4 <= e <= to` such that the text from `from`
/// to `e` ends with the recognized extension: a bare token need not exhaust
/// its non-whitespace run (`t1.csv;` holds the token `t1.csv`), and the
/// longest such token wins.
pub open spec fn last_ext_end(s: Seq<char>, from: int, to: int) -> Option<int>
    decreases to - from,
{
    if to - from < 4 {
        Option::None
    } else if ends_with_ext(s.subrange(from, to)) {
        Option::Some(to)
    } else {
        last_ext_end(s, from, to - 1)
    }
}

pub proof fn lemma_last_ext_end_bounds(s: Seq<char>, from: int, to: int)
    ensures
        last_ext_end(s, from, to) matches Some(e) ==> from + 4 <= e <= to,
    decreases to - from,
{
    if to - from >= 4 && !ends_with_ext(s.subrange(from, to)) {
        lemma_last_ext_end_bounds(s, from, to - 1);
    }
}

/// The file paths of every token found from position `p` on, in scan order,
/// one entry per token, quotes stripped from a quoted token.
pub open spec fn paths_from(s: Seq<char>, p: int) -> Seq<Seq<char>>
    decreases s.len() - p,
    when 0 <= p
    via paths_from_dec
{
    if p >= s.len() {
        Seq::empty()
    } else if is_quote_char(s[p]) {
        match quote_token_end(s, p) {
            Option::Some(j) => seq![s.subrange(p + 1, j)] + paths_from(s, j + 1),
            Option::None => paths_from(s, p + 1),
        }
    } else if !is_ws_char(s[p]) {
        match last_ext_end(s, p, run_end(s, p)) {
            Option::Some(e) => seq![s.subrange(p, e)] + paths_from(s, e),
            Option::None => paths_from(s, run_end(s, p)),
        }
    } else {
        paths_from(s, p + 1)
    }
}

#[via_fn]
proof fn paths_from_dec(s: Seq<char>, p: int) {
    if 0 <= p < s.len() {
        lemma_find_char_bounds(s, p + 1, s[p]);
        lemma_run_end_bounds(s, p);
        lemma_last_ext_end_bounds(s, p, run_end(s, p));
    }
}

/// The query text from position `p` on with every token replaced by the
/// derived name of its path; all other characters are kept as they stand.
pub open spec fn rewrite_from(s: Seq<char>, p: int) -> Seq<char>
    decreases s.len() - p,
    when 0 <= p
    via rewrite_from_dec
{
    if p >= s.len() {
        Seq::empty()
    } else if is_quote_char(s[p]) {
        match quote_token_end(s, p) {
            Option::Some(j) => derived_name_spec(s.subrange(p + 1, j)) + rewrite_from(s, j + 1),
            Option::None => seq![s[p]] + rewrite_from(s, p + 1),
        }
    } else if !is_ws_char(s[p]) {
        match last_ext_end(s, p, run_end(s, p)) {
            Option::Some(e) => derived_name_spec(s.subrange(p, e)) + rewrite_from(s, e),
            Option::None => s.subrange(p, run_end(s, p)) + rewrite_from(s, run_end(s, p)),
        }
    } else {
        seq![s[p]] + rewrite_from(s, p + 1)
    }
}

#[via_fn]
proof fn rewrite_from_dec(s: Seq<char>, p: int) {
    if 0 <= p < s.len() {
        lemma_find_char_bounds(s, p + 1, s[p]);
        lemma_run_end_bounds(s, p);
        lemma_last_ext_end_bounds(s, p, run_end(s, p));
    }
}

/// The range `[from, to)` of `s` ends with the recognized extension.
fn range_ends_with_ext(s: &str, from: usize, to: usize) -> (r: bool)
    requires
        from <= to <= s@.len(),
    ensures
        r == ends_with_ext(s@.subrange(from as int, to as int)),
{
    if to - from < 4 {
        return false;
    }
    s.get_char(to - 4) == '.' && s.get_char(to - 3) == 'c' && s.get_char(to - 2) == 's'
        && s.get_char(to - 1) == 'v'
}

/// Largest end within `[from, to]` at which the text starting at `from` ends
/// with the recognized extension, if any.
fn last_ext_end_in(s: &str, from: usize, to: usize) -> (r: Option<usize>)
    requires
        from <= to <= s@.len(),
    ensures
        match r {
            Option::Some(e) => last_ext_end(s@, from as int, to as int) == Some(e as int) && from
                + 4 <= e <= to,
            Option::None => last_ext_end(s@, from as int, to as int) is None,
        },
{
    let mut t = to;
    while t - from >= 4
        invariant
            from <= t <= to,
            to <= s@.len(),
            last_ext_end(s@, from as int, to as int) == last_ext_end(s@, from as int, t as int),
        decreases t,
    {
        if range_ends_with_ext(s, from, t) {
            return Option::Some(t);
        }
        t -= 1;
    }
    Option::None
}

/// Index right after the last `/` of the text, or `0` when there is none.
pub(crate) fn basename_start(s: &str) -> (r: usize)
    ensures
        r as int == last_slash(s@) + 1,
        r <= s@.len(),
{
    let n = s.unicode_len();
    let mut k = n;
    while k > 0
        invariant
            k <= n,
            n == s@.len(),
            forall|j: int| k <= j < n ==> s@[j] != '/',
        decreases k,
    {
        if s.get_char(k - 1) == '/' {
            proof {
                lemma_last_slash_is(s@, k as int - 1);
            }
            return k;
        }
        k -= 1;
    }
    proof {
        lemma_last_slash_is(s@, -1);
    }
    0
}

/// Every character of the text can stand in a bare identifier.
fn all_ident_chars(s: &str) -> (r: bool)
    ensures
        r == forall|i: int| 0 <= i < s@.len() ==> is_ident_char(s@[i]),
{
    let n = s.unicode_len();
    let mut i: usize = 0;
    while i < n
        invariant
            i <= n,
            n == s@.len(),
            forall|m: int| 0 <= m < i ==> is_ident_char(s@[m]),
        decreases n - i,
    {
        if !ident_char(s.get_char(i)) {
            return false;
        }
        i += 1;
    }
    true
}

/// Derive the table identifier for a file path: strip directory components,
/// strip a trailing `.csv`, and quote the result as `'name'` when it holds a
/// character not valid in a bare identifier.
pub fn derive_name(path: &str) -> (r: String)
    ensures
        r@ == derived_name_spec(path@),
{
    let n = path.unicode_len();
    let bs = basename_start(path);
    proof {
        lemma_last_slash(path@);
        assert(path@.subrange(bs as int, n as int) == basename_spec(path@));
    }
    let base_end: usize = if range_ends_with_ext(path, bs, n) {
        n - 4
    } else {
        n
    };
    proof {
        if ends_with_ext(basename_spec(path@)) {
            assert(path@.subrange(bs as int, base_end as int) =~= basename_spec(path@).take(
                basename_spec(path@).len() - 4,
            ));
        }
        assert(path@.subrange(bs as int, base_end as int) == strip_ext_spec(basename_spec(path@)));
    }
    let stem = path.substring_char(bs, base_end);
    let bare = stem.unicode_len() > 0 && all_ident_chars(stem);
    if bare {
        stem.to_owned()
    } else {
        let mut out = "'".to_owned();
        out.append(stem);
        out.append("'");
        proof {
            reveal_strlit("'");
            assert(out@ =~= seq!['\''] + stem@ + seq!['\'']);
        }
        out
    }
}

/// Scan the query for file tokens: return the query with every token replaced
/// by the derived name of its path, together with the list of the paths, in
/// scan order, one entry per token.
pub fn pop_filenames_from_query(query: &str) -> (r: (String, Vec<String>))
    ensures
        r.0@ == rewrite_from(query@, 0),
        r.1@.len() == paths_from(query@, 0).len(),
        forall|i: int| 0 <= i < r.1@.len() ==> r.1@[i]@ == paths_from(query@, 0)[i],
{
    let n = query.unicode_len();
    let mut p: usize = 0;
    let mut out = String::new();
    let mut files: Vec<String> = Vec::new();
    while p < n
        invariant
            p <= n,
            n == query@.len(),
            rewrite_from(query@, 0) == out@ + rewrite_from(query@, p as int),
            paths_from(query@, 0) == files@.map_values(|f: String| f@) + paths_from(
                query@,
                p as int,
            ),
        decreases n - p,
    {
        let ghost p0 = p as int;
        let ghost q = query@;
        let ghost out0 = out@;
        let ghost files0 = files@;
        let c = query.get_char(p);
        let mut plain = true;
        if quote_char(c) {
            if let Option::Some(j) = find_char_in(query, p + 1, c) {
                if range_ends_with_ext(query, p + 1, j) {
                    proof {
                        assert(quote_token_end(q, p0) == Some(j as int));
                    }
                    let path_str = query.substring_char(p + 1, j);
                    let name = derive_name(path_str);
                    out.append(name.as_str());
                    files.push(path_str.to_owned());
                    proof {
                        assert(rewrite_from(q, p0) == derived_name_spec(q.subrange(p0 + 1, j as int))
                            + rewrite_from(q, j + 1));
                        assert(out@ =~= out0 + rewrite_from(q, p0).subrange(
                            0,
                            derived_name_spec(q.subrange(p0 + 1, j as int)).len() as int,
                        ));
                        assert(rewrite_from(q, 0) =~= out@ + rewrite_from(q, j + 1));
                        assert(paths_from(q, p0) == seq![q.subrange(p0 + 1, j as int)] + paths_from(
                            q,
                            j + 1,
                        ));
                        assert(files@.map_values(|f: String| f@) =~= files0.map_values(
                            |f: String| f@,
                        ) + seq![q.subrange(p0 + 1, j as int)]);
                        assert(paths_from(q, 0) =~= files@.map_values(|f: String| f@) + paths_from(
                            q,
                            j + 1,
                        ));
                    }
                    p = j + 1;
                    plain = false;
                } else {
                    proof {
                        assert(quote_token_end(q, p0) is None);
                    }
                }
            } else {
                proof {
                    assert(quote_token_end(q, p0) is None);
                }
            }
        } else if !ws_char(c) {
            let j = run_end_in(query, p);
            proof {
                lemma_run_end_bounds(q, p0);
                assert(j > p);
            }
            match last_ext_end_in(query, p, j) {
                Option::Some(e) => {
                    let path_str = query.substring_char(p, e);
                    let name = derive_name(path_str);
                    out.append(name.as_str());
                    files.push(path_str.to_owned());
                    proof {
                        assert(rewrite_from(q, p0) == derived_name_spec(q.subrange(p0, e as int))
                            + rewrite_from(q, e as int));
                        assert(rewrite_from(q, 0) =~= out@ + rewrite_from(q, e as int));
                        assert(paths_from(q, p0) == seq![q.subrange(p0, e as int)] + paths_from(
                            q,
                            e as int,
                        ));
                        assert(files@.map_values(|f: String| f@) =~= files0.map_values(
                            |f: String| f@,
                        ) + seq![q.subrange(p0, e as int)]);
                        assert(paths_from(q, 0) =~= files@.map_values(|f: String| f@) + paths_from(
                            q,
                            e as int,
                        ));
                    }
                    p = e;
                },
                Option::None => {
                    out.append(query.substring_char(p, j));
                    proof {
                        assert(rewrite_from(q, p0) == q.subrange(p0, j as int) + rewrite_from(
                            q,
                            j as int,
                        ));
                        assert(rewrite_from(q, 0) =~= out@ + rewrite_from(q, j as int));
                        assert(paths_from(q, p0) == paths_from(q, j as int));
                    }
                    p = j;
                },
            }
            plain = false;
        }
        if plain {
            out.append(query.substring_char(p, p + 1));
            proof {
                assert(q.subrange(p0, p0 + 1) =~= seq![q[p0]]);
                assert(rewrite_from(q, p0) == seq![q[p0]] + rewrite_from(q, p0 + 1));
                assert(rewrite_from(q, 0) =~= out@ + rewrite_from(q, p0 + 1));
                assert(paths_from(q, p0) == paths_from(q, p0 + 1));
            }
            p = p + 1;
        }
    }
    proof {
        assert(rewrite_from(query@, 0) =~= out@);
        assert(paths_from(query@, 0) =~= files@.map_values(|f: String| f@));
    }
    (out, files)
}

/// Two tokens whose paths are equal are replaced by the identical derived
/// name: a file referenced twice in a query collapses to one identifier in
/// the rewritten text.
pub proof fn lemma_duplicate_token_one_identifier(q: Seq<char>, i: int, j: int)
    requires
        0 <= i < paths_from(q, 0).len(),
        0 <= j < paths_from(q, 0).len(),
        paths_from(q, 0)[i] == paths_from(q, 0)[j],
    ensures
        derived_name_spec(paths_from(q, 0)[i]) == derived_name_spec(paths_from(q, 0)[j]),
{
}

/// A path that ends in the recognized extension, has no directory component
/// and holds no character outside a bare identifier derives to the path with
/// the extension stripped and nothing else changed.
pub proof fn lemma_derive_name_plain(s: Seq<char>)
    requires
        ends_with_ext(s),
        s.len() > 4,
        forall|k: int| 0 <= k < s.len() - 4 ==> is_ident_char(s[k]),
    ensures
        derived_name_spec(s) == s.take(s.len() - 4),
{
    assert(s[s.len() - 4] == '.' && s[s.len() - 3] == 'c' && s[s.len() - 2] == 's' && s[s.len() - 1]
        == 'v');
    assert(forall|j: int| 0 <= j < s.len() ==> s[j] != '/') by {
        assert(!is_ident_char('/'));
        assert('.' != '/' && 'c' != '/' && 's' != '/' && 'v' != '/');
    }
    lemma_last_slash_is(s, -1);
    assert(basename_spec(s) =~= s);
    assert(is_bare_name(s.take(s.len() - 4)));
}

/// The derived name of a path depends only on the part after its last `/`:
/// directory components are stripped.
pub proof fn lemma_derive_name_strips_directories(s: Seq<char>)
    ensures
        derived_name_spec(s) == derived_name_spec(basename_spec(s)),
{
    lemma_last_slash(s);
    let b = basename_spec(s);
    assert(forall|j: int| 0 <= j < b.len() ==> b[j] != '/');
    lemma_last_slash_is(b, -1);
    assert(basename_spec(b) =~= b);
}

} // verus!
