//! Splitting text into lines and keeping the lines that contain a query.

use vstd::prelude::*;

verus! {

/// The lines that `cur` (the part of a line read so far) and the rest `s`
/// make up: a line ends at each `'\n'`, and a `'\r'` just before that `'\n'`
/// is dropped with it. A trailing line without `'\n'` is kept as it stands;
/// nothing follows a final `'\n'`.
pub open spec fn lines_from(s: Seq<char>, cur: Seq<char>) -> Seq<Seq<char>>
    decreases s.len(),
{
    if s.len() == 0 {
        if cur.len() == 0 {
            seq![]
        } else {
            seq![cur]
        }
    } else if s[0] == '\n' {
        seq![strip_cr(cur)] + lines_from(s.drop_first(), seq![])
    } else {
        lines_from(s.drop_first(), cur.push(s[0]))
    }
}

/// A line with the `'\r'` of a `"\r\n"` ending taken off.
pub open spec fn strip_cr(line: Seq<char>) -> Seq<char> {
    if line.len() > 0 && line.last() == '\r' {
        line.drop_last()
    } else {
        line
    }
}

/// The lines of a text, without their line endings.
pub open spec fn lines_of(s: Seq<char>) -> Seq<Seq<char>> {
    lines_from(s, seq![])
}

/// `needle` occurs in `hay` as a contiguous run of characters.
pub open spec fn contains_seq(hay: Seq<char>, needle: Seq<char>) -> bool {
    exists|i: int|
        0 <= i && i + needle.len() <= hay.len() && #[trigger] hay.subrange(i, i + needle.len())
            == needle
}

/// The lower-case form of a text, as `str::to_lowercase` gives it.
pub uninterp spec fn lower_of(s: Seq<char>) -> Seq<char>;

/// The lines of `lines` whose key, at the same position in `keys`, contains
/// `needle`, in their original order.
pub open spec fn select(lines: Seq<Seq<char>>, keys: Seq<Seq<char>>, needle: Seq<char>) -> Seq<
    Seq<char>,
>
    decreases lines.len(),
{
    if lines.len() == 0 {
        seq![]
    } else {
        let rest = select(lines.drop_last(), keys.subrange(0, lines.len() - 1), needle);
        if contains_seq(keys[lines.len() - 1], needle) {
            rest.push(lines.last())
        } else {
            rest
        }
    }
}

/// The lines of `content` that contain `query`; when case does not count,
/// those whose lower-case form contains the query's. Either way the lines
/// are given as they stand in `content`, in their original order.
pub open spec fn matching_lines(query: Seq<char>, content: Seq<char>, case_sensitive: bool) -> Seq<
    Seq<char>,
> {
    let lines = lines_of(content);
    if case_sensitive {
        select(lines, lines, query)
    } else {
        select(lines, lines.map_values(|l: Seq<char>| lower_of(l)), lower_of(query))
    }
}

/// The characters of each string slice in a sequence of them.
pub open spec fn views<'a>(v: Seq<&'a str>) -> Seq<Seq<char>> {
    v.map_values(|s: &'a str| s@)
}

/// Relies on `str::lines`: lines split at `"\n"` or `"\r\n"`, endings left
/// out, the final ending optional, a lone trailing `'\r'` kept.
#[verifier::external_body]
fn split_lines<'a>(s: &'a str) -> (r: Vec<&'a str>)
    ensures
        views(r@) == lines_of(s@),
{
    s.lines().collect()
}

/// Relies on `str::contains` with a `&str` pattern: whether the pattern is a
/// sub-slice of the string.
#[verifier::external_body]
fn str_contains(hay: &str, needle: &str) -> (r: bool)
    ensures
        r == contains_seq(hay@, needle@),
{
    hay.contains(needle)
}

/// Relies on `str::to_lowercase`: the result depends on the characters
/// alone, and the empty string stays empty.
#[verifier::external_body]
fn lowercase(s: &str) -> (r: String)
    ensures
        r@ == lower_of(s@),
        s@.len() == 0 ==> r@.len() == 0,
{
    s.to_lowercase()
}

/// The characters of each string in a sequence of them.
pub open spec fn string_views(v: Seq<String>) -> Seq<Seq<char>> {
    v.map_values(|s: String| s@)
}

/// Keeps the lines whose key, at the same position, contains `needle`.
pub fn select_lines<'a>(lines: &Vec<&'a str>, keys: &Vec<String>, needle: &str) -> (r: Vec<&'a str>)
    requires
        lines.len() == keys.len(),
    ensures
        views(r@) == select(views(lines@), string_views(keys@), needle@),
{
    let mut out: Vec<&'a str> = Vec::new();
    let mut i: usize = 0;
    while i < lines.len()
        invariant
            i <= lines.len(),
            lines.len() == keys.len(),
            views(out@) == select(
                views(lines@).subrange(0, i as int),
                string_views(keys@).subrange(0, i as int),
                needle@,
            ),
        decreases lines.len() - i,
    {
        let ghost ls = views(lines@).subrange(0, i + 1);
        let ghost ks = string_views(keys@).subrange(0, i + 1);
        assert(ls.drop_last() =~= views(lines@).subrange(0, i as int));
        assert(ks.subrange(0, i as int) =~= string_views(keys@).subrange(0, i as int));
        if str_contains(keys[i].as_str(), needle) {
            let ghost before = out@;
            out.push(lines[i]);
            assert(views(out@) =~= views(before).push(lines@[i as int]@));
        }
        i += 1;
    }
    assert(views(lines@).subrange(0, lines.len() as int) =~= views(lines@));
    assert(string_views(keys@).subrange(0, keys.len() as int) =~= string_views(keys@));
    out
}

/// The lines of `content` that contain `query`, in their original order;
/// with `case_sensitive` false, a line is kept when its lower-case form
/// contains the lower-case form of the query. The lines are returned as
/// they stand in `content`.
pub fn search<'a>(query: &str, content: &'a str, case_sensitive: bool) -> (r: Vec<&'a str>)
    ensures
        views(r@) == matching_lines(query@, content@, case_sensitive),
        query@.len() == 0 ==> views(r@) == lines_of(content@),
{
    let lines = split_lines(content);
    let ghost ls = views(lines@);
    let mut keys: Vec<String> = Vec::new();
    let mut i: usize = 0;
    while i < lines.len()
        invariant
            i <= lines.len(),
            ls == views(lines@),
            keys.len() == i,
            forall|j: int|
                0 <= j < i ==> #[trigger] keys@[j]@ == (if case_sensitive {
                    ls[j]
                } else {
                    lower_of(ls[j])
                }),
        decreases lines.len() - i,
    {
        let key = if case_sensitive {
            lines[i].to_owned()
        } else {
            lowercase(lines[i])
        };
        keys.push(key);
        i += 1;
    }
    let needle = if case_sensitive {
        query.to_owned()
    } else {
        lowercase(query)
    };
    if case_sensitive {
        assert(string_views(keys@) =~= ls);
    } else {
        assert(string_views(keys@) =~= ls.map_values(|l: Seq<char>| lower_of(l)));
    }
    let r = select_lines(&lines, &keys, needle.as_str());
    proof {
        if query@.len() == 0 {
            lemma_select_empty_needle(ls, string_views(keys@), needle@);
        }
    }
    r
}

/// `a` is `b` with some elements left out: each element of `a` stands at a
/// position of `b`, and those positions strictly increase.
pub open spec fn is_subsequence(a: Seq<Seq<char>>, b: Seq<Seq<char>>) -> bool {
    exists|idx: Seq<int>| is_embedding(idx, a, b)
}

/// `idx` gives, for each element of `a`, a position of `b` that holds it,
/// in strictly increasing order.
pub open spec fn is_embedding(idx: Seq<int>, a: Seq<Seq<char>>, b: Seq<Seq<char>>) -> bool {
    &&& idx.len() == a.len()
    &&& forall|k: int| 0 <= k < idx.len() ==> 0 <= #[trigger] idx[k] < b.len() && a[k] == b[idx[k]]
    &&& forall|k: int, m: int| 0 <= k < m < idx.len() ==> #[trigger] idx[k] < #[trigger] idx[m]
}

proof fn lemma_select_embedding(lines: Seq<Seq<char>>, keys: Seq<Seq<char>>, needle: Seq<char>) -> (idx: Seq<int>)
    ensures
        is_embedding(idx, select(lines, keys, needle), lines),
    decreases lines.len(),
{
    if lines.len() == 0 {
        seq![]
    } else {
        let n = lines.len() - 1;
        let prev = lemma_select_embedding(lines.drop_last(), keys.subrange(0, n), needle);
        if contains_seq(keys[n], needle) {
            prev.push(n)
        } else {
            prev
        }
    }
}

proof fn lemma_select_same_keys_is_filter(lines: Seq<Seq<char>>, needle: Seq<char>)
    ensures
        select(lines, lines, needle) == lines.filter(|l: Seq<char>| contains_seq(l, needle)),
    decreases lines.len(),
{
    reveal(Seq::filter);
    if lines.len() > 0 {
        let n = lines.len() - 1;
        assert(lines.subrange(0, n) =~= lines.drop_last());
        lemma_select_same_keys_is_filter(lines.drop_last(), needle);
    }
}

proof fn lemma_select_empty_needle(lines: Seq<Seq<char>>, keys: Seq<Seq<char>>, needle: Seq<char>)
    requires
        keys.len() == lines.len(),
        needle.len() == 0,
    ensures
        select(lines, keys, needle) == lines,
    decreases lines.len(),
{
    if lines.len() > 0 {
        let n = lines.len() - 1;
        assert(keys[n].subrange(0int, 0int + needle.len()) =~= needle);
        lemma_select_empty_needle(lines.drop_last(), keys.subrange(0, n), needle);
        assert(lines.drop_last().push(lines.last()) =~= lines);
    }
}

proof fn lemma_select_mapped(lines: Seq<Seq<char>>, needle: Seq<char>)
    ensures
        select(lines, lines.map_values(|l: Seq<char>| lower_of(l)), needle).map_values(
            |l: Seq<char>| lower_of(l),
        ) == select(
            lines.map_values(|l: Seq<char>| lower_of(l)),
            lines.map_values(|l: Seq<char>| lower_of(l)),
            needle,
        ),
    decreases lines.len(),
{
    let folded = lines.map_values(|l: Seq<char>| lower_of(l));
    if lines.len() > 0 {
        let n = lines.len() - 1;
        let rest = lines.drop_last();
        let rest_folded = rest.map_values(|l: Seq<char>| lower_of(l));
        assert(folded.subrange(0, n) =~= rest_folded);
        assert(folded.drop_last() =~= rest_folded);
        lemma_select_mapped(rest, needle);
        let sel = select(rest, rest_folded, needle);
        assert(sel.push(lines.last()).map_values(|l: Seq<char>| lower_of(l)) =~= sel.map_values(
            |l: Seq<char>| lower_of(l),
        ).push(folded.last()));
    }
}

/// With case counting, the result is exactly the lines that contain the
/// query, in their original order; when some line contains the query, the
/// result is not empty.
pub proof fn case_sensitive_keeps_exactly_the_containing_lines(query: Seq<char>, content: Seq<char>)
    ensures
        matching_lines(query, content, true) == lines_of(content).filter(
            |l: Seq<char>| contains_seq(l, query),
        ),
        (exists|k: int| 0 <= k < lines_of(content).len() && contains_seq(lines_of(content)[k], query))
            ==> matching_lines(query, content, true).len() > 0,
{
    let lines = lines_of(content);
    lemma_select_same_keys_is_filter(lines, query);
    if exists|k: int| 0 <= k < lines.len() && contains_seq(lines[k], query) {
        let k = choose|k: int| 0 <= k < lines.len() && contains_seq(lines[k], query);
        lines.lemma_filter_contains(|l: Seq<char>| contains_seq(l, query), k);
    }
}

/// Ignoring case is searching with case counting after lower-casing the
/// query and every line: the lower-case forms of the lines found are the
/// lower-case lines that contain the lower-case query.
pub proof fn ignoring_case_is_searching_folded_text(query: Seq<char>, content: Seq<char>)
    ensures
        matching_lines(query, content, false).map_values(|l: Seq<char>| lower_of(l)) == select(
            lines_of(content).map_values(|l: Seq<char>| lower_of(l)),
            lines_of(content).map_values(|l: Seq<char>| lower_of(l)),
            lower_of(query),
        ),
{
    lemma_select_mapped(lines_of(content), lower_of(query));
}

/// The lines found are the lines of the content with some left out: never
/// reordered, never repeated.
pub proof fn matches_are_a_subsequence_of_the_lines(query: Seq<char>, content: Seq<char>, case_sensitive: bool)
    ensures
        is_subsequence(matching_lines(query, content, case_sensitive), lines_of(content)),
{
    let lines = lines_of(content);
    let idx = if case_sensitive {
        lemma_select_embedding(lines, lines, query)
    } else {
        lemma_select_embedding(lines, lines.map_values(|l: Seq<char>| lower_of(l)), lower_of(query))
    };
    assert(is_embedding(idx, matching_lines(query, content, case_sensitive), lines));
}

} // verus!
