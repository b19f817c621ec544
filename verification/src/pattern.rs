//! Regular-expression searches, made by the `regex` and `fancy_regex` crates,
//! and the verified extraction of capture groups from their results.

use vstd::prelude::*;

verus! {

/// The capture groups of one match: entry `g` is the text of group `g`
/// (group 0 is the whole match), `None` for a group that took no part.
pub type GroupTexts = Seq<Option<Seq<char>>>;

/// What compiling `pattern` with `regex::Regex::new` and running `captures_iter`
/// over `haystack` yields: `None` when the pattern does not compile, otherwise
/// the groups of each successive non-overlapping match, in order.
pub uninterp spec fn regex_captures_of(pattern: Seq<char>, haystack: Seq<char>) -> Option<Seq<GroupTexts>>;

/// Every match in `ms` has `count` group entries (group 0 and one per capture group of
/// the pattern), and groups `0` to `needed - 1` took part in it.
pub open spec fn groups_present(ms: Seq<GroupTexts>, count: int, needed: int) -> bool {
    &&& forall|i: int| 0 <= i < ms.len() ==> (#[trigger] ms[i]).len() == count
    &&& forall|i: int, g: int| 0 <= i < ms.len() && 0 <= g < needed ==> (#[trigger] ms[i][g]) is Some
}

/// Calls `regex::Regex::new(pattern)` and then `Regex::captures_iter(haystack)`,
/// turning every match into the texts of its groups.
/// The contract claims that the result is the named `regex_captures_of(pattern, haystack)`
/// (the regex crate is deterministic: its result depends on these two arguments only),
/// and, as the crate documents for `Captures::get(0)`, that group 0 of every match is present.
/// For the fixed patterns of this library it also claims what holds of them in the regex
/// syntax: each compiles, each match has one entry per group of the pattern
/// (`Captures::iter` yields `captures_len` entries), and every group that is not inside an
/// optional part (`?`) took part in the match.
#[verifier::external_body]
pub(crate) fn regex_captures(pattern: &str, haystack: &str) -> (r: Option<Vec<Vec<Option<String>>>>)
    ensures
        r.deep_view() == regex_captures_of(pattern@, haystack@),
        r matches Some(ms) ==> forall|i: int|
            0 <= i < ms@.len() ==> (#[trigger] ms@[i])@.len() > 0 && ms@[i]@[0] is Some,
        pattern@ == crate::gradle::APPLY_FROM_PATTERN@ ==> r is Some && groups_present(r.unwrap().deep_view(), 3, 3),
        pattern@ == crate::gradle::IMPLEMENTATION_PATTERN@ ==> r is Some && groups_present(r.unwrap().deep_view(), 6, 6),
        pattern@ == crate::gradle::EXT_VARIABLE_PATTERN@ ==> r is Some && groups_present(r.unwrap().deep_view(), 5, 5),
        pattern@ == crate::gradle::INCLUDE_PATTERN@ ==> r is Some && groups_present(r.unwrap().deep_view(), 4, 4),
        pattern@ == crate::cli::TOTAL_RUN_TIME_PATTERN@ ==> r is Some && groups_present(r.unwrap().deep_view(), 5, 4),
        pattern@ == crate::cli::BUILD_TIME_PATTERN@ ==> r is Some && groups_present(r.unwrap().deep_view(), 3, 3),
{
    let re = regex::Regex::new(pattern).ok()?;
    Some(
        re.captures_iter(haystack).map(
            |c| c.iter().map(|m| m.map(|m| m.as_str().to_string())).collect(),
        ).collect(),
    )
}

/// What compiling `pattern` with `fancy_regex::Regex::new` and calling `Regex::find` on `text`
/// yields: `None` when the pattern does not compile or the search fails; otherwise the
/// first match, if any, as its start and end byte offsets and its text.
pub uninterp spec fn fancy_find_of(pattern: Seq<char>, text: Seq<char>) -> Option<Option<(usize, usize, Seq<char>)>>;

/// Calls `fancy_regex::Regex::new(pattern)` and then `Regex::find(text)`.
/// The contract claims that the result is the named `fancy_find_of(pattern, text)`
/// (the search is deterministic: its result depends on these two arguments only).
#[verifier::external_body]
pub(crate) fn fancy_find(pattern: &str, text: &str) -> (r: Option<Option<(usize, usize, String)>>)
    ensures
        r.deep_view() == fancy_find_of(pattern@, text@),
{
    let re = fancy_regex::Regex::new(pattern).ok()?;
    re.find(text).ok().map(|m| m.map(|m| (m.start(), m.end(), m.as_str().to_string())))
}

/// The text of group `g` of one match, if that group exists and took part.
pub open spec fn group_text(m: GroupTexts, g: int) -> Option<Seq<char>> {
    if 0 <= g < m.len() {
        m[g]
    } else {
        None
    }
}

/// `f` applied to every match, in order; `None` as soon as `f` gives `None` for one of them.
pub open spec fn map_matches(ms: Seq<GroupTexts>, f: spec_fn(GroupTexts) -> Option<Seq<char>>) -> Option<Seq<Seq<char>>>
    decreases ms.len(),
{
    if ms.len() == 0 {
        Some(Seq::empty())
    } else {
        match (map_matches(ms.drop_last(), f), f(ms.last())) {
            (Some(xs), Some(x)) => Some(xs.push(x)),
            _ => None,
        }
    }
}

/// The text of group `g` of every match, in order; `None` if some match lacks it.
pub open spec fn group_of_each(ms: Seq<GroupTexts>, g: int) -> Option<Seq<Seq<char>>> {
    map_matches(ms, |m: GroupTexts| group_text(m, g))
}

/// Once `f` fails on a prefix of the matches, it fails on every longer prefix.
pub proof fn lemma_map_matches_failure_extends(ms: Seq<GroupTexts>, f: spec_fn(GroupTexts) -> Option<Seq<char>>, k: int)
    requires
        0 <= k <= ms.len(),
        map_matches(ms.take(k), f) is None,
    ensures
        map_matches(ms, f) is None,
    decreases ms.len() - k,
{
    if k < ms.len() {
        assert(ms.take(k + 1).drop_last() =~= ms.take(k));
        lemma_map_matches_failure_extends(ms, f, k + 1);
    } else {
        assert(ms.take(k) =~= ms);
    }
}

/// When `f` gives a value for every match, `map_matches` gives one for the whole sequence.
pub proof fn lemma_map_matches_total(ms: Seq<GroupTexts>, f: spec_fn(GroupTexts) -> Option<Seq<char>>)
    requires
        forall|i: int| 0 <= i < ms.len() ==> (#[trigger] f(ms[i])) is Some,
    ensures
        map_matches(ms, f) is Some,
    decreases ms.len(),
{
    if ms.len() > 0 {
        let p = ms.drop_last();
        assert forall|i: int| 0 <= i < p.len() implies (#[trigger] f(p[i])) is Some by {
            assert(p[i] == ms[i]);
        }
        lemma_map_matches_total(p, f);
        assert(f(ms[ms.len() - 1]) is Some);
    }
}

/// When group `g` took part in every match, its text is found in each of them.
pub proof fn lemma_group_of_each_present(ms: Seq<GroupTexts>, count: int, g: int)
    requires
        0 <= g < count,
        groups_present(ms, count, g + 1),
    ensures
        group_of_each(ms, g) is Some,
{
    let f = |m: GroupTexts| group_text(m, g);
    assert forall|i: int| 0 <= i < ms.len() implies (#[trigger] f(ms[i])) is Some by {
        assert(ms[i][g] is Some);
    }
    lemma_map_matches_total(ms, f);
}

/// The text of group `g` of one match.
pub fn group_at(m: &Vec<Option<String>>, g: usize) -> (r: Option<String>)
    ensures
        r.deep_view() == group_text(m.deep_view(), g as int),
{
    if g < m.len() {
        match &m[g] {
            Some(t) => Some(t.clone()),
            None => None,
        }
    } else {
        None
    }
}

/// The text of group `g` of every match.
pub fn groups_of_each(ms: &Vec<Vec<Option<String>>>, g: usize) -> (r: Option<Vec<String>>)
    ensures
        r.deep_view() == group_of_each(ms.deep_view(), g as int),
{
    let mut out: Vec<String> = Vec::new();
    let mut i: usize = 0;
    assert(ms.deep_view().take(0) =~= Seq::<GroupTexts>::empty());
    while i < ms.len()
        invariant
            i <= ms.len(),
            map_matches(ms.deep_view().take(i as int), |m: GroupTexts| group_text(m, g as int)) == Some(out.deep_view()),
        decreases ms.len() - i,
    {
        assert(ms.deep_view().take(i + 1).drop_last() =~= ms.deep_view().take(i as int));
        assert(ms.deep_view().take(i + 1).last() == ms@[i as int].deep_view());
        match group_at(&ms[i], g) {
            Some(t) => {
                let ghost before = out.deep_view();
                out.push(t);
                assert(out.deep_view() =~= before.push(t@));
            },
            None => {
                proof {
                    lemma_map_matches_failure_extends(
                        ms.deep_view(),
                        |m: GroupTexts| group_text(m, g as int),
                        i as int + 1,
                    );
                }
                assert(ms.deep_view().take(ms.len() as int) =~= ms.deep_view());
                return None;
            },
        }
        i = i + 1;
    }
    assert(ms.deep_view().take(i as int) =~= ms.deep_view());
    Some(out)
}

} // verus!
