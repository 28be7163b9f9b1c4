//! Fuzzy search over the set of system calls: every name is scored against
//! the query, names that do not match are left out, and the rest is ranked by
//! score, best first.

use vstd::prelude::*;
use vstd::string::StrSliceExecFns;
use fuzzy_matcher::skim::SkimMatcherV2;
use fuzzy_matcher::FuzzyMatcher;
use crate::order::{lemma_sorted_map_payload, map_payload, sort_by_key, sorted_by_key};
use crate::syscalls::SyscallSet;
use crate::text::texts;

verus! {

/// The score that the skim matcher (`SkimMatcherV2` with its default
/// settings) gives to `choice` for a `pattern` that matches it.
pub uninterp spec fn skim_value(choice: Seq<char>, pattern: Seq<char>) -> i64;

/// Whether `c` is one of the letters `A` to `Z`.
pub open spec fn is_ascii_uppercase(c: char) -> bool {
    'A' <= c && c <= 'Z'
}

/// `c` with the letters `A` to `Z` turned into `a` to `z`.
pub open spec fn ascii_lowercase(c: char) -> char {
    if is_ascii_uppercase(c) {
        ((c as u32) + 32) as char
    } else {
        c
    }
}

/// Whether the characters `a` and `b` count as the same: as they are where
/// `exact` is set, without regard to ASCII case otherwise.
pub open spec fn same_letter(a: char, b: char, exact: bool) -> bool {
    if exact {
        a == b
    } else {
        ascii_lowercase(a) == ascii_lowercase(b)
    }
}

/// Whether the characters of `pattern` occur in `choice` in their order, not
/// necessarily side by side.
pub open spec fn is_subsequence(pattern: Seq<char>, choice: Seq<char>, exact: bool) -> bool
    decreases choice.len(),
{
    if pattern.len() == 0 {
        true
    } else if choice.len() == 0 {
        false
    } else if same_letter(choice[0], pattern[0], exact) {
        is_subsequence(pattern.drop_first(), choice.drop_first(), exact)
    } else {
        is_subsequence(pattern, choice.drop_first(), exact)
    }
}

/// Whether `pattern` holds one of the letters `A` to `Z`.
pub open spec fn has_uppercase(pattern: Seq<char>) -> bool {
    exists|i: int| 0 <= i < pattern.len() && is_ascii_uppercase(#[trigger] pattern[i])
}

/// Whether `pattern` matches `choice`: its characters occur in `choice` in
/// their order. Case counts exactly when the pattern holds an uppercase letter.
pub open spec fn pattern_matches(choice: Seq<char>, pattern: Seq<char>) -> bool {
    is_subsequence(pattern, choice, has_uppercase(pattern))
}

/// The longest candidate, in characters, that is handed to the matcher. The
/// matcher adds up its scores in 32 bits; within this length they stay in
/// range.
pub const SCORABLE_LEN: usize = 1_048_576;

/// Calls `SkimMatcherV2::fuzzy_match` on a matcher with default settings.
/// Trusted: the matcher gives a score exactly when the pattern matches the
/// candidate as `pattern_matches` says, and the score is the value that the name
/// `skim_value` stands for on the characters of the two strings. Candidates
/// longer than `SCORABLE_LEN` are left out, since the matcher's 32-bit sums
/// may overflow on them.
#[verifier::external_body]
fn skim_match(choice: &str, pattern: &str) -> (score: Option<i64>)
    requires
        choice@.len() <= SCORABLE_LEN,
    ensures
        score == if pattern_matches(choice@, pattern@) {
            Some(skim_value(choice@, pattern@))
        } else {
            None
        },
{
    SkimMatcherV2::default().fuzzy_match(choice, pattern)
}

/// The score of `choice` for `pattern`: the matcher's score where the pattern
/// matches, and none where it does not or where the candidate is too long to
/// be handed to the matcher.
pub open spec fn match_score(choice: Seq<char>, pattern: Seq<char>) -> Option<i64> {
    if choice.len() <= SCORABLE_LEN && pattern_matches(choice, pattern) {
        Some(skim_value(choice, pattern))
    } else {
        None
    }
}

/// Scores `choice` against `pattern`.
pub fn fuzzy_score(choice: &str, pattern: &str) -> (score: Option<i64>)
    ensures
        score == match_score(choice@, pattern@),
{
    if choice.unicode_len() <= SCORABLE_LEN {
        skim_match(choice, pattern)
    } else {
        None
    }
}

/// The function that pairs a name with its score for `query`, where it has one.
pub open spec fn scoring(query: Seq<char>) -> spec_fn(Seq<char>) -> Option<(i64, Seq<char>)> {
    |name: Seq<char>|
        match match_score(name, query) {
            Some(score) => Some((score, name)),
            None => None,
        }
}

/// The names of `names` that match `query`, each with its score, in the order of `names`.
pub open spec fn scored(names: Seq<Seq<char>>, query: Seq<char>) -> Seq<(i64, Seq<char>)> {
    names.filter_map(scoring(query))
}

/// The names of scored entries, in order.
pub open spec fn names_in(entries: Seq<(i64, Seq<char>)>) -> Seq<Seq<char>> {
    Seq::new(entries.len(), |i: int| entries[i].1)
}

/// Scored entries ranked: by score, highest first, entries with equal scores
/// in the order in which they came.
pub open spec fn ranked(entries: Seq<(i64, Seq<char>)>) -> Seq<(i64, Seq<char>)> {
    sorted_by_key(entries, true)
}

/// What a search for `query` in `set` returns: with an empty query every
/// member, in the order of the set; otherwise the members that match, ranked.
pub open spec fn search_result(set: Seq<Seq<char>>, query: Seq<char>) -> Seq<Seq<char>> {
    if query.len() == 0 {
        set
    } else {
        names_in(ranked(scored(set, query)))
    }
}

/// With an empty query a search returns the set as it is: every member, once.
pub proof fn lemma_search_empty_query(set: Seq<Seq<char>>, query: Seq<char>)
    requires
        query.len() == 0,
        set.no_duplicates(),
    ensures
        search_result(set, query) == set,
        search_result(set, query).no_duplicates(),
        forall|n: Seq<char>| search_result(set, query).contains(n) <==> set.contains(n),
{
}

/// What `scored` holds: each entry is a member of `names` with the score that
/// it has for `query`, every member with a score has its entry, and distinct
/// names give distinct entries.
pub proof fn lemma_scored(names: Seq<Seq<char>>, query: Seq<char>)
    ensures
        forall|i: int|
            0 <= i < scored(names, query).len() ==> names.contains(
                (#[trigger] scored(names, query)[i]).1,
            ) && match_score(scored(names, query)[i].1, query) == Some(scored(names, query)[i].0),
        forall|j: int|
            0 <= j < names.len() && match_score(#[trigger] names[j], query).is_some()
                ==> scored(names, query).contains((match_score(names[j], query).unwrap(), names[j])),
        names.no_duplicates() ==> scored(names, query).no_duplicates(),
    decreases names.len(),
{
    let out = scored(names, query);
    if names.len() > 0 {
        let front = names.drop_last();
        let last = names.last();
        let prev = scored(front, query);
        lemma_scored(front, query);
        assert(out == match match_score(last, query) {
            Some(score) => prev + seq![(score, last)],
            None => prev,
        });
        assert forall|i: int| 0 <= i < out.len() implies names.contains((#[trigger] out[i]).1)
            && match_score(out[i].1, query) == Some(out[i].0) by {
            if i < prev.len() {
                assert(out[i] == prev[i]);
                let k = choose|k: int| 0 <= k < front.len() && front[k] == prev[i].1;
                assert(names[k] == out[i].1);
            } else {
                assert(names[names.len() - 1] == out[i].1);
            }
        }
        assert forall|j: int|
            0 <= j < names.len() && match_score(#[trigger] names[j], query).is_some() implies out.contains(
            (match_score(names[j], query).unwrap(), names[j]),
        ) by {
            let e = (match_score(names[j], query).unwrap(), names[j]);
            if j < front.len() {
                assert(front[j] == names[j]);
                let k = choose|k: int| 0 <= k < prev.len() && prev[k] == e;
                assert(out[k] == e);
            } else {
                assert(out[out.len() - 1] == e);
            }
        }
        if names.no_duplicates() {
            assert forall|i: int, j: int| 0 <= i < j < out.len() implies out[i] != out[j] by {
                if j < prev.len() {
                    assert(out[i] == prev[i] && out[j] == prev[j]);
                } else {
                    assert(out[i] == prev[i]);
                    let k = choose|k: int| 0 <= k < front.len() && front[k] == prev[i].1;
                    assert(names[k] != names[names.len() - 1]);
                }
            }
        }
    }
}

/// Where the query matches no member, a search returns nothing.
pub proof fn lemma_search_no_match(set: Seq<Seq<char>>, query: Seq<char>)
    requires
        query.len() > 0,
        forall|i: int| 0 <= i < set.len() ==> !pattern_matches(set[i], query),
    ensures
        search_result(set, query) == Seq::<Seq<char>>::empty(),
{
    lemma_scored(set, query);
    let found = scored(set, query);
    if found.len() > 0 {
        let k = choose|k: int| 0 <= k < set.len() && set[k] == found[0].1;
        assert(match_score(set[k], query).is_none());
    }
    assert(found =~= Seq::empty());
    assert(search_result(set, query) =~= Seq::<Seq<char>>::empty());
}

/// What a search with a query returns: exactly the members that the query
/// matches (and that are short enough to be scored), none of them twice where
/// the set holds none twice, in the order of their scores, highest first.
pub proof fn lemma_search_ranked(set: Seq<Seq<char>>, query: Seq<char>)
    requires
        query.len() > 0,
    ensures
        forall|n: Seq<char>|
            search_result(set, query).contains(n) <==> set.contains(n) && n.len() <= SCORABLE_LEN
                && pattern_matches(n, query),
        forall|i: int, j: int|
            0 <= i < j < search_result(set, query).len() ==> match_score(
                search_result(set, query)[i],
                query,
            ).unwrap() >= match_score(search_result(set, query)[j], query).unwrap(),
        set.no_duplicates() ==> search_result(set, query).no_duplicates(),
{
    let found = scored(set, query);
    let best = ranked(found);
    let out = search_result(set, query);
    lemma_scored(set, query);
    crate::order::lemma_sorted_is_ordered(found, true);
    crate::order::lemma_sorted_is_permutation(found, true);
    assert forall|e: (i64, Seq<char>)| best.contains(e) <==> found.contains(e) by {
        vstd::seq_lib::to_multiset_contains(best, e);
        vstd::seq_lib::to_multiset_contains(found, e);
    }
    assert forall|i: int| 0 <= i < best.len() implies set.contains((#[trigger] best[i]).1)
        && match_score(best[i].1, query) == Some(best[i].0) by {
        assert(best.contains(best[i]));
        let k = choose|k: int| 0 <= k < found.len() && found[k] == best[i];
        assert(set.contains(found[k].1));
    }
    assert forall|n: Seq<char>| out.contains(n) <==> set.contains(n) && n.len() <= SCORABLE_LEN
        && pattern_matches(n, query) by {
        if out.contains(n) {
            let i = choose|i: int| 0 <= i < out.len() && out[i] == n;
            assert(best[i].1 == n);
        }
        if set.contains(n) && match_score(n, query).is_some() {
            let j = choose|j: int| 0 <= j < set.len() && set[j] == n;
            let e = (match_score(set[j], query).unwrap(), set[j]);
            assert(found.contains(e));
            let i = choose|i: int| 0 <= i < best.len() && best[i] == e;
            assert(out[i] == n);
        }
    }
    assert forall|i: int, j: int| 0 <= i < j < out.len() implies match_score(
        out[i],
        query,
    ).unwrap() >= match_score(out[j], query).unwrap() by {
        assert(out[i] == best[i].1 && out[j] == best[j].1);
        assert(crate::order::in_order(best[i].0, best[j].0, true));
    }
    if set.no_duplicates() {
        found.lemma_multiset_has_no_duplicates();
        best.lemma_multiset_has_no_duplicates_conv();
        assert forall|i: int, j: int| 0 <= i < j < out.len() implies out[i] != out[j] by {
            assert(out[i] == best[i].1 && out[j] == best[j].1);
            assert(best[i] != best[j]);
        }
    }
}

/// Entries with equal scores keep the order in which the set holds them: for
/// every score, the ranked entries with that score are the scored entries
/// with that score, in the same order.
pub proof fn lemma_search_ties(set: Seq<Seq<char>>, query: Seq<char>, score: i64)
    ensures
        crate::order::with_key(ranked(scored(set, query)), score) == crate::order::with_key(
            scored(set, query),
            score,
        ),
{
    crate::order::lemma_sorted_is_stable(scored(set, query), true, score);
}

/// The scored entries of a vector, each name as its characters.
pub open spec fn entries_view(entries: Seq<(i64, String)>) -> Seq<(i64, Seq<char>)> {
    map_payload(entries, |s: String| s@)
}

/// Scores every member of `set` against `query` and keeps those that match.
pub fn score_all(set: &SyscallSet, query: &str) -> (entries: Vec<(i64, String)>)
    ensures
        entries_view(entries@) == scored(set@, query@),
{
    let names = set.names();
    let mut entries: Vec<(i64, String)> = Vec::new();
    let mut i: usize = 0;
    assert(set@.take(0).filter_map(scoring(query@)) =~= Seq::empty());
    while i < names.len()
        invariant
            i <= names.len(),
            texts(names@) == set@,
            entries_view(entries@) =~= scored(set@.take(i as int), query@),
        decreases names.len() - i,
    {
        let ghost before = entries_view(entries@);
        proof {
            set@.lemma_filter_map_take_succ(scoring(query@), i as int);
            assert(set@[i as int] == names@[i as int]@);
        }
        match fuzzy_score(names[i].as_str(), query) {
            Some(score) => {
                entries.push((score, names[i].clone()));
                assert(entries_view(entries@) =~= before + seq![(score, set@[i as int])]);
            },
            None => {
                assert(before + Seq::<(i64, Seq<char>)>::empty() =~= before);
            },
        }
        i += 1;
    }
    assert(set@.take(names.len() as int) =~= set@);
    entries
}

/// Ranks scored names: by score, highest first, names with equal scores in
/// the order in which they came; returns the names.
pub fn rank(entries: Vec<(i64, String)>) -> (names: Vec<String>)
    ensures
        texts(names@) == names_in(ranked(entries_view(entries@))),
{
    let sorted = sort_by_key(entries, true);
    proof {
        lemma_sorted_map_payload(entries@, |s: String| s@, true);
    }
    let mut names: Vec<String> = Vec::new();
    let mut i: usize = 0;
    while i < sorted.len()
        invariant
            i <= sorted.len(),
            texts(names@) =~= names_in(entries_view(sorted@)).take(i as int),
        decreases sorted.len() - i,
    {
        let ghost before = names@;
        let name = sorted[i].1.clone();
        names.push(name);
        proof {
            let all = names_in(entries_view(sorted@));
            assert(texts(names@) =~= texts(before).push(name@));
            assert(all.take(i + 1) =~= all.take(i as int).push(sorted@[i as int].1@));
        }
        i += 1;
    }
    assert(names_in(entries_view(sorted@)).take(sorted.len() as int) =~= names_in(
        entries_view(sorted@),
    ));
    names
}

/// Searches `set` for `query`. An empty query returns every member in the
/// order of the set; any other returns the members that match, best first.
pub fn search(set: &SyscallSet, query: &str) -> (names: Vec<String>)
    ensures
        texts(names@) == search_result(set@, query@),
{
    if query.unicode_len() == 0 {
        let all = set.names();
        let mut names: Vec<String> = Vec::new();
        let mut i: usize = 0;
        while i < all.len()
            invariant
                i <= all.len(),
                texts(names@) =~= texts(all@).take(i as int),
            decreases all.len() - i,
        {
            let ghost before = names@;
            let name = all[i].clone();
            names.push(name);
            proof {
                assert(texts(names@) =~= texts(before).push(name@));
                assert(texts(all@).take(i + 1) =~= texts(all@).take(i as int).push(
                    all@[i as int]@,
                ));
            }
            i += 1;
        }
        assert(texts(all@).take(all.len() as int) =~= texts(all@));
        names
    } else {
        rank(score_all(set, query))
    }
}

} // verus!
