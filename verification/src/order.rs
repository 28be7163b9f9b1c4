//! Stable sorting of keyed entries. An entry is a pair of an integer key and a
//! payload; sorting looks at the key alone and keeps entries with equal keys
//! in the order in which they came.

use vstd::prelude::*;

verus! {

/// Whether an entry with key `a` may stand before one with key `b`.
pub open spec fn in_order(a: i64, b: i64, descending: bool) -> bool {
    if descending {
        a >= b
    } else {
        a <= b
    }
}

/// Whether the keys of `s` never step against the wanted direction.
pub open spec fn is_ordered<T>(s: Seq<(i64, T)>, descending: bool) -> bool {
    forall|i: int, j: int| 0 <= i < j < s.len() ==> in_order(s[i].0, s[j].0, descending)
}

/// `s` with `e` put in front of the first entry that `e` may stand before.
pub open spec fn insert_in_order<T>(e: (i64, T), s: Seq<(i64, T)>, descending: bool) -> Seq<
    (i64, T),
>
    decreases s.len(),
{
    if s.len() == 0 || in_order(e.0, s[0].0, descending) {
        seq![e] + s
    } else {
        seq![s[0]] + insert_in_order(e, s.drop_first(), descending)
    }
}

/// The entries of `s` sorted by key, entries with equal keys in their order in `s`.
pub open spec fn sorted_by_key<T>(s: Seq<(i64, T)>, descending: bool) -> Seq<(i64, T)>
    decreases s.len(),
{
    if s.len() == 0 {
        s
    } else {
        insert_in_order(s[0], sorted_by_key(s.drop_first(), descending), descending)
    }
}

/// The test for an entry's key being `key`.
pub open spec fn has_key<T>(key: i64) -> spec_fn((i64, T)) -> bool {
    |e: (i64, T)| e.0 == key
}

/// The entries of `s` whose key is `key`, in their order in `s`.
pub open spec fn with_key<T>(s: Seq<(i64, T)>, key: i64) -> Seq<(i64, T)> {
    s.filter(has_key(key))
}

/// Inserting in order puts `e` at the first index `k` whose entry `e` may
/// stand before, or at the end where there is none.
pub proof fn lemma_insert_position<T>(e: (i64, T), s: Seq<(i64, T)>, descending: bool) -> (k: int)
    ensures
        0 <= k <= s.len(),
        insert_in_order(e, s, descending) == s.insert(k, e),
        forall|j: int| 0 <= j < k ==> !in_order(e.0, s[j].0, descending),
        k < s.len() ==> in_order(e.0, s[k].0, descending),
    decreases s.len(),
{
    if s.len() == 0 || in_order(e.0, s[0].0, descending) {
        assert(seq![e] + s =~= s.insert(0, e));
        0
    } else {
        let rest = s.drop_first();
        let k = lemma_insert_position(e, rest, descending);
        assert(seq![s[0]] + rest.insert(k, e) =~= s.insert(k + 1, e));
        assert forall|j: int| 0 <= j < k + 1 implies !in_order(e.0, s[j].0, descending) by {
            if j > 0 {
                assert(s[j] == rest[j - 1]);
            }
        }
        if k + 1 < s.len() {
            assert(s[k + 1] == rest[k]);
        }
        k + 1
    }
}

/// The index found by a scan from the front is where inserting in order puts `e`.
pub proof fn lemma_insert_at<T>(e: (i64, T), s: Seq<(i64, T)>, descending: bool, k: int)
    requires
        0 <= k <= s.len(),
        forall|j: int| 0 <= j < k ==> !in_order(e.0, s[j].0, descending),
        k < s.len() ==> in_order(e.0, s[k].0, descending),
    ensures
        insert_in_order(e, s, descending) == s.insert(k, e),
{
    let p = lemma_insert_position(e, s, descending);
    if p < k {
        assert(!in_order(e.0, s[p].0, descending));
    } else if k < p {
        assert(!in_order(e.0, s[k].0, descending));
    }
}

/// Inserting into an ordered sequence leaves it ordered.
pub proof fn lemma_insert_keeps_order<T>(e: (i64, T), s: Seq<(i64, T)>, descending: bool)
    requires
        is_ordered(s, descending),
    ensures
        is_ordered(insert_in_order(e, s, descending), descending),
{
    let k = lemma_insert_position(e, s, descending);
    let r = s.insert(k, e);
    assert forall|i: int, j: int| 0 <= i < j < r.len() implies in_order(
        r[i].0,
        r[j].0,
        descending,
    ) by {
        if j < k {
            assert(r[i] == s[i] && r[j] == s[j]);
        } else if j == k {
            assert(r[i] == s[i] && r[j] == e);
            assert(!in_order(e.0, s[i].0, descending));
        } else if i < k {
            assert(r[i] == s[i] && r[j] == s[j - 1]);
        } else if i == k {
            assert(r[i] == e && r[j] == s[j - 1]);
            assert(in_order(e.0, s[k].0, descending));
            if k < j - 1 {
                assert(in_order(s[k].0, s[j - 1].0, descending));
            }
        } else {
            assert(r[i] == s[i - 1] && r[j] == s[j - 1]);
        }
    }
}

/// A sorted sequence is ordered by key.
pub proof fn lemma_sorted_is_ordered<T>(s: Seq<(i64, T)>, descending: bool)
    ensures
        is_ordered(sorted_by_key(s, descending), descending),
    decreases s.len(),
{
    if s.len() > 0 {
        lemma_sorted_is_ordered(s.drop_first(), descending);
        lemma_insert_keeps_order(s[0], sorted_by_key(s.drop_first(), descending), descending);
    }
}

/// Sorting rearranges: the sorted sequence holds the same entries, each as often.
pub proof fn lemma_sorted_is_permutation<T>(s: Seq<(i64, T)>, descending: bool)
    ensures
        sorted_by_key(s, descending).len() == s.len(),
        sorted_by_key(s, descending).to_multiset() == s.to_multiset(),
    decreases s.len(),
{
    if s.len() > 0 {
        let rest = s.drop_first();
        let sorted_rest = sorted_by_key(rest, descending);
        lemma_sorted_is_permutation(rest, descending);
        let k = lemma_insert_position(s[0], sorted_rest, descending);
        vstd::seq_lib::to_multiset_insert(sorted_rest, k, s[0]);
        vstd::seq_lib::to_multiset_insert(rest, 0, s[0]);
        assert(rest.insert(0, s[0]) =~= s);
    }
}

/// Inserting `e` adds it in front of the entries with its own key and leaves
/// the entries of every other key as they were.
pub proof fn lemma_insert_with_key<T>(e: (i64, T), s: Seq<(i64, T)>, descending: bool, key: i64)
    ensures
        with_key(insert_in_order(e, s, descending), key) == if e.0 == key {
            seq![e] + with_key(s, key)
        } else {
            with_key(s, key)
        },
    decreases s.len(),
{
    let pred = has_key::<T>(key);
    lemma_filter_one(e, key);
    if s.len() == 0 || in_order(e.0, s[0].0, descending) {
        Seq::filter_distributes_over_add(seq![e], s, pred);
    } else {
        let rest = s.drop_first();
        lemma_insert_with_key(e, rest, descending, key);
        lemma_filter_one(s[0], key);
        Seq::filter_distributes_over_add(seq![s[0]], insert_in_order(e, rest, descending), pred);
        Seq::filter_distributes_over_add(seq![s[0]], rest, pred);
        assert(seq![s[0]] + rest =~= s);
        if e.0 == key {
            assert(s[0].0 != key);
            assert(Seq::<(i64, T)>::empty() + (seq![e] + with_key(rest, key)) =~= seq![e] + (
            Seq::<(i64, T)>::empty() + with_key(rest, key)));
        }
    }
}

/// Filtering a single entry by key keeps it exactly when its key is `key`.
proof fn lemma_filter_one<T>(e: (i64, T), key: i64)
    ensures
        with_key(seq![e], key) == if e.0 == key {
            seq![e]
        } else {
            Seq::<(i64, T)>::empty()
        },
{
    let pred = has_key::<T>(key);
    let none = Seq::<(i64, T)>::empty();
    assert(none.filter(pred) == none) by {
        reveal(Seq::filter);
    }
    none.lemma_filter_push(e, pred);
    assert(none.push(e) =~= seq![e]);
}

/// Sorting is stable: for every key, the entries with that key stand in the
/// sorted sequence in the order in which they stood before.
pub proof fn lemma_sorted_is_stable<T>(s: Seq<(i64, T)>, descending: bool, key: i64)
    ensures
        with_key(sorted_by_key(s, descending), key) == with_key(s, key),
    decreases s.len(),
{
    if s.len() > 0 {
        let rest = s.drop_first();
        let pred = has_key::<T>(key);
        lemma_sorted_is_stable(rest, descending, key);
        lemma_insert_with_key(s[0], sorted_by_key(rest, descending), descending, key);
        lemma_filter_one(s[0], key);
        Seq::filter_distributes_over_add(seq![s[0]], rest, pred);
        assert(seq![s[0]] + rest =~= s);
        assert(Seq::<(i64, T)>::empty() + with_key(rest, key) =~= with_key(rest, key));
    }
}

/// The payloads of `s`, in order.
pub open spec fn payloads<T>(s: Seq<(i64, T)>) -> Seq<T> {
    Seq::new(s.len(), |i: int| s[i].1)
}

/// Sorting rearranges the payloads: the sorted sequence holds the same
/// payloads, each as often.
pub proof fn lemma_sorted_payloads<T>(s: Seq<(i64, T)>, descending: bool)
    ensures
        payloads(sorted_by_key(s, descending)).to_multiset() == payloads(s).to_multiset(),
    decreases s.len(),
{
    if s.len() > 0 {
        let rest = s.drop_first();
        let sorted_rest = sorted_by_key(rest, descending);
        lemma_sorted_payloads(rest, descending);
        let k = lemma_insert_position(s[0], sorted_rest, descending);
        vstd::seq_lib::to_multiset_insert(payloads(sorted_rest), k, s[0].1);
        vstd::seq_lib::to_multiset_insert(payloads(rest), 0, s[0].1);
        assert(payloads(rest).insert(0, s[0].1) =~= payloads(s));
        assert(payloads(sorted_rest).insert(k, s[0].1) =~= payloads(sorted_rest.insert(k, s[0])));
    } else {
        assert(payloads(sorted_by_key(s, descending)) =~= payloads(s));
    }
}

/// The entries of `s` with `f` applied to each payload.
pub open spec fn map_payload<T, U>(s: Seq<(i64, T)>, f: spec_fn(T) -> U) -> Seq<(i64, U)> {
    Seq::new(s.len(), |i: int| (s[i].0, f(s[i].1)))
}

/// Sorting looks at the keys alone: to sort and then change the payloads is
/// to change the payloads and then sort.
pub proof fn lemma_sorted_map_payload<T, U>(s: Seq<(i64, T)>, f: spec_fn(T) -> U, descending: bool)
    ensures
        sorted_by_key(map_payload(s, f), descending) == map_payload(
            sorted_by_key(s, descending),
            f,
        ),
    decreases s.len(),
{
    let mapped = map_payload(s, f);
    if s.len() == 0 {
        assert(mapped =~= map_payload(sorted_by_key(s, descending), f));
    } else {
        let rest = s.drop_first();
        let sorted_rest = sorted_by_key(rest, descending);
        lemma_sorted_map_payload(rest, f, descending);
        assert(mapped.drop_first() =~= map_payload(rest, f));
        let k = lemma_insert_position(s[0], sorted_rest, descending);
        let mapped_rest = map_payload(sorted_rest, f);
        lemma_insert_at(mapped[0], mapped_rest, descending, k);
        assert(mapped_rest.insert(k, mapped[0]) =~= map_payload(sorted_rest.insert(k, s[0]), f));
    }
}

/// Tells whether an entry with key `a` may stand before one with key `b`.
pub fn keys_in_order(a: i64, b: i64, descending: bool) -> (r: bool)
    ensures
        r == in_order(a, b, descending),
{
    if descending {
        a >= b
    } else {
        a <= b
    }
}

/// Sorts `entries` by key, ascending or descending, keeping entries with equal
/// keys in the order in which they came.
pub fn sort_by_key<T>(entries: Vec<(i64, T)>, descending: bool) -> (sorted: Vec<(i64, T)>)
    ensures
        sorted@ == sorted_by_key(entries@, descending),
{
    let mut rest = entries;
    let mut sorted: Vec<(i64, T)> = Vec::new();
    assert(entries@.skip(entries@.len() as int) =~= Seq::<(i64, T)>::empty());
    while rest.len() > 0
        invariant
            rest@ == entries@.take(rest@.len() as int),
            rest@.len() <= entries@.len(),
            sorted@ == sorted_by_key(entries@.skip(rest@.len() as int), descending),
        decreases rest.len(),
    {
        let ghost before = rest@;
        let ghost tail = entries@.skip(before.len() as int);
        let e = rest.pop().unwrap();
        let key = e.0;
        let mut k: usize = 0;
        while k < sorted.len() && !keys_in_order(key, sorted[k].0, descending)
            invariant
                k <= sorted.len(),
                key == e.0,
                forall|j: int| 0 <= j < k ==> !in_order(e.0, sorted@[j].0, descending),
            decreases sorted.len() - k,
        {
            k += 1;
        }
        proof {
            lemma_insert_at(e, sorted@, descending, k as int);
            let now = entries@.skip(rest@.len() as int);
            assert(e == entries@[rest@.len() as int]);
            assert(now[0] == e);
            assert(now.drop_first() =~= tail);
            assert(rest@ =~= entries@.take(rest@.len() as int));
        }
        sorted.insert(k, e);
    }
    assert(entries@.skip(0) =~= entries@);
    sorted
}

} // verus!
