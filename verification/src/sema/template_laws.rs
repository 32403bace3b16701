//! What holds of specializations of templates that conflict.
use vstd::prelude::*;

use super::declare::DeclView;
use super::template::{
    conflict_keys, conflict_places, first_of_conflict, places, range_of, specializes_alike,
    SourceRange,
};

verus! {

/// Two specializations carry the key.
pub open spec fn declared_twice(list: Seq<DeclView>, key: Seq<char>) -> bool {
    exists|i: int, j: int| specializing(list, key, i, j)
}

pub open spec fn specializing(list: Seq<DeclView>, key: Seq<char>, i: int, j: int) -> bool {
    &&& 0 <= i < j < list.len()
    &&& list[i].is_explicit_specialization && list[i].signature_key == key
    &&& list[j].is_explicit_specialization && list[j].signature_key == key
}

proof fn lemma_keys_from(list: Seq<DeclView>, k: int, key: Seq<char>)
    requires
        0 <= k,
    ensures
        conflict_keys(list, k).contains(key) <==> exists|m: int|
            k <= m < list.len() && #[trigger] first_of_conflict(list, m) && list[m].signature_key
                == key,
    decreases list.len() - k,
{
    let keys = conflict_keys(list, k);
    if k < list.len() {
        lemma_keys_from(list, k + 1, key);
        let rest = conflict_keys(list, k + 1);
        if first_of_conflict(list, k) {
            if keys.contains(key) {
                let i = choose|i: int| 0 <= i < keys.len() && keys[i] == key;
                if i > 0 {
                    assert(rest[i - 1] == key);
                    assert(rest.contains(key));
                }
            }
            if list[k].signature_key == key {
                assert(keys[0] == key);
            }
            if rest.contains(key) {
                let i = choose|i: int| 0 <= i < rest.len() && rest[i] == key;
                assert(keys[i + 1] == key);
            }
        }
    }
}

proof fn lemma_keys_differ(list: Seq<DeclView>, k: int)
    requires
        0 <= k,
    ensures
        conflict_keys(list, k).no_duplicates(),
    decreases list.len() - k,
{
    if k < list.len() {
        lemma_keys_differ(list, k + 1);
        if first_of_conflict(list, k) {
            let key = list[k].signature_key;
            let rest = conflict_keys(list, k + 1);
            lemma_keys_from(list, k + 1, key);
            if rest.contains(key) {
                let m = choose|m: int|
                    k + 1 <= m < list.len() && #[trigger] first_of_conflict(list, m)
                        && list[m].signature_key == key;
                assert(specializes_alike(list, k, m));
            }
            let keys = conflict_keys(list, k);
            assert forall|i: int, j: int|
                0 <= i < keys.len() && 0 <= j < keys.len() && i != j implies keys[i] != keys[j] by {
                if i == 0 {
                    assert(rest.contains(rest[j - 1]));
                } else if j == 0 {
                    assert(rest.contains(rest[i - 1]));
                } else {
                    assert(rest[i - 1] != rest[j - 1]);
                }
            }
        }
    }
}

/// Of the specializations with a key, there is a first.
proof fn lemma_first(list: Seq<DeclView>, i: int) -> (m: int)
    requires
        0 <= i < list.len(),
        list[i].is_explicit_specialization,
    ensures
        0 <= m <= i,
        list[m].is_explicit_specialization,
        list[m].signature_key == list[i].signature_key,
        forall|j: int| 0 <= j < m ==> !#[trigger] specializes_alike(list, j, m),
    decreases i,
{
    if exists|j: int| 0 <= j < i && #[trigger] specializes_alike(list, j, i) {
        let j = choose|j: int| 0 <= j < i && #[trigger] specializes_alike(list, j, i);
        lemma_first(list, j)
    } else {
        i
    }
}

/// The keys in conflict all differ, and are just those that two specializations carry.
pub proof fn conflict_keys_are_declared_twice(list: Seq<DeclView>, key: Seq<char>)
    ensures
        conflict_keys(list, 0).no_duplicates(),
        conflict_keys(list, 0).contains(key) <==> declared_twice(list, key),
{
    lemma_keys_differ(list, 0);
    lemma_keys_from(list, 0, key);
    if conflict_keys(list, 0).contains(key) {
        let m = choose|m: int|
            0 <= m < list.len() && #[trigger] first_of_conflict(list, m) && list[m].signature_key
                == key;
        let j = choose|j: int| m < j < list.len() && #[trigger] specializes_alike(list, j, m);
        assert(specializing(list, key, m, j));
    }
    if declared_twice(list, key) {
        let (i, j) = choose|i: int, j: int| specializing(list, key, i, j);
        let m = lemma_first(list, i);
        assert(specializes_alike(list, j, m));
        assert(first_of_conflict(list, m));
    }
}

/// The entry is a specialization with its key.
pub open spec fn entry_declared(list: Seq<DeclView>, entry: (Seq<char>, SourceRange)) -> bool {
    exists|d: int| #[trigger] entry_is(list, entry, d)
}

pub open spec fn entry_is(list: Seq<DeclView>, entry: (Seq<char>, SourceRange), d: int) -> bool {
    0 <= d < list.len() && list[d].is_explicit_specialization && entry == (
        list[d].signature_key,
        range_of(list[d]),
    )
}

proof fn lemma_places(list: Seq<DeclView>, key: Seq<char>, k: int)
    requires
        0 <= k,
    ensures
        forall|i: int|
            0 <= i < places(list, key, k).len() ==> (#[trigger] places(list, key, k)[i]).0 == key
                && entry_declared(list, places(list, key, k)[i]),
        forall|d: int|
            k <= d < list.len() && (#[trigger] list[d]).is_explicit_specialization
                && list[d].signature_key == key ==> places(list, key, k).contains(
                (key, range_of(list[d])),
            ),
        forall|i: int| #[trigger]
            marks(list, key, i) && k <= i < list.len() ==> places(list, key, k).len() >= 1,
        forall|i: int, j: int|
            k <= i && #[trigger] specializing(list, key, i, j) ==> places(list, key, k).len() >= 2,
    decreases list.len() - k,
{
    let all = places(list, key, k);
    if k < list.len() {
        lemma_places(list, key, k + 1);
        let rest = places(list, key, k + 1);
        let here = list[k].is_explicit_specialization && list[k].signature_key == key;
        if here {
            assert(entry_is(list, (key, range_of(list[k])), k));
            assert(all[0] == (key, range_of(list[k])));
        }
        assert forall|i: int| 0 <= i < all.len() implies (#[trigger] all[i]).0 == key
            && entry_declared(list, all[i]) by {
            if here && i > 0 {
                assert(all[i] == rest[i - 1]);
            }
        }
        assert forall|d: int|
            k <= d < list.len() && (#[trigger] list[d]).is_explicit_specialization
                && list[d].signature_key == key implies all.contains((key, range_of(list[d]))) by {
            if d > k {
                let e = (key, range_of(list[d]));
                assert(rest.contains(e));
                let i = choose|i: int| 0 <= i < rest.len() && rest[i] == e;
                assert(all[if here { i + 1 } else { i }] == e);
            }
        }
        assert forall|i: int, j: int|
            k <= i && #[trigger] specializing(list, key, i, j) implies all.len() >= 2 by {
            if i == k {
                assert(marks(list, key, j));
            }
        }
    }
}

spec fn marks(list: Seq<DeclView>, key: Seq<char>, i: int) -> bool {
    list[i].is_explicit_specialization && list[i].signature_key == key
}

proof fn lemma_conflict_places(list: Seq<DeclView>, keys: Seq<Seq<char>>, k: int)
    requires
        0 <= k,
    ensures
        forall|i: int|
            0 <= i < conflict_places(list, keys, k).len() ==> keys.contains(
                (#[trigger] conflict_places(list, keys, k)[i]).0,
            ) && entry_declared(list, conflict_places(list, keys, k)[i]),
        forall|q: int|
            k <= q < keys.len() && declared_twice(list, #[trigger] keys[q]) ==> listed_twice(
                conflict_places(list, keys, k),
                keys[q],
            ),
        forall|q: int, d: int|
            k <= q < keys.len() && 0 <= d < list.len() && (
            #[trigger] list[d]).is_explicit_specialization && list[d].signature_key
                == #[trigger] keys[q] ==> conflict_places(list, keys, k).contains(
                (keys[q], range_of(list[d])),
            ),
    decreases keys.len() - k,
{
    let all = conflict_places(list, keys, k);
    if k < keys.len() {
        lemma_conflict_places(list, keys, k + 1);
        lemma_places(list, keys[k], 0);
        let first = places(list, keys[k], 0);
        let rest = conflict_places(list, keys, k + 1);
        assert(all == first + rest);
        assert forall|i: int| 0 <= i < all.len() implies keys.contains((#[trigger] all[i]).0)
            && entry_declared(list, all[i]) by {
            if i < first.len() {
                assert(all[i] == first[i]);
                assert(keys.contains(keys[k]));
            } else {
                assert(all[i] == rest[i - first.len()]);
            }
        }
        assert forall|q: int|
            k <= q < keys.len() && declared_twice(list, #[trigger] keys[q]) implies listed_twice(
            all,
            keys[q],
        ) by {
            if q == k {
                let (i, j) = choose|i: int, j: int| specializing(list, keys[k], i, j);
                assert(specializing(list, keys[k], i, j));
                assert(all[0] == first[0] && all[1] == first[1]);
                assert(carries(all, keys[k], 0, 1));
            } else {
                let (i, j) = choose|i: int, j: int| carries(rest, keys[q], i, j);
                assert(all[first.len() + i] == rest[i] && all[first.len() + j] == rest[j]);
                assert(carries(all, keys[q], first.len() + i, first.len() + j));
            }
        }
        assert forall|q: int, d: int|
            k <= q < keys.len() && 0 <= d < list.len() && (
            #[trigger] list[d]).is_explicit_specialization && list[d].signature_key
                == #[trigger] keys[q] implies all.contains((keys[q], range_of(list[d]))) by {
            let e = (keys[q], range_of(list[d]));
            if q == k {
                assert(first.contains(e));
                let i = choose|i: int| 0 <= i < first.len() && first[i] == e;
                assert(all[i] == e);
            } else {
                assert(rest.contains(e));
                let i = choose|i: int| 0 <= i < rest.len() && rest[i] == e;
                assert(all[first.len() + i] == e);
            }
        }
    }
}

/// At least two entries carry the key.
pub open spec fn listed_twice(entries: Seq<(Seq<char>, SourceRange)>, key: Seq<char>) -> bool {
    exists|i: int, j: int| carries(entries, key, i, j)
}

pub open spec fn carries(
    entries: Seq<(Seq<char>, SourceRange)>,
    key: Seq<char>,
    i: int,
    j: int,
) -> bool {
    0 <= i < j < entries.len() && entries[i].0 == key && entries[j].0 == key
}

/// The entries of the conflicts carry just the keys in conflict, each at least twice; each of them
/// is a specialization, and no specialization with such a key is missing.
pub proof fn conflict_entries_carry_the_keys(list: Seq<DeclView>)
    ensures
        ({
            let keys = conflict_keys(list, 0);
            let entries = conflict_places(list, keys, 0);
            &&& forall|i: int|
                0 <= i < entries.len() ==> keys.contains((#[trigger] entries[i]).0)
                    && entry_declared(list, entries[i])
            &&& forall|key: Seq<char>| #[trigger]
                keys.contains(key) ==> listed_twice(entries, key)
            &&& forall|d: int|
                0 <= d < list.len() && (#[trigger] list[d]).is_explicit_specialization
                    && keys.contains(list[d].signature_key) ==> entries.contains(
                    (list[d].signature_key, range_of(list[d])),
                )
        }),
{
    let keys = conflict_keys(list, 0);
    let entries = conflict_places(list, keys, 0);
    lemma_conflict_places(list, keys, 0);
    assert forall|key: Seq<char>| #[trigger] keys.contains(key) implies listed_twice(
        entries,
        key,
    ) by {
        conflict_keys_are_declared_twice(list, key);
        let q = choose|q: int| 0 <= q < keys.len() && keys[q] == key;
        assert(declared_twice(list, keys[q]));
    }
    assert forall|d: int|
        0 <= d < list.len() && (#[trigger] list[d]).is_explicit_specialization && keys.contains(
            list[d].signature_key,
        ) implies entries.contains((list[d].signature_key, range_of(list[d]))) by {
        let q = choose|q: int| 0 <= q < keys.len() && keys[q] == list[d].signature_key;
        assert(list[d].signature_key == keys[q]);
    }
}

} // verus!
