//! A map keyed by text.
use std::collections::HashMap;
use vstd::prelude::*;

use crate::text;

verus! {

broadcast use vstd::std_specs::hash::group_hash_axioms;

/// The bucket number of a text.
pub open spec fn bucket_of(s: Seq<char>) -> u64
    decreases s.len(),
{
    if s.len() == 0 {
        14695981039346656037u64
    } else {
        bucket_of(s.drop_last()).wrapping_mul(1099511628211u64).wrapping_add(s.last() as u64)
    }
}

fn bucket_number(s: &str) -> (r: u64)
    ensures
        r == bucket_of(s@),
{
    let v = text::chars_of(s);
    let mut h: u64 = 14695981039346656037u64;
    let mut i: usize = 0;
    while i < v.len()
        invariant
            v@ == s@,
            i <= v@.len(),
            h == bucket_of(s@.take(i as int)),
        decreases v@.len() - i,
    {
        assert(s@.take(i + 1).drop_last() =~= s@.take(i as int));
        h = h.wrapping_mul(1099511628211u64).wrapping_add(v[i] as u64);
        i = i + 1;
    }
    assert(s@.take(i as int) =~= s@);
    h
}

/// The pairs in the order in which their keys came, and for each bucket the positions in it.
struct Table<V> {
    entries: Vec<(String, V)>,
    buckets: HashMap<u64, Vec<usize>>,
}

spec fn indexed<V>(t: Table<V>, i: int) -> bool {
    t.buckets@.contains_key(bucket_of(t.entries@[i].0@)) && t.buckets@[bucket_of(
        t.entries@[i].0@,
    )]@.contains(i as usize)
}

spec fn sound<V>(t: Table<V>) -> bool {
    &&& forall|i: int, j: int|
        0 <= i < j < t.entries@.len() ==> (#[trigger] t.entries@[i]).0@ != (
        #[trigger] t.entries@[j]).0@
    &&& forall|i: int| 0 <= i < t.entries@.len() ==> #[trigger] indexed(t, i)
    &&& forall|h: u64, k: int|
        t.buckets@.contains_key(h) && 0 <= k < t.buckets@[h]@.len() ==> (
        #[trigger] t.buckets@[h]@[k]) < t.entries@.len()
}

/// The position of a key among the pairs, or the number of pairs.
pub open spec fn key_position<V>(entries: Seq<(Seq<char>, V)>, key: Seq<char>, from: int) -> int
    decreases entries.len() - from,
{
    if from < 0 || from >= entries.len() {
        entries.len() as int
    } else if entries[from].0 == key {
        from
    } else {
        key_position(entries, key, from + 1)
    }
}

pub proof fn lemma_key_position<V>(entries: Seq<(Seq<char>, V)>, key: Seq<char>, from: int)
    requires
        0 <= from <= entries.len(),
    ensures
        from <= key_position(entries, key, from) <= entries.len(),
        key_position(entries, key, from) < entries.len() ==> entries[key_position(
            entries,
            key,
            from,
        )].0 == key,
        forall|j: int| from <= j < key_position(entries, key, from) ==> (#[trigger] entries[j]).0
            != key,
    decreases entries.len() - from,
{
    if from < entries.len() && entries[from].0 != key {
        lemma_key_position(entries, key, from + 1);
    }
}

/// A map from text to values that remembers the order in which its keys were first inserted.
pub struct TextMap<V> {
    table: Table<V>,
}

impl<V> TextMap<V> {
    #[verifier::type_invariant]
    spec fn inv(self) -> bool {
        sound(self.table)
    }

    /// The pairs in the order in which their keys were first inserted.
    pub closed spec fn pairs(self) -> Seq<(Seq<char>, V)> {
        self.table.entries@.map_values(|e: (String, V)| (e.0@, e.1))
    }

    pub open spec fn spec_get(self, key: Seq<char>) -> Option<V> {
        let i = key_position(self.pairs(), key, 0);
        if i < self.pairs().len() {
            Some(self.pairs()[i].1)
        } else {
            None
        }
    }

    /// The pairs after `key` was set to `value`.
    pub open spec fn with(self, key: Seq<char>, value: V) -> Seq<(Seq<char>, V)> {
        let i = key_position(self.pairs(), key, 0);
        if i < self.pairs().len() {
            self.pairs().update(i, (key, value))
        } else {
            self.pairs().push((key, value))
        }
    }

    pub fn new() -> (r: Self)
        ensures
            r.pairs() == Seq::<(Seq<char>, V)>::empty(),
    {
        let r = TextMap { table: Table { entries: Vec::new(), buckets: HashMap::new() } };
        assert(r.pairs() =~= Seq::<(Seq<char>, V)>::empty());
        r
    }

    pub fn len(&self) -> (r: usize)
        ensures
            r == self.pairs().len(),
    {
        self.table.entries.len()
    }

    fn position(&self, key: &str) -> (r: usize)
        ensures
            r == key_position(self.pairs(), key@, 0),
            r <= self.table.entries@.len(),
    {
        proof {
            use_type_invariant(self);
        }
        find_in(&self.table, key)
    }

    pub fn get(&self, key: &str) -> (r: Option<&V>)
        ensures
            match r {
                Some(v) => self.spec_get(key@) == Some(*v),
                None => self.spec_get(key@) is None,
            },
    {
        let i = self.position(key);
        if i < self.table.entries.len() {
            Some(&self.table.entries[i].1)
        } else {
            None
        }
    }

    pub fn contains(&self, key: &str) -> (r: bool)
        ensures
            r == self.spec_get(key@) is Some,
    {
        let i = self.position(key);
        i < self.table.entries.len()
    }

    /// The key at position `i` of the insertion order.
    pub fn key_at(&self, i: usize) -> (r: &str)
        requires
            i < self.pairs().len(),
        ensures
            r@ == self.pairs()[i as int].0,
    {
        self.table.entries[i].0.as_str()
    }

    /// The value at position `i` of the insertion order.
    pub fn value_at(&self, i: usize) -> (r: &V)
        requires
            i < self.pairs().len(),
        ensures
            *r == self.pairs()[i as int].1,
    {
        &self.table.entries[i].1
    }

    /// No key stands twice among the pairs.
    pub fn note_keys_differ(&self)
        ensures
            forall|i: int, j: int|
                0 <= i < j < self.pairs().len() ==> (#[trigger] self.pairs()[i]).0 != (
                #[trigger] self.pairs()[j]).0,
    {
        proof {
            use_type_invariant(self);
            assert forall|i: int, j: int| 0 <= i < j < self.pairs().len() implies (
            #[trigger] self.pairs()[i]).0 != (#[trigger] self.pairs()[j]).0 by {
                assert(self.table.entries@[i].0@ != self.table.entries@[j].0@);
            }
        }
    }

    /// Replaces the value at position `i` of the insertion order.
    pub fn set_at(&mut self, i: usize, value: V)
        requires
            i < old(self).pairs().len(),
        ensures
            final(self).pairs() == old(self).pairs().update(
                i as int,
                (old(self).pairs()[i as int].0, value),
            ),
    {
        proof {
            use_type_invariant(&*self);
        }
        let ghost before = self.pairs();
        let mut table = Table { entries: Vec::new(), buckets: HashMap::new() };
        std::mem::swap(&mut table, &mut self.table);
        set_value(&mut table, i, value);
        self.table = table;
        assert(self.pairs() =~= before.update(i as int, (before[i as int].0, value)));
    }

    pub fn insert(&mut self, key: &str, value: V)
        ensures
            final(self).pairs() == old(self).with(key@, value),
    {
        proof {
            use_type_invariant(&*self);
        }
        let ghost before = self.pairs();
        let mut table = Table { entries: Vec::new(), buckets: HashMap::new() };
        std::mem::swap(&mut table, &mut self.table);
        let i = find_in(&table, key);
        proof {
            lemma_key_position(before, key@, 0);
        }
        if i < table.entries.len() {
            set_value(&mut table, i, value);
        } else {
            assert forall|j: int| 0 <= j < table.entries@.len() implies (#[trigger] table.entries@[j]).0@
                != key@ by {
                assert(before[j].0 == table.entries@[j].0@);
            }
            add_entry(&mut table, key, value);
        }
        self.table = table;
        proof {
            assert(self.pairs() =~= if i < before.len() {
                before.update(i as int, (key@, value))
            } else {
                before.push((key@, value))
            });
        }
    }
}

/// A value that is found stands among the pairs under its key.
pub proof fn lemma_get_pair<V>(m: TextMap<V>, key: Seq<char>)
    requires
        m.spec_get(key) is Some,
    ensures
        0 <= key_position(m.pairs(), key, 0) < m.pairs().len(),
        m.pairs()[key_position(m.pairs(), key, 0)] == (key, m.spec_get(key)->0),
{
    lemma_key_position(m.pairs(), key, 0);
}

/// Setting a key changes what is found under that key and nothing else.
pub proof fn lemma_get_with<V>(before: TextMap<V>, after: TextMap<V>, key: Seq<char>, value: V)
    requires
        after.pairs() == before.with(key, value),
    ensures
        forall|k: Seq<char>| #[trigger]
            after.spec_get(k) == if k == key {
                Some(value)
            } else {
                before.spec_get(k)
            },
{
    let a = before.pairs();
    let b = after.pairs();
    lemma_key_position(a, key, 0);
    assert forall|k: Seq<char>| true implies #[trigger] after.spec_get(k) == (if k == key {
        Some(value)
    } else {
        before.spec_get(k)
    }) by {
        lemma_key_position(a, k, 0);
        if key_position(a, key, 0) < a.len() {
            lemma_position_same_keys(a, b, k);
        } else {
            lemma_position_push(a, key, value, k);
        }
    }
}

/// The list under a key; empty where the key is absent.
pub open spec fn list_at<T>(m: TextMap<Vec<T>>, key: Seq<char>) -> Seq<T> {
    match m.spec_get(key) {
        Some(v) => v@,
        None => Seq::empty(),
    }
}

impl<T> TextMap<Vec<T>> {
    /// Appends an item to the list under `key`, which is created where it is absent.
    pub fn push_item(&mut self, key: &str, item: T)
        ensures
            forall|k: Seq<char>| #[trigger]
                list_at(*final(self), k) == if k == key@ {
                    list_at(*old(self), k).push(item)
                } else {
                    list_at(*old(self), k)
                },
            forall|k: Seq<char>| #[trigger]
                final(self).spec_get(k) is Some <==> k == key@ || old(self).spec_get(k) is Some,
            final(self).pairs().len() == old(self).pairs().len() + (if old(self).spec_get(
                key@,
            ) is Some {
                0int
            } else {
                1
            }),
    {
        proof {
            use_type_invariant(&*self);
        }
        let ghost before = *self;
        let mut table = Table { entries: Vec::new(), buckets: HashMap::new() };
        std::mem::swap(&mut table, &mut self.table);
        let i = find_in(&table, key);
        proof {
            lemma_key_position(before.pairs(), key@, 0);
        }
        let ghost p0 = before.pairs();
        if i < table.entries.len() {
            push_value(&mut table, i, item);
            proof {
                assert forall|k: Seq<char>| true implies #[trigger] key_position(
                    table_pairs(table),
                    k,
                    0,
                ) == key_position(p0, k, 0) by {
                    lemma_position_same_keys(p0, table_pairs(table), k);
                }
            }
        } else {
            assert forall|j: int| 0 <= j < table.entries@.len() implies (#[trigger] table.entries@[j]).0@
                != key@ by {
                assert(before.pairs()[j].0 == table.entries@[j].0@);
            }
            let mut list: Vec<T> = Vec::new();
            list.push(item);
            let ghost l = list;
            add_entry(&mut table, key, list);
            proof {
                assert forall|k: Seq<char>| true implies #[trigger] key_position(
                    table_pairs(table),
                    k,
                    0,
                ) == (if k == key@ {
                    p0.len() as int
                } else if key_position(p0, k, 0) < p0.len() {
                    key_position(p0, k, 0)
                } else {
                    (p0.len() + 1) as int
                }) by {
                    lemma_position_push(p0, key@, l, k);
                }
                assert(l@ =~= Seq::<T>::empty().push(item));
            }
        }
        self.table = table;
        proof {
            assert(self.pairs() == table_pairs(table));
            assert forall|k: Seq<char>| true implies #[trigger] list_at(*self, k) == (if k == key@ {
                list_at(before, k).push(item)
            } else {
                list_at(before, k)
            }) by {
                lemma_key_position(p0, k, 0);
            }
            assert forall|k: Seq<char>| true implies (#[trigger] self.spec_get(k) is Some <==> (k
                == key@ || before.spec_get(k) is Some)) by {
                lemma_key_position(p0, k, 0);
            }
        }
    }
}

pub proof fn lemma_position_same_keys<V>(
    a: Seq<(Seq<char>, V)>,
    b: Seq<(Seq<char>, V)>,
    key: Seq<char>,
)
    requires
        a.len() == b.len(),
        forall|j: int| 0 <= j < a.len() ==> (#[trigger] a[j]).0 == b[j].0,
    ensures
        key_position(a, key, 0) == key_position(b, key, 0),
{
    lemma_key_position(a, key, 0);
    lemma_key_position(b, key, 0);
    let i = key_position(a, key, 0);
    let j = key_position(b, key, 0);
    if i < j {
        assert(a[i].0 == b[i].0);
    } else if j < i {
        assert(a[j].0 == b[j].0);
    }
}

proof fn lemma_position_push<V>(a: Seq<(Seq<char>, V)>, new: Seq<char>, v: V, key: Seq<char>)
    requires
        key_position(a, new, 0) == a.len(),
    ensures
        key_position(a.push((new, v)), key, 0) == (if key == new {
            a.len() as int
        } else if key_position(a, key, 0) < a.len() {
            key_position(a, key, 0)
        } else {
            (a.len() + 1) as int
        }),
{
    let b = a.push((new, v));
    lemma_key_position(a, key, 0);
    lemma_key_position(a, new, 0);
    lemma_key_position(b, key, 0);
    let i = key_position(a, key, 0);
    let j = key_position(b, key, 0);
    assert(forall|k: int| 0 <= k < a.len() ==> a[k] == #[trigger] b[k]);
    assert(b[a.len() as int].0 == new);
    if j < a.len() {
        assert(a[j].0 == key);
    }
    if i < a.len() {
        assert(b[i].0 == key);
    }
}

fn push_value<T>(t: &mut Table<Vec<T>>, i: usize, item: T)
    requires
        sound(*old(t)),
        i < old(t).entries@.len(),
    ensures
        sound(*final(t)),
        table_pairs(*final(t)).len() == table_pairs(*old(t)).len(),
        forall|j: int|
            0 <= j < table_pairs(*old(t)).len() ==> (#[trigger] table_pairs(*final(t))[j]).0
                == table_pairs(*old(t))[j].0,
        forall|j: int|
            0 <= j < table_pairs(*old(t)).len() && j != i ==> (#[trigger] table_pairs(
                *final(t),
            )[j]).1 == table_pairs(*old(t))[j].1,
        table_pairs(*final(t))[i as int].1@ == table_pairs(*old(t))[i as int].1@.push(item),
{
    let ghost before = *t;
    t.entries[i].1.push(item);
    proof {
        assert(t.buckets == before.buckets);
        assert forall|j: int| 0 <= j < t.entries@.len() implies (#[trigger] t.entries@[j]).0@
            == before.entries@[j].0@ by {}
        assert forall|j: int| 0 <= j < t.entries@.len() implies #[trigger] indexed(*t, j) by {
            assert(indexed(before, j));
        }
    }
}

spec fn table_pairs<V>(t: Table<V>) -> Seq<(Seq<char>, V)> {
    t.entries@.map_values(|e: (String, V)| (e.0@, e.1))
}

fn find_in<V>(t: &Table<V>, key: &str) -> (r: usize)
    requires
        sound(*t),
    ensures
        r == key_position(table_pairs(*t), key@, 0),
        r <= t.entries@.len(),
{
    let h = bucket_number(key);
    let ghost pairs = table_pairs(*t);
    let n: usize = t.entries.len();
    proof {
        lemma_key_position(pairs, key@, 0);
    }
    let ghost p = key_position(pairs, key@, 0);
    match t.buckets.get(&h) {
        None => {
            assert(p == n) by {
                if p < n {
                    assert(pairs[p].0 == key@);
                    assert(indexed(*t, p));
                }
            }
            n
        },
        Some(list) => {
            let mut k: usize = 0;
            while k < list.len()
                invariant
                    sound(*t),
                    n == t.entries@.len(),
                    k <= list@.len(),
                    t.buckets@.contains_key(h) && t.buckets@[h] == *list,
                    pairs == table_pairs(*t),
                    p == key_position(pairs, key@, 0),
                    0 <= p <= pairs.len(),
                    p < n ==> pairs[p].0 == key@,
                    forall|j: int| 0 <= j < p ==> (#[trigger] pairs[j]).0 != key@,
                    forall|j: int| 0 <= j < k ==> t.entries@[#[trigger] list@[j] as int].0@ != key@,
                decreases list@.len() - k,
            {
                let i = list[k];
                assert(t.buckets@[h]@[k as int] < n);
                if text::same(t.entries[i].0.as_str(), key) {
                    assert(pairs[i as int].0 == key@);
                    assert(p == i) by {
                        if p < i {
                            assert(t.entries@[p].0@ != t.entries@[i as int].0@);
                        }
                    }
                    return i;
                }
                k = k + 1;
            }
            assert(p == n) by {
                if p < n {
                    assert(pairs[p].0 == key@);
                    assert(indexed(*t, p));
                    let k = choose|k: int| 0 <= k < list@.len() && list@[k] == p as usize;
                    assert(t.entries@[list@[k] as int].0@ != key@);
                }
            }
            n
        },
    }
}

fn set_value<V>(t: &mut Table<V>, i: usize, value: V)
    requires
        sound(*old(t)),
        i < old(t).entries@.len(),
    ensures
        sound(*final(t)),
        table_pairs(*final(t)) == table_pairs(*old(t)).update(
            i as int,
            (old(t).entries@[i as int].0@, value),
        ),
{
    let ghost before = *t;
    let key = t.entries[i].0.clone();
    t.entries.set(i, (key, value));
    proof {
        assert forall|j: int| 0 <= j < t.entries@.len() implies (#[trigger] t.entries@[j]).0@
            == before.entries@[j].0@ by {}
        assert forall|j: int| 0 <= j < t.entries@.len() implies #[trigger] indexed(*t, j) by {
            assert(indexed(before, j));
        }
        assert(table_pairs(*t) =~= table_pairs(before).update(
            i as int,
            (before.entries@[i as int].0@, value),
        ));
    }
}

fn add_entry<V>(t: &mut Table<V>, key: &str, value: V)
    requires
        sound(*old(t)),
        forall|j: int|
            0 <= j < old(t).entries@.len() ==> (#[trigger] old(t).entries@[j]).0@ != key@,
    ensures
        sound(*final(t)),
        table_pairs(*final(t)) == table_pairs(*old(t)).push((key@, value)),
{
    let ghost before = *t;
    let h = bucket_number(key);
    let n: usize = t.entries.len();
    t.entries.push((text::copy_of(key), value));
    let mut list: Vec<usize> = match t.buckets.remove(&h) {
        Some(list) => list,
        None => Vec::new(),
    };
    let ghost kept = list@;
    list.push(n);
    t.buckets.insert(h, list);
    proof {
        assert forall|j: int| 0 <= j < t.entries@.len() implies #[trigger] indexed(*t, j) by {
            if j < n {
                assert(indexed(before, j));
                let b = bucket_of(before.entries@[j].0@);
                if b == h {
                    let k = choose|k: int| 0 <= k < kept.len() && kept[k] == j as usize;
                    assert(t.buckets@[h]@[k] == j as usize);
                }
            } else {
                assert(t.buckets@[h]@[kept.len() as int] == n);
            }
        }
        assert forall|b: u64, k: int|
            t.buckets@.contains_key(b) && 0 <= k < t.buckets@[b]@.len() implies (
        #[trigger] t.buckets@[b]@[k]) < t.entries@.len() by {
            if b == h {
                if k < kept.len() {
                    assert(before.buckets@[h]@[k] < before.entries@.len());
                }
            } else {
                assert(before.buckets@[b]@[k] < before.entries@.len());
            }
        }
        assert(table_pairs(*t) =~= table_pairs(before).push((key@, value)));
    }
}

} // verus!
