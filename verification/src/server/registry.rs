//! Values by name, in the order in which they became known.
use vstd::prelude::*;

use crate::text;

verus! {

pub struct Registry<V> {
    pub entries: Vec<(String, V)>,
}

/// The position of a name, or the number of entries.
pub open spec fn position_of<V>(entries: Seq<(String, V)>, key: Seq<char>, from: int) -> int
    decreases entries.len() - from,
{
    if from < 0 || from >= entries.len() {
        entries.len() as int
    } else if entries[from].0@ == key {
        from
    } else {
        position_of(entries, key, from + 1)
    }
}

proof fn lemma_position<V>(entries: Seq<(String, V)>, key: Seq<char>, from: int)
    requires
        0 <= from <= entries.len(),
    ensures
        ({
            let p = position_of(entries, key, from);
            &&& from <= p <= entries.len()
            &&& p < entries.len() ==> entries[p].0@ == key
            &&& forall|j: int| from <= j < p ==> (#[trigger] entries[j]).0@ != key
        }),
    decreases entries.len() - from,
{
    if from < entries.len() && entries[from].0@ != key {
        lemma_position(entries, key, from + 1);
    }
}

impl<V> Registry<V> {
    pub open spec fn view(&self) -> Map<Seq<char>, V> {
        Map::new(
            |k: Seq<char>| position_of(self.entries@, k, 0) < self.entries@.len(),
            |k: Seq<char>| self.entries@[position_of(self.entries@, k, 0)].1,
        )
    }

    /// No name is there twice.
    pub open spec fn well_formed(self) -> bool {
        forall|i: int, j: int|
            0 <= i < j < self.entries@.len() ==> (#[trigger] self.entries@[i]).0@ != (
            #[trigger] self.entries@[j]).0@
    }

    pub fn new() -> (r: Self)
        ensures
            r.well_formed(),
            r@ == Map::<Seq<char>, V>::empty(),
    {
        let r = Registry { entries: Vec::new() };
        assert(r@ =~= Map::<Seq<char>, V>::empty());
        r
    }

    fn find(&self, key: &str) -> (r: usize)
        ensures
            r == position_of(self.entries@, key@, 0),
            r <= self.entries@.len(),
    {
        let n: usize = self.entries.len();
        let mut i: usize = 0;
        while i < n
            invariant
                n == self.entries@.len(),
                i <= n,
                position_of(self.entries@, key@, 0) == position_of(self.entries@, key@, i as int),
            decreases n - i,
        {
            if text::same(&self.entries[i].0, key) {
                return i;
            }
            i = i + 1;
        }
        n
    }

    pub fn get(&self, key: &str) -> (r: Option<&V>)
        ensures
            match r {
                Some(v) => self@.dom().contains(key@) && self@[key@] == *v,
                None => !self@.dom().contains(key@),
            },
    {
        let at = self.find(key);
        if at < self.entries.len() {
            Some(&self.entries[at].1)
        } else {
            None
        }
    }

    pub fn insert(&mut self, key: &str, value: V)
        requires
            old(self).well_formed(),
        ensures
            final(self).well_formed(),
            final(self)@ == old(self)@.insert(key@, value),
    {
        let ghost before = self.entries@;
        let at = self.find(key);
        if at < self.entries.len() {
            self.entries.set(at, (text::copy_of(key), value));
        } else {
            self.entries.push((text::copy_of(key), value));
        }
        proof {
            let after = self.entries@;
            lemma_position(before, key@, 0);
            let wanted = old(self)@.insert(key@, value);
            assert forall|k: Seq<char>|
                #[trigger] self@.dom().contains(k) == wanted.dom().contains(k) && (
                self@.dom().contains(k) ==> self@[k] == wanted[k]) by {
                lemma_position(before, k, 0);
                lemma_position(after, k, 0);
                let x = position_of(before, k, 0);
                let y = position_of(after, k, 0);
                if k == key@ {
                    assert(after[at as int].0@ == k);
                    if y < at {
                        assert(before[y].0@ == k);
                    }
                } else if x < before.len() {
                    assert(after[x].0@ == k);
                    if y < x {
                        assert(before[y].0@ == k);
                    }
                } else if y < after.len() {
                    assert(y != at);
                    assert(before[y].0@ == k);
                }
            }
            assert(self@.dom() =~= wanted.dom());
            assert(self@ =~= wanted);
        }
    }

    /// Takes a value out.
    pub fn remove(&mut self, key: &str) -> (r: Option<V>)
        requires
            old(self).well_formed(),
        ensures
            final(self).well_formed(),
            final(self)@ == old(self)@.remove(key@),
            match r {
                Some(v) => old(self)@.dom().contains(key@) && old(self)@[key@] == v,
                None => !old(self)@.dom().contains(key@),
            },
    {
        let ghost before = self.entries@;
        let at = self.find(key);
        proof {
            lemma_position(before, key@, 0);
        }
        if at >= self.entries.len() {
            assert(self@ =~= old(self)@.remove(key@));
            return None;
        }
        let e = self.entries.remove(at);
        proof {
            let after = self.entries@;
            let wanted = old(self)@.remove(key@);
            assert forall|k: Seq<char>|
                #[trigger] self@.dom().contains(k) == wanted.dom().contains(k) && (
                self@.dom().contains(k) ==> self@[k] == wanted[k]) by {
                lemma_position(before, k, 0);
                lemma_position(after, k, 0);
                let x = position_of(before, k, 0);
                let y = position_of(after, k, 0);
                let moved = if x < at {
                    x
                } else {
                    x - 1
                };
                let origin = if y < at {
                    y
                } else {
                    y + 1
                };
                if k == key@ {
                    if y < after.len() {
                        assert(before[origin].0@ == k);
                        assert(before[at as int].0@ == k);
                    }
                } else if x < before.len() {
                    assert(after[moved].0@ == k);
                    if y < moved {
                        assert(before[origin].0@ == k);
                    }
                } else if y < after.len() {
                    assert(before[origin].0@ == k);
                }
            }
            assert(self@.dom() =~= wanted.dom());
            assert(self@ =~= wanted);
        }
        Some(e.1)
    }

    /// The names.
    pub fn keys(&self) -> (r: Vec<String>)
        ensures
            r@.len() == self.entries@.len(),
            forall|i: int| 0 <= i < r@.len() ==> (#[trigger] r@[i])@ == self.entries@[i].0@,
            forall|k: Seq<char>|
                self@.dom().contains(k) <==> #[trigger] text::texts(r@).contains(k),
    {
        let n: usize = self.entries.len();
        let mut r: Vec<String> = Vec::new();
        let mut i: usize = 0;
        while i < n
            invariant
                n == self.entries@.len(),
                i <= n,
                r@.len() == i,
                forall|j: int| 0 <= j < i ==> (#[trigger] r@[j])@ == self.entries@[j].0@,
            decreases n - i,
        {
            r.push(text::copy_of(&self.entries[i].0));
            i = i + 1;
        }
        proof {
            let keys = text::texts(r@);
            assert forall|k: Seq<char>| self@.dom().contains(k) <==> #[trigger] keys.contains(k) by {
                lemma_position(self.entries@, k, 0);
                let p = position_of(self.entries@, k, 0);
                if p < self.entries@.len() {
                    assert(keys[p] == k);
                }
                if keys.contains(k) {
                    let i = keys.index_of(k);
                    assert(self.entries@[i].0@ == k);
                }
            }
        }
        r
    }
}

} // verus!
