//! String interning for one index.
use vstd::prelude::*;

use crate::text;
use crate::textmap::TextMap;

verus! {

/// Index into a [`StringPool`]. 32 bits keep the entries compact.
#[derive(Debug, Clone, Copy, PartialEq, Eq, Hash, PartialOrd, Ord, Structural)]
pub struct StrId(pub u32);

impl StrId {
    pub fn as_usize(self) -> (r: usize)
        ensures
            r == self.0,
    {
        self.0 as usize
    }
}

/// Interner that belongs to one index.
pub struct StringPool {
    strings: Vec<String>,
    lookup: TextMap<u32>,
}

/// Interning `value` takes the pool from `before` to `after` and gives `id`.
pub open spec fn interns(before: StringPool, after: StringPool, value: Seq<char>, id: StrId) -> bool {
    &&& match before.id_of(value) {
        Some(known) => id.0 == known && after@ == before@,
        None => id.0 == before@.len() && after@ == before@.push(value),
    }
    &&& forall|s: Seq<char>| #[trigger]
        after.id_of(s) == if s == value {
            Some(id.0)
        } else {
            before.id_of(s)
        }
    &&& id.0 < after@.len()
    &&& after@[id.0 as int] == value
}

/// Interning a string again gives the id it had and adds nothing.
pub proof fn interning_again_gives_the_same_id(
    a: StringPool,
    b: StringPool,
    c: StringPool,
    value: Seq<char>,
    first: StrId,
    second: StrId,
)
    requires
        interns(a, b, value, first),
        interns(b, c, value, second),
    ensures
        first == second,
        c@ == b@,
{
}

/// Two different strings have different ids.
pub proof fn different_strings_have_different_ids(
    a: StringPool,
    b: StringPool,
    c: StringPool,
    left: Seq<char>,
    right: Seq<char>,
    first: StrId,
    second: StrId,
)
    requires
        left != right,
        interns(a, b, left, first),
        interns(b, c, right, second),
    ensures
        first != second,
{
    assert(c@[first.0 as int] == left);
}

/// An id keeps its string when further strings are interned.
pub proof fn ids_are_stable(a: StringPool, b: StringPool, value: Seq<char>, id: StrId, old_id: StrId)
    requires
        interns(a, b, value, id),
        old_id.0 < a@.len(),
    ensures
        old_id.0 < b@.len(),
        b@[old_id.0 as int] == a@[old_id.0 as int],
{
}

impl StringPool {
    #[verifier::type_invariant]
    spec fn inv(self) -> bool {
        forall|k: int|
            0 <= k < self.lookup.pairs().len() ==> {
                let pair = #[trigger] self.lookup.pairs()[k];
                pair.1 < self.strings@.len() && self.strings@[pair.1 as int]@ == pair.0
            }
    }

    /// The interned strings; a string's position is its id.
    pub closed spec fn view(&self) -> Seq<Seq<char>> {
        text::texts(self.strings@)
    }

    /// The id that interning a string again gives back.
    pub closed spec fn id_of(&self, value: Seq<char>) -> Option<u32> {
        self.lookup.spec_get(value)
    }

    pub fn new() -> (r: Self)
        ensures
            r@ == Seq::<Seq<char>>::empty(),
            forall|s: Seq<char>| #[trigger] r.id_of(s) is None,
    {
        let r = StringPool { strings: Vec::new(), lookup: TextMap::new() };
        assert(r@ =~= Seq::<Seq<char>>::empty());
        r
    }

    /// A pool that holds strings without knowing their ids, as one that was just read back.
    pub fn from_strings(strings: Vec<String>) -> (r: Self)
        ensures
            r@ == text::texts(strings@),
            forall|s: Seq<char>| #[trigger] r.id_of(s) is None,
    {
        StringPool { strings, lookup: TextMap::new() }
    }

    pub fn len(&self) -> (r: usize)
        ensures
            r == self@.len(),
    {
        self.strings.len()
    }

    pub fn is_empty(&self) -> (r: bool)
        ensures
            r == (self@.len() == 0),
    {
        self.strings.len() == 0
    }

    /// Interns a string and returns its stable id. The empty string is allowed.
    pub fn intern(&mut self, value: &str) -> (r: StrId)
        requires
            old(self)@.len() <= u32::MAX,
        ensures
            interns(*old(self), *final(self), value@, r),
    {
        proof {
            use_type_invariant(&*self);
        }
        let ghost before = *self;
        let known: Option<u32> = match self.lookup.get(value) {
            Some(id) => Some(*id),
            None => None,
        };
        if let Some(id) = known {
            proof {
                crate::textmap::lemma_get_pair(self.lookup, value@);
            }
            return StrId(id);
        }
        let id: u32 = self.strings.len() as u32;
        let mut strings: Vec<String> = Vec::new();
        let mut lookup: TextMap<u32> = TextMap::new();
        std::mem::swap(&mut lookup, &mut self.lookup);
        std::mem::swap(&mut strings, &mut self.strings);
        strings.push(text::copy_of(value));
        lookup.insert(value, id);
        proof {
            crate::textmap::lemma_get_with(before.lookup, lookup, value@, id);
            assert forall|k: int| 0 <= k < lookup.pairs().len() implies {
                let pair = #[trigger] lookup.pairs()[k];
                pair.1 < strings@.len() && strings@[pair.1 as int]@ == pair.0
            } by {
                if k < before.lookup.pairs().len() {
                    let pair = before.lookup.pairs()[k];
                    assert(pair.1 < before.strings@.len());
                }
            }
        }
        self.strings = strings;
        self.lookup = lookup;
        proof {
            assert(self@ =~= before@.push(value@));
        }
        StrId(id)
    }

    /// Interns where there is a string.
    pub fn intern_opt(&mut self, value: Option<&str>) -> (r: Option<StrId>)
        requires
            old(self)@.len() <= u32::MAX,
        ensures
            match value {
                None => r is None && final(self)@ == old(self)@ && (forall|s: Seq<char>| #[trigger]
                    final(self).id_of(s) == old(self).id_of(s)),
                Some(v) => r is Some && interns(*old(self), *final(self), v@, r->0),
            },
    {
        match value {
            None => None,
            Some(v) => Some(self.intern(v)),
        }
    }

    /// The string with an id.
    pub fn get(&self, id: StrId) -> (r: &str)
        requires
            id.0 < self@.len(),
        ensures
            r@ == self@[id.0 as int],
    {
        self.strings[id.as_usize()].as_str()
    }

    pub fn get_opt(&self, id: Option<StrId>) -> (r: Option<&str>)
        requires
            id is Some ==> (id->0).0 < self@.len(),
        ensures
            match id {
                None => r is None,
                Some(i) => r is Some && r->0@ == self@[i.0 as int],
            },
    {
        match id {
            None => None,
            Some(i) => Some(self.get(i)),
        }
    }
}

} // verus!
