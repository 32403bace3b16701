//! Compact index of classes, their members, enum values and parents.
use std::collections::HashSet;
use std::collections::VecDeque;
use vstd::prelude::*;

use crate::text;
use crate::textmap::list_at;
use crate::textmap::TextMap;

verus! {

broadcast use vstd::std_specs::hash::group_hash_axioms;

// ---------------------------------------------------------------------------
// String pool
// ---------------------------------------------------------------------------
/// Index into a [`StringPool`]; 0 stands for no text.
#[derive(Debug, Clone, Copy, PartialEq, Eq, Hash, Structural)]
pub struct StrId(pub u32);

impl Default for StrId {
    fn default() -> (r: Self)
        ensures
            r == StrId(0),
    {
        StrId(0)
    }
}

impl StrId {
    /// The id of no text.
    pub fn none() -> (r: Self)
        ensures
            r == StrId(0),
    {
        StrId(0)
    }

    pub fn is_none(self) -> (r: bool)
        ensures
            r == (self.0 == 0),
    {
        self.0 == 0
    }
}

/// Interner for trimmed text. Slot 0 holds the empty text.
pub struct StringPool {
    strings: Vec<String>,
    lookup: TextMap<u32>,
}

impl Default for StringPool {
    fn default() -> (r: Self)
        ensures
            r@ == seq![Seq::<char>::empty()],
            forall|s: Seq<char>| #[trigger] r.id_of(s) is None,
    {
        Self::new()
    }
}

/// The text under an id in a list of strings; no text under 0 and beyond the end.
pub open spec fn text_in(strings: Seq<Seq<char>>, id: StrId) -> Option<Seq<char>> {
    if id.0 == 0 || id.0 >= strings.len() {
        None
    } else {
        Some(strings[id.0 as int])
    }
}

/// What a pool keeps of a text: its trimmed form, where that is not empty.
pub open spec fn kept(s: Seq<char>) -> Option<Seq<char>> {
    let t = text::trimmed(s);
    if t.len() == 0 {
        None
    } else {
        Some(t)
    }
}

pub open spec fn kept_opt(s: Option<Seq<char>>) -> Option<Seq<char>> {
    match s {
        Some(t) => kept(t),
        None => None,
    }
}

/// The id stands for the text; no text has the id 0.
pub open spec fn stands_for(strings: Seq<Seq<char>>, id: StrId, text: Option<Seq<char>>) -> bool {
    text_in(strings, id) == text && (text is None ==> id.0 == 0)
}

/// `b` continues `a`: every id of `a` keeps its text.
pub open spec fn extends(a: Seq<Seq<char>>, b: Seq<Seq<char>>) -> bool {
    a.len() <= b.len() && (forall|i: int| 0 <= i < a.len() ==> #[trigger] b[i] == a[i])
}

impl StringPool {
    #[verifier::type_invariant]
    spec fn inv(self) -> bool {
        &&& self.strings@.len() >= 1
        &&& forall|k: int|
            0 <= k < self.lookup.pairs().len() ==> {
                let pair = #[trigger] self.lookup.pairs()[k];
                0 < pair.1 < self.strings@.len() && self.strings@[pair.1 as int]@ == pair.0
            }
    }

    /// All strings; a string's position is its id.
    pub closed spec fn view(&self) -> Seq<Seq<char>> {
        text::texts(self.strings@)
    }

    pub closed spec fn id_of(&self, value: Seq<char>) -> Option<u32> {
        self.lookup.spec_get(value)
    }

    /// Every text is known by its id, so that none stands there twice.
    pub open spec fn knows_all(&self) -> bool {
        forall|i: int|
            0 < i < self@.len() ==> self.id_of(#[trigger] self@[i]) == Some(i as u32)
    }

    pub fn new() -> (r: Self)
        ensures
            r@ == seq![Seq::<char>::empty()],
            forall|s: Seq<char>| #[trigger] r.id_of(s) is None,
    {
        let mut strings: Vec<String> = Vec::new();
        strings.push(String::new());
        let r = StringPool { strings, lookup: TextMap::new() };
        assert(r@ =~= seq![Seq::<char>::empty()]);
        r
    }

    /// A pool that holds strings without knowing their ids, as one that was just read back.
    pub fn from_strings(strings: Vec<String>) -> (r: Self)
        requires
            strings@.len() >= 1,
        ensures
            r@ == text::texts(strings@),
            forall|s: Seq<char>| #[trigger] r.id_of(s) is None,
    {
        StringPool { strings, lookup: TextMap::new() }
    }

    /// Number of strings, the empty one in slot 0 among them.
    pub fn count(&self) -> (r: usize)
        ensures
            r == self@.len(),
            r >= 1,
    {
        proof {
            use_type_invariant(self);
        }
        self.strings.len()
    }

    /// Interns the trimmed text; blank text has the id 0.
    pub fn intern(&mut self, text: &str) -> (r: StrId)
        requires
            old(self)@.len() <= u32::MAX,
        ensures
            stands_for(final(self)@, r, kept(text@)),
            extends(old(self)@, final(self)@),
            old(self).knows_all() ==> final(self).knows_all(),
            ({
                let t = text::trimmed(text@);
                if t.len() == 0 {
                    r.0 == 0 && final(self)@ == old(self)@ && (forall|s: Seq<char>| #[trigger]
                        final(self).id_of(s) == old(self).id_of(s))
                } else {
                    &&& match old(self).id_of(t) {
                        Some(id) => r.0 == id && final(self)@ == old(self)@,
                        None => r.0 == old(self)@.len() && final(self)@ == old(self)@.push(t),
                    }
                    &&& forall|s: Seq<char>| #[trigger]
                        final(self).id_of(s) == if s == t {
                            Some(r.0)
                        } else {
                            old(self).id_of(s)
                        }
                }
            }),
    {
        proof {
            use_type_invariant(&*self);
        }
        let ghost before = *self;
        let t = text::trim(text);
        if t.is_empty() {
            return StrId(0);
        }
        let known: Option<u32> = match self.lookup.get(t) {
            Some(id) => Some(*id),
            None => None,
        };
        if let Some(id) = known {
            proof {
                crate::textmap::lemma_get_pair(self.lookup, t@);
            }
            return StrId(id);
        }
        let id: u32 = self.strings.len() as u32;
        let mut fresh = StringPool::new();
        std::mem::swap(&mut fresh, self);
        let StringPool { strings: s, lookup: l } = fresh;
        let mut strings = s;
        let mut lookup = l;
        strings.push(text::copy_of(t));
        lookup.insert(t, id);
        proof {
            crate::textmap::lemma_get_with(before.lookup, lookup, t@, id);
            assert forall|k: int| 0 <= k < lookup.pairs().len() implies {
                let pair = #[trigger] lookup.pairs()[k];
                0 < pair.1 < strings@.len() && strings@[pair.1 as int]@ == pair.0
            } by {
                if k < before.lookup.pairs().len() {
                    let pair = before.lookup.pairs()[k];
                    assert(pair.1 < before.strings@.len());
                }
            }
        }
        *self = StringPool { strings, lookup };
        proof {
            assert(self@ =~= before@.push(t@));
            if before.knows_all() {
                assert forall|i: int| 0 < i < self@.len() implies self.id_of(#[trigger] self@[i])
                    == Some(i as u32) by {
                    if i < before@.len() {
                        assert(before.id_of(before@[i]) == Some(i as u32));
                    }
                }
            }
        }
        StrId(id)
    }

    pub fn get(&self, id: StrId) -> (r: Option<&str>)
        ensures
            text::opt_str(r) == text_in(self@, id),
    {
        if id.is_none() || id.0 as usize >= self.strings.len() {
            return None;
        }
        Some(self.strings[id.0 as usize].as_str())
    }

    /// Forgets which ids the strings have; the strings stay.
    pub fn clear_lookup(&mut self)
        ensures
            final(self)@ == old(self)@,
            forall|s: Seq<char>| #[trigger] final(self).id_of(s) is None,
    {
        proof {
            use_type_invariant(&*self);
        }
        let mut fresh = StringPool::new();
        std::mem::swap(&mut fresh, self);
        let StringPool { strings, lookup: _l } = fresh;
        *self = StringPool { strings, lookup: TextMap::new() };
    }
}

/// A text that a pool gives back is what was put in, trimmed.
pub proof fn pool_gives_back_trimmed_text(
    before: Seq<Seq<char>>,
    after: Seq<Seq<char>>,
    id: StrId,
    value: Seq<char>,
)
    requires
        text_in(before, id) == kept(value),
        kept(value) is Some,
        extends(before, after),
    ensures
        text_in(after, id) == Some(text::trimmed(value)),
{
}

// ---------------------------------------------------------------------------
// Entries
// ---------------------------------------------------------------------------
/// Entries `start .. start + len` belong to one class.
#[derive(Debug, Clone, Copy)]
pub struct MemberRange {
    pub class_id: i32,
    pub start: u32,
    pub len: u32,
}

#[derive(Debug, Clone, Copy, PartialEq, Eq, Structural)]
pub enum MemberKind {
    Function,
    Property,
    Event,
    Variable,
    Macro,
    Other,
}

impl MemberKind {
    pub open spec fn of_text(text: Seq<char>) -> MemberKind {
        if text == "function"@ {
            MemberKind::Function
        } else if text == "property"@ {
            MemberKind::Property
        } else if text == "event"@ {
            MemberKind::Event
        } else if text == "variable"@ || text == "field"@ {
            MemberKind::Variable
        } else if text == "macro"@ {
            MemberKind::Macro
        } else {
            MemberKind::Other
        }
    }

    pub fn from_text(text: &str) -> (r: Self)
        ensures
            r == MemberKind::of_text(text@),
    {
        if text::same(text, "function") {
            MemberKind::Function
        } else if text::same(text, "property") {
            MemberKind::Property
        } else if text::same(text, "event") {
            MemberKind::Event
        } else if text::same(text, "variable") || text::same(text, "field") {
            MemberKind::Variable
        } else if text::same(text, "macro") {
            MemberKind::Macro
        } else {
            MemberKind::Other
        }
    }
}

#[derive(Debug, Clone, Copy, PartialEq, Eq, Structural)]
pub enum MemberAccess {
    Public,
    Protected,
    Private,
    Impl,
}

pub const FLAG_STATIC: u8 = 1;

pub const FLAG_ACCESS_PUBLIC: u8 = 0;

pub const FLAG_ACCESS_PROTECTED: u8 = 2;

pub const FLAG_ACCESS_PRIVATE: u8 = 4;

pub const FLAG_ACCESS_IMPL: u8 = 6;

pub const FLAG_ACCESS_MASK: u8 = 6;

/// The access that the flags hold.
pub open spec fn access_of(flags: u8) -> MemberAccess {
    let bits = flags & FLAG_ACCESS_MASK;
    if bits == FLAG_ACCESS_PROTECTED {
        MemberAccess::Protected
    } else if bits == FLAG_ACCESS_PRIVATE {
        MemberAccess::Private
    } else if bits == FLAG_ACCESS_IMPL {
        MemberAccess::Impl
    } else {
        MemberAccess::Public
    }
}

fn decode_access(flags: u8) -> (r: MemberAccess)
    ensures
        r == access_of(flags),
{
    let bits: u8 = flags & FLAG_ACCESS_MASK;
    if bits == FLAG_ACCESS_PROTECTED {
        MemberAccess::Protected
    } else if bits == FLAG_ACCESS_PRIVATE {
        MemberAccess::Private
    } else if bits == FLAG_ACCESS_IMPL {
        MemberAccess::Impl
    } else {
        MemberAccess::Public
    }
}

#[derive(Debug, Clone, Copy)]
pub struct MemberEntry {
    pub owner_class_id: i32,
    pub name: StrId,
    pub return_type: StrId,
    pub detail: StrId,
    pub file_path_id: u32,
    pub line: u32,
    pub kind: MemberKind,
    pub flags: u8,
    pub _pad: [u8; 2],
}

impl MemberEntry {
    pub fn access(self) -> (r: MemberAccess)
        ensures
            r == access_of(self.flags),
    {
        decode_access(self.flags)
    }

    pub fn is_static(self) -> (r: bool)
        ensures
            r == (self.flags & FLAG_STATIC != 0),
    {
        self.flags & FLAG_STATIC != 0
    }

    pub fn line_number(self) -> (r: Option<usize>)
        ensures
            r == (if self.line != 0 {
                Some(self.line as usize)
            } else {
                None
            }),
    {
        if self.line != 0 {
            Some(self.line as usize)
        } else {
            None
        }
    }
}

#[derive(Debug, Clone, Copy)]
pub struct EnumValueEntry {
    pub owner_class_id: i32,
    pub name: StrId,
}

#[derive(Debug, Clone, Copy)]
pub struct ParentEntry {
    pub parent_class_id: i32,
    pub parent_name: StrId,
}

#[derive(Debug, Clone, Copy)]
#[allow(inconsistent_fields)]
pub enum HotMemberItem<'a> {
    Member { entry: &'a MemberEntry, class_rank: usize },
    EnumValue { entry: &'a EnumValueEntry, class_rank: usize },
}

/// The access that a word stands for.
pub open spec fn access_word(access: Option<Seq<char>>) -> MemberAccess {
    match access {
        None => MemberAccess::Public,
        Some(s) => {
            let t = text::trimmed(s);
            if t == "protected"@ {
                MemberAccess::Protected
            } else if t == "private"@ {
                MemberAccess::Private
            } else if t == "impl"@ {
                MemberAccess::Impl
            } else {
                MemberAccess::Public
            }
        },
    }
}

/// The flags hold both parts: the access can be read back, and so can the static bit.
pub fn encode_flags(is_static: bool, access: Option<&str>) -> (r: u8)
    ensures
        access_of(r) == access_word(text::opt_str(access)),
        (r & FLAG_STATIC != 0) == is_static,
        r <= 7,
{
    let low: u8 = if is_static {
        FLAG_STATIC
    } else {
        0
    };
    let high: u8 = match access {
        None => FLAG_ACCESS_PUBLIC,
        Some(s) => {
            let t = text::trim(s);
            if text::same(t, "protected") {
                FLAG_ACCESS_PROTECTED
            } else if text::same(t, "private") {
                FLAG_ACCESS_PRIVATE
            } else if text::same(t, "impl") {
                FLAG_ACCESS_IMPL
            } else {
                FLAG_ACCESS_PUBLIC
            }
        },
    };
    assert(forall|l: u8, h: u8|
        l <= 1 && (h == 0 || h == 2 || h == 4 || h == 6) ==> #[trigger] (l | h) & 6 == h && (l | h)
            & 1 == l && (l | h) <= 7) by (bit_vector);
    low | high
}

// ---------------------------------------------------------------------------
// Type names
// ---------------------------------------------------------------------------
/// `s` without leading `const `s, trimmed after each of them.
pub open spec fn without_const(s: Seq<char>) -> Seq<char>
    decreases s.len(),
{
    if text::starts(s, "const "@) {
        proof {
            reveal_strlit("const ");
            text::lemma_trimmed_len(s.subrange("const "@.len() as int, s.len() as int));
        }
        without_const(text::trimmed(s.subrange("const "@.len() as int, s.len() as int)))
    } else {
        s
    }
}

/// A type name without `class`, `struct` and `const` before it and without `&` and `*` around it.
pub open spec fn cleaned(input: Seq<char>) -> Seq<char> {
    let a = text::without_prefixes(
        text::without_prefixes(text::trimmed(input), "class "@),
        "struct "@,
    );
    let b = without_const(text::trimmed(a));
    text::trimmed(text::trimmed_of(text::trimmed_of(b, '&'), '*'))
}

pub fn clean_type(input: &str) -> (r: String)
    ensures
        r@ == cleaned(input@),
{
    proof {
        reveal_strlit("class ");
        reveal_strlit("struct ");
        reveal_strlit("const ");
    }
    let a = text::trim_start_text(text::trim_start_text(text::trim(input), "class "), "struct ");
    let mut t = text::trim(a);
    let ghost start = t@;
    loop
        invariant
            without_const(t@) == without_const(start),
            "const "@.len() == 6,
        ensures
            t@ == without_const(start),
        decreases t@.len(),
    {
        match text::strip_prefix(t, "const ") {
            Some(rest) => {
                proof {
                    text::lemma_trimmed_len(rest@);
                }
                t = text::trim(rest);
            },
            None => {
                break;
            },
        }
    }
    text::copy_of(text::trim(text::trim_char(text::trim_char(t, '&'), '*')))
}

// ---------------------------------------------------------------------------
// Ranges
// ---------------------------------------------------------------------------
/// The ranges stand in the order of their classes and lie within `n` items.
pub open spec fn ranges_ok(ranges: Seq<MemberRange>, n: nat) -> bool {
    &&& forall|i: int, j: int|
        0 <= i < j < ranges.len() ==> (#[trigger] ranges[i]).class_id < (
        #[trigger] ranges[j]).class_id
    &&& forall|i: int|
        0 <= i < ranges.len() ==> (#[trigger] ranges[i]).start + ranges[i].len <= n
}

/// The items in the range of a class; none where the class has no range.
pub open spec fn slice_of<T>(ranges: Seq<MemberRange>, items: Seq<T>, class_id: i32) -> Seq<T> {
    if exists|k: int| 0 <= k < ranges.len() && (#[trigger] ranges[k]).class_id == class_id {
        let k = choose|k: int| 0 <= k < ranges.len() && (#[trigger] ranges[k]).class_id == class_id;
        items.subrange(ranges[k].start as int, ranges[k].start + ranges[k].len)
    } else {
        Seq::empty()
    }
}

pub fn slice_for_class<'a, T>(ranges: &Vec<MemberRange>, items: &'a Vec<T>, class_id: i32) -> (r:
    &'a [T])
    requires
        ranges_ok(ranges@, items@.len()),
    ensures
        r@ == slice_of(ranges@, items@, class_id),
{
    let n: usize = items.len();
    let mut lo: usize = 0;
    let mut hi: usize = ranges.len();
    while lo < hi
        invariant
            n == items@.len(),
            ranges_ok(ranges@, items@.len()),
            lo <= hi <= ranges@.len(),
            forall|k: int| 0 <= k < lo ==> (#[trigger] ranges@[k]).class_id < class_id,
            forall|k: int| hi <= k < ranges@.len() ==> (#[trigger] ranges@[k]).class_id > class_id,
        decreases hi - lo,
    {
        let mid: usize = lo + (hi - lo) / 2;
        let found = ranges[mid];
        assert(ranges@[mid as int].start + ranges@[mid as int].len <= items@.len());
        if found.class_id == class_id {
            let a: usize = found.start as usize;
            let b: usize = a + found.len as usize;
            proof {
                let k = choose|k: int|
                    0 <= k < ranges@.len() && (#[trigger] ranges@[k]).class_id == class_id;
                if k < mid {
                    assert(ranges@[k].class_id < ranges@[mid as int].class_id);
                } else if k > mid {
                    assert(ranges@[mid as int].class_id < ranges@[k].class_id);
                }
            }
            return vstd::slice::slice_subrange(items.as_slice(), a, b);
        } else if found.class_id < class_id {
            proof {
                assert forall|k: int| 0 <= k < mid + 1 implies (#[trigger] ranges@[k]).class_id
                    < class_id by {
                    if k < mid {
                        assert(ranges@[k].class_id < ranges@[mid as int].class_id);
                    }
                }
            }
            lo = mid + 1;
        } else {
            proof {
                assert forall|k: int| mid <= k < ranges@.len() implies (
                #[trigger] ranges@[k]).class_id > class_id by {
                    if k > mid {
                        assert(ranges@[mid as int].class_id < ranges@[k].class_id);
                    }
                }
            }
            hi = mid;
        }
    }
    vstd::slice::slice_subrange(items.as_slice(), 0, 0)
}

// ---------------------------------------------------------------------------
// The index
// ---------------------------------------------------------------------------
pub struct MemberHotIndex {
    pool: StringPool,
    file_paths: Vec<StrId>,
    class_names: Vec<StrId>,
    members: Vec<MemberEntry>,
    member_ranges: Vec<MemberRange>,
    enum_values: Vec<EnumValueEntry>,
    enum_ranges: Vec<MemberRange>,
    parents: Vec<ParentEntry>,
    parent_ranges: Vec<MemberRange>,
    class_ids_by_name: TextMap<Vec<i32>>,
}

pub open spec fn widened(ids: Seq<i32>) -> Seq<i64> {
    ids.map_values(|id: i32| id as i64)
}

/// The 64-bit ids that fit into 32 bits.
pub open spec fn narrowed(ids: Seq<i64>) -> Seq<i32>
    decreases ids.len(),
{
    if ids.len() == 0 {
        Seq::empty()
    } else if i32::MIN <= ids.last() <= i32::MAX {
        narrowed(ids.drop_last()).push(ids.last() as i32)
    } else {
        narrowed(ids.drop_last())
    }
}

/// Each id of `ids` put behind the queue with a rank.
pub open spec fn with_rank(ids: Seq<i32>, rank: usize) -> Seq<(i32, usize)> {
    ids.map_values(|id: i32| (id, rank))
}

fn copy_ids(ids: &Vec<i32>) -> (r: Vec<i64>)
    ensures
        r@ == widened(ids@),
{
    let mut out: Vec<i64> = Vec::new();
    let mut i: usize = 0;
    while i < ids.len()
        invariant
            i <= ids@.len(),
            out@ == widened(ids@.take(i as int)),
        decreases ids@.len() - i,
    {
        out.push(ids[i] as i64);
        i = i + 1;
        assert(out@ =~= widened(ids@.take(i as int)));
    }
    assert(ids@.take(i as int) =~= ids@);
    out
}

fn narrow_ids(ids: &[i64]) -> (r: Vec<i32>)
    ensures
        r@ == narrowed(ids@),
{
    let mut out: Vec<i32> = Vec::new();
    let mut i: usize = 0;
    while i < ids.len()
        invariant
            i <= ids@.len(),
            out@ == narrowed(ids@.take(i as int)),
        decreases ids@.len() - i,
    {
        assert(ids@.take(i + 1).drop_last() =~= ids@.take(i as int));
        let id: i64 = ids[i];
        if -2147483648 <= id && id <= 2147483647 {
            out.push(id as i32);
        }
        i = i + 1;
    }
    assert(ids@.take(i as int) =~= ids@);
    out
}

proof fn lemma_narrow_widened(ids: Seq<i32>)
    ensures
        narrowed(widened(ids)) == ids,
    decreases ids.len(),
{
    if ids.len() > 0 {
        assert(widened(ids).drop_last() =~= widened(ids.drop_last()));
        lemma_narrow_widened(ids.drop_last());
        assert(ids =~= ids.drop_last().push(ids.last()));
    } else {
        assert(ids =~= Seq::<i32>::empty());
    }
}

impl MemberHotIndex {
    #[verifier::type_invariant]
    spec fn inv(self) -> bool {
        &&& ranges_ok(self.member_ranges@, self.members@.len())
        &&& ranges_ok(self.enum_ranges@, self.enum_values@.len())
        &&& ranges_ok(self.parent_ranges@, self.parents@.len())
    }

    /// The texts that the index holds; a text's position is its id.
    pub closed spec fn strings(&self) -> Seq<Seq<char>> {
        self.pool@
    }

    /// The text under an id.
    pub open spec fn text_of(&self, id: StrId) -> Option<Seq<char>> {
        text_in(self.strings(), id)
    }

    pub closed spec fn members_of(&self, class_id: i32) -> Seq<MemberEntry> {
        slice_of(self.member_ranges@, self.members@, class_id)
    }

    pub closed spec fn enum_values_of(&self, class_id: i32) -> Seq<EnumValueEntry> {
        slice_of(self.enum_ranges@, self.enum_values@, class_id)
    }

    pub closed spec fn parents_of(&self, class_id: i32) -> Seq<ParentEntry> {
        slice_of(self.parent_ranges@, self.parents@, class_id)
    }

    /// The name id of a class; 0 where the class has no name.
    pub closed spec fn name_id_of(&self, class_id: int) -> StrId {
        if 0 <= class_id < self.class_names@.len() {
            self.class_names@[class_id]
        } else {
            StrId(0)
        }
    }

    pub open spec fn class_name_of(&self, class_id: int) -> Option<Seq<char>> {
        self.text_of(self.name_id_of(class_id))
    }

    pub closed spec fn path_id_of(&self, file_id: int) -> StrId {
        if 0 <= file_id < self.file_paths@.len() {
            self.file_paths@[file_id]
        } else {
            StrId(0)
        }
    }

    /// The classes that carry a name, in the order of the rows.
    pub closed spec fn named(&self, name: Seq<char>) -> Seq<i32> {
        list_at(self.class_ids_by_name, name)
    }

    pub closed spec fn knows_name(&self, name: Seq<char>) -> bool {
        self.class_ids_by_name.spec_get(name) is Some
    }

    /// The ids that a class name stands for: those of the cleaned name, else those of its last
    /// segment.
    pub open spec fn ids_of(&self, class_name: Seq<char>) -> Seq<i32> {
        let name = cleaned(class_name);
        if name.len() == 0 {
            Seq::empty()
        } else if self.knows_name(name) {
            self.named(name)
        } else if text::has(name, "::"@) {
            self.named(text::last_segment(name, "::"@))
        } else {
            Seq::empty()
        }
    }

    /// The parts whose lengths make up [`size_hint`](Self::size_hint).
    pub closed spec fn part_sizes(&self) -> Seq<nat> {
        seq![
            self.pool@.len(),
            self.file_paths@.len(),
            self.class_names@.len(),
            self.members@.len(),
            self.member_ranges@.len(),
            self.enum_values@.len(),
            self.enum_ranges@.len(),
            self.parents@.len(),
            self.parent_ranges@.len(),
            self.class_ids_by_name.pairs().len(),
        ]
    }

    pub open spec fn size(&self) -> nat {
        let p = self.part_sizes();
        p[0] + p[1] + p[2] + p[3] + p[4] + p[5] + p[6] + p[7] + p[8] + p[9]
    }

    /// Number of stored records.
    pub fn size_hint(&self) -> (r: usize)
        requires
            self.size() <= usize::MAX,
        ensures
            r == self.size(),
    {
        let ghost p = self.part_sizes();
        self.pool.count() + self.file_paths.len() + self.class_names.len() + self.members.len()
            + self.member_ranges.len() + self.enum_values.len() + self.enum_ranges.len()
            + self.parents.len() + self.parent_ranges.len() + self.class_ids_by_name.len()
    }

    pub fn class_ids_by_name(&self, class_name: &str) -> (r: Vec<i64>)
        ensures
            r@ == widened(self.ids_of(class_name@)),
    {
        proof {
            reveal_strlit("::");
        }
        let name = clean_type(class_name);
        if name.as_str().is_empty() {
            let r: Vec<i64> = Vec::new();
            assert(r@ =~= widened(self.ids_of(class_name@)));
            return r;
        }
        if let Some(ids) = self.class_ids_by_name.get(name.as_str()) {
            return copy_ids(ids);
        }
        if text::contains_text(name.as_str(), "::") {
            let short = text::last_segment_of(name.as_str(), "::");
            if let Some(ids) = self.class_ids_by_name.get(short) {
                return copy_ids(ids);
            }
        }
        let r: Vec<i64> = Vec::new();
        assert(r@ =~= widened(self.ids_of(class_name@)));
        r
    }

    pub fn class_name_by_id(&self, class_id: i64) -> (r: Option<&str>)
        ensures
            text::opt_str(r) == self.class_name_of(class_id as int),
    {
        if class_id < 0 || class_id as u64 >= self.class_names.len() as u64 {
            return None;
        }
        self.pool.get(self.class_names[class_id as usize])
    }

    pub fn member_name<'a>(&'a self, entry: &MemberEntry) -> (r: &'a str)
        ensures
            r@ == text_or_empty(self.text_of(entry.name)),
    {
        proof {
            reveal_strlit("");
            assert(""@ =~= Seq::<char>::empty());
        }
        match self.pool.get(entry.name) {
            Some(t) => t,
            None => "",
        }
    }

    pub fn member_return_type<'a>(&'a self, entry: &MemberEntry) -> (r: Option<&'a str>)
        ensures
            text::opt_str(r) == self.text_of(entry.return_type),
    {
        self.pool.get(entry.return_type)
    }

    pub fn member_detail<'a>(&'a self, entry: &MemberEntry) -> (r: Option<&'a str>)
        ensures
            text::opt_str(r) == self.text_of(entry.detail),
    {
        self.pool.get(entry.detail)
    }

    pub fn member_owner_class_name<'a>(&'a self, entry: &MemberEntry) -> (r: Option<&'a str>)
        ensures
            text::opt_str(r) == self.class_name_of(entry.owner_class_id as int),
    {
        self.class_name_by_id(entry.owner_class_id as i64)
    }

    pub fn member_file_path<'a>(&'a self, entry: &MemberEntry) -> (r: Option<&'a str>)
        ensures
            text::opt_str(r) == self.text_of(self.path_id_of(entry.file_path_id as int)),
    {
        let i: usize = entry.file_path_id as usize;
        if i < self.file_paths.len() {
            self.pool.get(self.file_paths[i])
        } else {
            None
        }
    }

    pub fn enum_value_name<'a>(&'a self, entry: &EnumValueEntry) -> (r: &'a str)
        ensures
            r@ == text_or_empty(self.text_of(entry.name)),
    {
        proof {
            reveal_strlit("");
            assert(""@ =~= Seq::<char>::empty());
        }
        match self.pool.get(entry.name) {
            Some(t) => t,
            None => "",
        }
    }

    pub fn parent_classes(&self, class_id: i64) -> (r: &[ParentEntry])
        ensures
            r@ == if i32::MIN <= class_id <= i32::MAX {
                self.parents_of(class_id as i32)
            } else {
                Seq::empty()
            },
    {
        proof {
            use_type_invariant(self);
        }
        if class_id < -2147483648 || class_id > 2147483647 {
            return vstd::slice::slice_subrange(self.parents.as_slice(), 0, 0);
        }
        slice_for_class(&self.parent_ranges, &self.parents, class_id as i32)
    }

    fn class_name_id(&self, class_id: i32) -> (r: Option<StrId>)
        ensures
            r == (if self.name_id_of(class_id as int).0 == 0 {
                None
            } else {
                Some(self.name_id_of(class_id as int))
            }),
    {
        if class_id < 0 || class_id as usize >= self.class_names.len() {
            return None;
        }
        let id = self.class_names[class_id as usize];
        if id.is_none() {
            None
        } else {
            Some(id)
        }
    }

    fn members_of_class(&self, class_id: i32) -> (r: &[MemberEntry])
        ensures
            r@ == self.members_of(class_id),
    {
        proof {
            use_type_invariant(self);
        }
        slice_for_class(&self.member_ranges, &self.members, class_id)
    }

    fn enum_values_of_class(&self, class_id: i32) -> (r: &[EnumValueEntry])
        ensures
            r@ == self.enum_values_of(class_id),
    {
        proof {
            use_type_invariant(self);
        }
        slice_for_class(&self.enum_ranges, &self.enum_values, class_id)
    }

    fn parents_of_class(&self, class_id: i32) -> (r: &[ParentEntry])
        ensures
            r@ == self.parents_of(class_id),
    {
        proof {
            use_type_invariant(self);
        }
        slice_for_class(&self.parent_ranges, &self.parents, class_id)
    }
}

pub open spec fn text_or_empty(t: Option<Seq<char>>) -> Seq<char> {
    match t {
        Some(s) => s,
        None => Seq::empty(),
    }
}

// ---------------------------------------------------------------------------
// Walking the inheritance graph
// ---------------------------------------------------------------------------
/// A set of 32-bit ids holds at most 2^32 of them.
pub proof fn lemma_id_set_len(ids: Set<i32>)
    requires
        ids.finite(),
    ensures
        ids.len() <= 0x1_0000_0000,
{
    let f = |x: i32| x as int;
    let image = ids.map(f);
    let all = vstd::set_lib::set_int_range(-0x8000_0000, 0x8000_0000);
    vstd::set_lib::lemma_int_range(-0x8000_0000, 0x8000_0000);
    ids.lemma_map_finite(f);
    vstd::set_lib::lemma_map_size(ids, image, f);
    vstd::set_lib::lemma_len_subset(image, all);
}

/// The members of one class that a listing shows.
pub open spec fn shown_members<'a>(
    entries: Seq<MemberEntry>,
    upto: int,
    include_impl: bool,
    rank: usize,
) -> Seq<HotMemberItem<'a>>
    decreases upto,
{
    if upto <= 0 {
        Seq::empty()
    } else {
        let entry = entries[upto - 1];
        let rest = shown_members(entries, upto - 1, include_impl, rank);
        if !include_impl && access_of(entry.flags) == MemberAccess::Impl {
            rest
        } else {
            rest.push(HotMemberItem::Member { entry: &entry, class_rank: rank })
        }
    }
}

/// The enum values of one class that a listing shows.
pub open spec fn shown_values<'a>(entries: Seq<EnumValueEntry>, upto: int, rank: usize) -> Seq<
    HotMemberItem<'a>,
>
    decreases upto,
{
    if upto <= 0 {
        Seq::empty()
    } else {
        shown_values(entries, upto - 1, rank).push(
            HotMemberItem::EnumValue { entry: &entries[upto - 1], class_rank: rank },
        )
    }
}

impl MemberHotIndex {
    /// The classes to visit after the parents from position `from` on: parents whose name was met
    /// before are left out; the others come by their id and by their name.
    pub open spec fn queued(
        &self,
        parents: Seq<ParentEntry>,
        from: int,
        names: Set<u32>,
        queue: Seq<(i32, usize)>,
        rank: usize,
    ) -> (Set<u32>, Seq<(i32, usize)>)
        decreases parents.len() - from,
    {
        if from < 0 || from >= parents.len() {
            (names, queue)
        } else {
            let parent = parents[from];
            if parent.parent_name.0 != 0 && names.contains(parent.parent_name.0) {
                self.queued(parents, from + 1, names, queue, rank)
            } else {
                let seen = if parent.parent_name.0 != 0 {
                    names.insert(parent.parent_name.0)
                } else {
                    names
                };
                let by_id = if parent.parent_class_id != 0 {
                    queue.push((parent.parent_class_id, rank))
                } else {
                    queue
                };
                let by_name = match self.text_of(parent.parent_name) {
                    Some(name) => by_id + with_rank(self.ids_of(name), rank),
                    None => by_id,
                };
                self.queued(parents, from + 1, seen, by_name, rank)
            }
        }
    }

    /// The names that are met when a class is visited.
    pub open spec fn names_with(&self, names: Set<u32>, class_id: i32) -> Set<u32> {
        let id = self.name_id_of(class_id as int);
        if id.0 == 0 {
            names
        } else {
            names.insert(id.0)
        }
    }

    /// Everything that is listed from here on: classes breadth first, each class once, its members
    /// before its enum values, then its parents one rank further.
    pub open spec fn listing<'a>(
        &self,
        queue: Seq<(i32, usize)>,
        visited: Set<i32>,
        names: Set<u32>,
        include_impl: bool,
    ) -> Seq<HotMemberItem<'a>>
        decreases 0x1_0000_0000 - visited.len(), queue.len(),
        when visited.finite()
    {
        if queue.len() == 0 {
            Seq::empty()
        } else {
            let (class_id, rank) = queue[0];
            let rest = queue.subrange(1, queue.len() as int);
            if visited.contains(class_id) {
                self.listing(rest, visited, names, include_impl)
            } else {
                proof {
                    lemma_id_set_len(visited.insert(class_id));
                }
                let entries = self.members_of(class_id);
                let values = self.enum_values_of(class_id);
                let (seen, next) = self.queued(
                    self.parents_of(class_id),
                    0,
                    self.names_with(names, class_id),
                    rest,
                    (rank + 1) as usize,
                );
                shown_members(entries, entries.len() as int, include_impl, rank) + shown_values(
                    values,
                    values.len() as int,
                    rank,
                ) + self.listing(next, visited.insert(class_id), seen, include_impl)
            }
        }
    }

    /// What a listing that starts at some classes shows without a limit.
    pub open spec fn full_listing<'a>(&self, class_ids: Seq<i64>, include_impl: bool) -> Seq<
        HotMemberItem<'a>,
    > {
        self.listing(
            with_rank(narrowed(class_ids), 0),
            Set::empty(),
            Set::empty(),
            include_impl,
        )
    }

    /// The first items of a listing: `limit` of them, but at least one where there is one.
    pub open spec fn cut<'a>(items: Seq<HotMemberItem<'a>>, limit: usize) -> Seq<HotMemberItem<'a>> {
        let n = if limit == 0 {
            1int
        } else {
            limit as int
        };
        if items.len() <= n {
            items
        } else {
            items.take(n)
        }
    }

    fn enqueue_parents(
        &self,
        parents: &[ParentEntry],
        names: &mut HashSet<u32>,
        queue: &mut VecDeque<(i32, usize)>,
        rank: usize,
    )
        ensures
            (final(names)@, final(queue)@) == self.queued(
                parents@,
                0,
                old(names)@,
                old(queue)@,
                rank,
            ),
            forall|j: int|
                old(queue)@.len() <= j < final(queue)@.len() ==> (#[trigger] final(queue)@[j]).1
                    == rank,
            extends_queue(old(queue)@, final(queue)@),
    {
        let ghost names0 = names@;
        let ghost queue0 = queue@;
        let mut i: usize = 0;
        while i < parents.len()
            invariant
                i <= parents@.len(),
                self.queued(parents@, i as int, names@, queue@, rank) == self.queued(
                    parents@,
                    0,
                    names0,
                    queue0,
                    rank,
                ),
                extends_queue(queue0, queue@),
                forall|j: int|
                    queue0.len() <= j < queue@.len() ==> (#[trigger] queue@[j]).1 == rank,
            decreases parents@.len() - i,
        {
            let parent = parents[i];
            let named = !parent.parent_name.is_none();
            let ghost names1 = names@;
            if named && !names.insert(parent.parent_name.0) {
                proof {
                    assert(names@ =~= names1);
                }
                i = i + 1;
                continue;
            }
            if parent.parent_class_id != 0 {
                queue.push_back((parent.parent_class_id, rank));
            }
            let ghost by_id = queue@;
            if let Some(name) = self.pool.get(parent.parent_name) {
                let found = self.class_ids_by_name(name);
                let ids = narrow_ids(found.as_slice());
                proof {
                    lemma_narrow_widened(self.ids_of(name@));
                }
                let mut k: usize = 0;
                while k < ids.len()
                    invariant
                        k <= ids@.len(),
                        queue@ == by_id + with_rank(ids@.take(k as int), rank),
                    decreases ids@.len() - k,
                {
                    queue.push_back((ids[k], rank));
                    k = k + 1;
                    assert(queue@ =~= by_id + with_rank(ids@.take(k as int), rank));
                }
                assert(ids@.take(k as int) =~= ids@);
            }
            i = i + 1;
        }
    }

    pub fn collect_members_recursive<'a>(
        &'a self,
        class_name: &str,
        include_impl_members: bool,
        limit: usize,
    ) -> (r: Vec<HotMemberItem<'a>>)
        ensures
            r@ == Self::cut(
                self.full_listing(
                    widened(
                        if self.ids_of(class_name@).len() == 0 {
                            self.ids_of(text::first_part(cleaned(class_name@), '<'))
                        } else {
                            self.ids_of(class_name@)
                        },
                    ),
                    include_impl_members,
                ),
                limit,
            ),
    {
        let mut class_ids = self.class_ids_by_name(class_name);
        if class_ids.len() == 0 {
            let clean = clean_type(class_name);
            let base = text::first_part_of(clean.as_str(), '<');
            class_ids = self.class_ids_by_name(base);
        }
        self.collect_members_recursive_from_ids(class_ids.as_slice(), include_impl_members, limit)
    }

    pub fn collect_members_recursive_from_ids<'a>(
        &'a self,
        class_ids: &[i64],
        include_impl_members: bool,
        limit: usize,
    ) -> (r: Vec<HotMemberItem<'a>>)
        ensures
            r@ == Self::cut(self.full_listing(class_ids@, include_impl_members), limit),
    {
        let ids = narrow_ids(class_ids);
        let mut queue: VecDeque<(i32, usize)> = VecDeque::new();
        let mut k: usize = 0;
        while k < ids.len()
            invariant
                k <= ids@.len(),
                queue@ == with_rank(ids@.take(k as int), 0),
            decreases ids@.len() - k,
        {
            queue.push_back((ids[k], 0));
            k = k + 1;
            assert(queue@ =~= with_rank(ids@.take(k as int), 0));
        }
        assert(ids@.take(k as int) =~= ids@);
        let ghost full = self.full_listing(class_ids@, include_impl_members);
        let mut visited: HashSet<i32> = HashSet::new();
        let mut names: HashSet<u32> = HashSet::new();
        let mut items: Vec<HotMemberItem<'a>> = Vec::new();
        let ghost cap: int = if limit == 0 {
            1
        } else {
            limit as int
        };
        proof {
            assert(visited@ =~= Set::empty());
            assert(names@ =~= Set::empty());
            assert(items@ + full =~= full);
        }
        while queue.len() > 0
            invariant
                cap == (if limit == 0 {
                    1int
                } else {
                    limit as int
                }),
                items@.len() < cap,
                visited@.finite(),
                full == self.full_listing(class_ids@, include_impl_members),
                full == items@ + self.listing(queue@, visited@, names@, include_impl_members),
                forall|j: int| 0 <= j < queue@.len() ==> (#[trigger] queue@[j]).1 <= visited@.len(),
            decreases 0x1_0000_0000 - visited@.len(), queue@.len(),
        {
            let ghost queue1 = queue@;
            let ghost visited1 = visited@;
            let ghost names1 = names@;
            let head = queue.pop_front();
            let (class_id, rank): (i32, usize) = match head {
                Some(pair) => pair,
                None => (0, 0),
            };
            proof {
                assert(queue@ =~= queue1.subrange(1, queue1.len() as int));
                assert(queue1[0].1 <= visited@.len());
                lemma_id_set_len(visited@.insert(class_id));
            }
            if !visited.insert(class_id) {
                proof {
                    assert(visited@ =~= visited1);
                }
                continue;
            }
            let count: usize = visited.len();
            if let Some(name_id) = self.class_name_id(class_id) {
                names.insert(name_id.0);
            }
            assert(names@ =~= self.names_with(names1, class_id));
            let ghost names2 = names@;
            let entries = self.members_of_class(class_id);
            let values = self.enum_values_of_class(class_id);
            let ghost items1 = items@;
            let ghost shown = shown_members(
                entries@,
                entries@.len() as int,
                include_impl_members,
                rank,
            );
            let ghost values_shown = shown_values(values@, values@.len() as int, rank);
            let ghost tail = {
                let (seen, next) = self.queued(
                    self.parents_of(class_id),
                    0,
                    names2,
                    queue@,
                    (rank + 1) as usize,
                );
                self.listing(next, visited@, seen, include_impl_members)
            };
            assert(full == items1 + (shown + values_shown + tail));
            let mut i: usize = 0;
            while i < entries.len()
                invariant
                    i <= entries@.len(),
                    items@.len() < cap,
                    cap == (if limit == 0 {
                        1int
                    } else {
                        limit as int
                    }),
                    entries@ == self.members_of(class_id),
                    shown == shown_members(
                        entries@,
                        entries@.len() as int,
                        include_impl_members,
                        rank,
                    ),
                    items@ == items1 + shown_members(entries@, i as int, include_impl_members, rank),
                    full == items1 + (shown + values_shown + tail),
                    full == self.full_listing(class_ids@, include_impl_members),
                decreases entries@.len() - i,
            {
                let entry = &entries[i];
                if !include_impl_members && entry.access() == MemberAccess::Impl {
                    i = i + 1;
                    continue;
                }
                let ghost before = items@;
                items.push(HotMemberItem::Member { entry, class_rank: rank });
                i = i + 1;
                proof {
                    assert(items@ =~= items1 + shown_members(
                        entries@,
                        i as int,
                        include_impl_members,
                        rank,
                    ));
                    lemma_shown_prefix(
                        entries@,
                        i as int,
                        entries@.len() as int,
                        include_impl_members,
                        rank,
                    );
                }
                if items.len() >= limit {
                    proof {
                        assert(items@.len() == cap);
                        assert(full.take(cap) =~= items@);
                        if full.len() <= cap {
                            assert(full =~= items@);
                        }
                    }
                    return items;
                }
            }
            let mut i: usize = 0;
            assert(items@ =~= items1 + shown + shown_values(values@, 0, rank));
            while i < values.len()
                invariant
                    i <= values@.len(),
                    items@.len() < cap,
                    cap == (if limit == 0 {
                        1int
                    } else {
                        limit as int
                    }),
                    values@ == self.enum_values_of(class_id),
                    values_shown == shown_values(values@, values@.len() as int, rank),
                    items@ == items1 + shown + shown_values(values@, i as int, rank),
                    full == items1 + (shown + values_shown + tail),
                    full == self.full_listing(class_ids@, include_impl_members),
                decreases values@.len() - i,
            {
                let entry = &values[i];
                items.push(HotMemberItem::EnumValue { entry, class_rank: rank });
                i = i + 1;
                proof {
                    assert(items@ =~= items1 + shown + shown_values(values@, i as int, rank));
                    lemma_values_prefix(values@, i as int, values@.len() as int, rank);
                }
                if items.len() >= limit {
                    proof {
                        assert(items@.len() == cap);
                        assert(full.take(cap) =~= items@);
                        if full.len() <= cap {
                            assert(full =~= items@);
                        }
                    }
                    return items;
                }
            }
            let parents = self.parents_of_class(class_id);
            let ghost queue2 = queue@;
            self.enqueue_parents(parents, &mut names, &mut queue, rank + 1);
            proof {
                assert(full =~= items@ + tail);
                assert forall|j: int| 0 <= j < queue@.len() implies (#[trigger] queue@[j]).1
                    <= visited@.len() by {
                    if j < queue2.len() {
                        assert(queue@[j] == queue2[j]);
                        assert(queue2[j] == queue1[j + 1]);
                    }
                }
            }
        }
        proof {
            assert(full =~= items@);
        }
        items
    }
}

/// Nothing leaves the queue at its end.
pub open spec fn extends_queue(a: Seq<(i32, usize)>, b: Seq<(i32, usize)>) -> bool {
    a.len() <= b.len() && (forall|j: int| 0 <= j < a.len() ==> #[trigger] b[j] == a[j])
}

proof fn lemma_shown_prefix(
    entries: Seq<MemberEntry>,
    i: int,
    n: int,
    include_impl: bool,
    rank: usize,
)
    requires
        0 <= i <= n <= entries.len(),
    ensures
        ({
            let a = shown_members(entries, i, include_impl, rank);
            let b = shown_members(entries, n, include_impl, rank);
            a.len() <= b.len() && b.take(a.len() as int) == a
        }),
    decreases n,
{
    let a = shown_members(entries, i, include_impl, rank);
    let b = shown_members(entries, n, include_impl, rank);
    if i == n {
        assert(b.take(a.len() as int) =~= a);
    } else {
        lemma_shown_prefix(entries, i, n - 1, include_impl, rank);
        let c = shown_members(entries, n - 1, include_impl, rank);
        assert(b.take(a.len() as int) =~= c.take(a.len() as int));
    }
}

proof fn lemma_values_prefix(entries: Seq<EnumValueEntry>, i: int, n: int, rank: usize)
    requires
        0 <= i <= n <= entries.len(),
    ensures
        ({
            let a = shown_values(entries, i, rank);
            let b = shown_values(entries, n, rank);
            a.len() <= b.len() && b.take(a.len() as int) == a
        }),
    decreases n,
{
    let a = shown_values(entries, i, rank);
    let b = shown_values(entries, n, rank);
    if i == n {
        assert(b.take(a.len() as int) =~= a);
    } else {
        lemma_values_prefix(entries, i, n - 1, rank);
        let c = shown_values(entries, n - 1, rank);
        assert(b.take(a.len() as int) =~= c.take(a.len() as int));
    }
}

// ---------------------------------------------------------------------------
// Subclasses and access
// ---------------------------------------------------------------------------
impl MemberHotIndex {
    /// `d` is a parent of `c`: by the name of a parent entry or by its id.
    pub open spec fn parent_link(&self, c: i32, d: i32) -> bool {
        exists|k: int| self.parent_link_at(c, d, k)
    }

    pub open spec fn parent_link_at(&self, c: i32, d: i32, k: int) -> bool {
        let parents = self.parents_of(c);
        &&& 0 <= k < parents.len()
        &&& (d != 0 && parents[k].parent_class_id == d) || (match self.text_of(
            parents[k].parent_name,
        ) {
            Some(name) => self.ids_of(name).contains(d),
            None => false,
        })
    }

    /// A parent entry of `c` carries the (cleaned) name `parent`.
    pub open spec fn parent_named(&self, c: i32, parent: Seq<char>) -> bool {
        exists|k: int| self.parent_named_at(c, parent, k)
    }

    pub open spec fn parent_named_at(&self, c: i32, parent: Seq<char>, k: int) -> bool {
        let parents = self.parents_of(c);
        &&& 0 <= k < parents.len()
        &&& match self.text_of(parents[k].parent_name) {
            Some(name) => cleaned(name) == parent,
            None => false,
        }
    }

    /// A chain of parent links that starts at one of `starts`.
    pub open spec fn chain(&self, starts: Seq<i32>, path: Seq<i32>) -> bool {
        &&& path.len() > 0
        &&& starts.contains(path[0])
        &&& forall|i: int| 0 <= i < path.len() - 1 ==> #[trigger] self.linked_at(path, i)
    }

    pub open spec fn linked_at(&self, path: Seq<i32>, i: int) -> bool {
        self.parent_link(path[i], path[i + 1])
    }

    pub open spec fn reaches(&self, starts: Seq<i32>, c: i32) -> bool {
        exists|path: Seq<i32>| #[trigger] self.chain(starts, path) && path.last() == c
    }

    /// A class that settles the question: it is the parent, or it names the parent.
    pub open spec fn settles(&self, c: i32, parent: Seq<char>) -> bool {
        self.ids_of(parent).contains(c) || self.parent_named(c, parent)
    }

    /// The child is the parent itself, or a chain of parent links leads from the child to the
    /// parent. A parent of which no class is known has no other subclass.
    pub open spec fn subclass(&self, child: Seq<char>, parent: Seq<char>) -> bool {
        let c = cleaned(child);
        let p = cleaned(parent);
        c == p || (self.ids_of(p).len() > 0 && exists|x: i32| #[trigger]
            self.reaches(self.ids_of(c), x) && self.settles(x, p))
    }

    proof fn lemma_reach_step(&self, starts: Seq<i32>, c: i32, d: i32)
        requires
            self.reaches(starts, c),
            self.parent_link(c, d),
        ensures
            self.reaches(starts, d),
    {
        let path = choose|path: Seq<i32>| #[trigger] self.chain(starts, path) && path.last() == c;
        let longer = path.push(d);
        assert forall|i: int| 0 <= i < longer.len() - 1 implies #[trigger] self.linked_at(
            longer,
            i,
        ) by {
            if i < path.len() - 1 {
                assert(self.linked_at(path, i));
            }
        }
        assert(self.chain(starts, longer));
    }

    proof fn lemma_closed(
        &self,
        starts: Seq<i32>,
        visited: Set<i32>,
        path: Seq<i32>,
        i: int,
    )
        requires
            self.chain(starts, path),
            0 <= i < path.len(),
            forall|x: i32| #[trigger] starts.contains(x) ==> visited.contains(x),
            forall|x: i32, y: i32|
                visited.contains(x) && #[trigger] self.parent_link(x, y) ==> visited.contains(y),
        ensures
            visited.contains(path[i]),
        decreases i,
    {
        if i > 0 {
            self.lemma_closed(starts, visited, path, i - 1);
            assert(self.linked_at(path, i - 1));
        }
    }

    pub fn is_subclass_of(&self, child: &str, parent: &str) -> (r: bool)
        ensures
            r == self.subclass(child@, parent@),
    {
        let own = clean_type(child);
        let base = clean_type(parent);
        if text::same(own.as_str(), base.as_str()) {
            return true;
        }
        let ghost goals = self.ids_of(base@);
        let found = self.class_ids_by_name(base.as_str());
        let parent_ids = narrow_ids(found.as_slice());
        proof {
            lemma_narrow_widened(goals);
        }
        if parent_ids.len() == 0 {
            return false;
        }
        let ghost starts = self.ids_of(own@);
        let found = self.class_ids_by_name(own.as_str());
        let first = narrow_ids(found.as_slice());
        proof {
            lemma_narrow_widened(starts);
        }
        let mut queue: VecDeque<i32> = VecDeque::new();
        let mut k: usize = 0;
        while k < first.len()
            invariant
                k <= first@.len(),
                queue@ == first@.take(k as int),
            decreases first@.len() - k,
        {
            queue.push_back(first[k]);
            k = k + 1;
            assert(queue@ =~= first@.take(k as int));
        }
        assert(first@.take(k as int) =~= first@);
        let mut visited: HashSet<i32> = HashSet::new();
        proof {
            assert forall|j: int| 0 <= j < queue@.len() implies self.reaches(
                starts,
                #[trigger] queue@[j],
            ) by {
                let path = seq![queue@[j]];
                assert(self.chain(starts, path));
                assert(path.last() == queue@[j]);
            }
        }
        while queue.len() > 0
            invariant
                starts == self.ids_of(own@),
                goals == self.ids_of(base@),
                parent_ids@ == goals,
                goals.len() > 0,
                own@ == cleaned(child@),
                base@ == cleaned(parent@),
                own@ != base@,
                visited@.finite(),
                forall|j: int|
                    0 <= j < queue@.len() ==> self.reaches(starts, #[trigger] queue@[j]),
                forall|x: i32| #[trigger]
                    starts.contains(x) ==> visited@.contains(x) || queue@.contains(x),
                forall|x: i32, y: i32|
                    visited@.contains(x) && #[trigger] self.parent_link(x, y) ==> visited@.contains(
                        y,
                    ) || queue@.contains(y),
                forall|x: i32| #[trigger] visited@.contains(x) ==> !self.settles(x, base@),
            decreases 0x1_0000_0000 - visited@.len(), queue@.len(),
        {
            let ghost queue1 = queue@;
            let ghost visited1 = visited@;
            let head = queue.pop_front();
            let class_id: i32 = match head {
                Some(id) => id,
                None => 0,
            };
            assert(queue1[0] == class_id);
            assert(self.reaches(starts, class_id));
            assert forall|x: i32| queue1.contains(x) implies x == class_id || queue@.contains(x) by {
                let j = choose|j: int| 0 <= j < queue1.len() && queue1[j] == x;
                if j > 0 {
                    assert(queue@[j - 1] == x);
                }
            }
            if ids_contain(&parent_ids, class_id) {
                assert(self.settles(class_id, base@));
                return true;
            }
            proof {
                lemma_id_set_len(visited@.insert(class_id));
            }
            if !visited.insert(class_id) {
                assert(visited@ =~= visited1);
                continue;
            }
            let parents = self.parents_of_class(class_id);
            let ghost queue2 = queue@;
            let mut i: usize = 0;
            while i < parents.len()
                invariant
                    i <= parents@.len(),
                    parents@ == self.parents_of(class_id),
                    self.reaches(starts, class_id),
                    goals.len() > 0,
                    starts == self.ids_of(own@),
                    goals == self.ids_of(base@),
                    own@ == cleaned(child@),
                    base@ == cleaned(parent@),
                    own@ != base@,
                    queue2.len() <= queue@.len(),
                    forall|j: int| 0 <= j < queue2.len() ==> #[trigger] queue@[j] == queue2[j],
                    forall|j: int|
                        0 <= j < queue@.len() ==> self.reaches(starts, #[trigger] queue@[j]),
                    forall|y: i32, m: int|
                        0 <= m < i && #[trigger] self.parent_link_at(class_id, y, m)
                            ==> queue@.contains(y),
                    forall|m: int|
                        0 <= m < i ==> !(#[trigger] self.parent_named_at(class_id, base@, m)),
                decreases parents@.len() - i,
            {
                let entry = parents[i];
                let ghost queue3 = queue@;
                if let Some(name) = self.pool.get(entry.parent_name) {
                    let clean = clean_type(name);
                    if text::same(clean.as_str(), base.as_str()) {
                        assert(self.parent_named_at(class_id, base@, i as int));
                        assert(self.settles(class_id, base@));
                        return true;
                    }
                    let found = self.class_ids_by_name(name);
                    let ids = narrow_ids(found.as_slice());
                    proof {
                        lemma_narrow_widened(self.ids_of(name@));
                    }
                    let mut k: usize = 0;
                    while k < ids.len()
                        invariant
                            k <= ids@.len(),
                            ids@ == self.ids_of(name@),
                            queue@ == queue3 + ids@.take(k as int),
                        decreases ids@.len() - k,
                    {
                        queue.push_back(ids[k]);
                        k = k + 1;
                        assert(queue@ =~= queue3 + ids@.take(k as int));
                    }
                    assert(ids@.take(k as int) =~= ids@);
                }
                let ghost queue4 = queue@;
                if entry.parent_class_id != 0 {
                    queue.push_back(entry.parent_class_id);
                }
                proof {
                    assert forall|j: int| 0 <= j < queue@.len() implies self.reaches(
                        starts,
                        #[trigger] queue@[j],
                    ) by {
                        if j < queue3.len() {
                            assert(queue@[j] == queue3[j]);
                        } else {
                            let y = queue@[j];
                            if j < queue4.len() {
                                assert(self.ids_of(self.text_of(entry.parent_name)->0)[j
                                    - queue3.len()] == y);
                            }
                            assert(self.parent_link_at(class_id, y, i as int));
                            self.lemma_reach_step(starts, class_id, y);
                        }
                    }
                    assert forall|y: i32, m: int|
                        0 <= m < i + 1 && #[trigger] self.parent_link_at(
                            class_id,
                            y,
                            m,
                        ) implies queue@.contains(y) by {
                        if m < i {
                            assert(queue3.contains(y));
                            let j = choose|j: int| 0 <= j < queue3.len() && queue3[j] == y;
                            assert(queue@[j] == y);
                        } else if y != 0 && entry.parent_class_id == y {
                            assert(queue@[queue4.len() as int] == y);
                        } else {
                            let ids = self.ids_of(self.text_of(entry.parent_name)->0);
                            let j = choose|j: int| 0 <= j < ids.len() && ids[j] == y;
                            assert(queue4[queue3.len() + j] == y);
                            assert(queue@[queue3.len() + j] == y);
                        }
                    }
                }
                i = i + 1;
            }
            proof {
                assert(!self.settles(class_id, base@));
                assert forall|x: i32| queue2.contains(x) implies queue@.contains(x) by {
                    let j = choose|j: int| 0 <= j < queue2.len() && queue2[j] == x;
                    assert(queue@[j] == x);
                }
            }
        }
        proof {
            if exists|x: i32| #[trigger] self.reaches(starts, x) && self.settles(x, base@) {
                let x = choose|x: i32| #[trigger]
                    self.reaches(starts, x) && self.settles(x, base@);
                let path = choose|path: Seq<i32>| #[trigger]
                    self.chain(starts, path) && path.last() == x;
                self.lemma_closed(starts, visited@, path, path.len() - 1);
            }
        }
        false
    }

    /// Whether code in a class may use a member, by the member's flags. Outside of every class only
    /// public members can be used.
    pub open spec fn accessible(
        &self,
        owner_class_id: i32,
        accessor_class: Seq<char>,
        flags: u8,
        assume_subclass_access: bool,
    ) -> bool {
        let owner = text_or_empty(self.class_name_of(owner_class_id as int));
        if accessor_class.len() == 0 {
            access_of(flags) == MemberAccess::Public
        } else if accessor_class == owner {
            true
        } else {
            match access_of(flags) {
                MemberAccess::Private => false,
                MemberAccess::Protected => assume_subclass_access || self.subclass(
                    accessor_class,
                    owner,
                ),
                _ => true,
            }
        }
    }

    pub fn is_member_accessible(
        &self,
        owner_class_id: i32,
        accessor_class: &str,
        flags: u8,
        assume_subclass_access: bool,
    ) -> (r: bool)
        ensures
            r == self.accessible(
                owner_class_id,
                accessor_class@,
                flags,
                assume_subclass_access,
            ),
    {
        proof {
            reveal_strlit("");
            assert(""@ =~= Seq::<char>::empty());
        }
        let access = decode_access(flags);
        if accessor_class.is_empty() {
            return access == MemberAccess::Public;
        }
        let owner_class = match self.class_name_by_id(owner_class_id as i64) {
            Some(name) => name,
            None => "",
        };
        if text::same(accessor_class, owner_class) {
            return true;
        }
        match access {
            MemberAccess::Private => false,
            MemberAccess::Protected => {
                if assume_subclass_access {
                    true
                } else {
                    self.is_subclass_of(accessor_class, owner_class)
                }
            },
            _ => true,
        }
    }
}

// ---------------------------------------------------------------------------
// What holds of listings, subclasses and access
// ---------------------------------------------------------------------------
/// How many steps of inheritance lead to the class of a listed item.
pub open spec fn rank_of(item: HotMemberItem) -> usize {
    match item {
        HotMemberItem::Member { class_rank, .. } => class_rank,
        HotMemberItem::EnumValue { class_rank, .. } => class_rank,
    }
}

spec fn all_of_rank(items: Seq<HotMemberItem>, rank: usize) -> bool {
    forall|i: int| 0 <= i < items.len() ==> rank_of(#[trigger] items[i]) == rank
}

/// The ranks never fall, and none is less than `least`.
spec fn ranks_rise(items: Seq<HotMemberItem>, least: int) -> bool {
    &&& forall|i: int| 0 <= i < items.len() ==> least <= rank_of(#[trigger] items[i])
    &&& forall|i: int, j: int|
        0 <= i < j < items.len() ==> rank_of(#[trigger] items[i]) <= rank_of(#[trigger] items[j])
}

proof fn lemma_shown_rank(entries: Seq<MemberEntry>, upto: int, include_impl: bool, rank: usize)
    ensures
        all_of_rank(shown_members(entries, upto, include_impl, rank), rank),
    decreases upto,
{
    if upto > 0 {
        lemma_shown_rank(entries, upto - 1, include_impl, rank);
    }
}

proof fn lemma_values_rank(entries: Seq<EnumValueEntry>, upto: int, rank: usize)
    ensures
        all_of_rank(shown_values(entries, upto, rank), rank),
    decreases upto,
{
    if upto > 0 {
        lemma_values_rank(entries, upto - 1, rank);
    }
}

/// The classes wait in the order of their ranks, which lie at most one apart.
spec fn waits_by_rank(queue: Seq<(i32, usize)>, least: int) -> bool {
    &&& forall|i: int| 0 <= i < queue.len() ==> least <= (#[trigger] queue[i]).1 <= least + 1
    &&& forall|i: int, j: int|
        0 <= i < j < queue.len() ==> (#[trigger] queue[i]).1 <= (#[trigger] queue[j]).1
}

impl MemberHotIndex {
    proof fn lemma_queued_ranks(
        &self,
        parents: Seq<ParentEntry>,
        from: int,
        names: Set<u32>,
        queue: Seq<(i32, usize)>,
        rank: usize,
        least: int,
    )
        requires
            waits_by_rank(queue, least),
            rank == least + 1,
        ensures
            waits_by_rank(self.queued(parents, from, names, queue, rank).1, least),
        decreases parents.len() - from,
    {
        if 0 <= from < parents.len() {
            let parent = parents[from];
            if parent.parent_name.0 != 0 && names.contains(parent.parent_name.0) {
                self.lemma_queued_ranks(parents, from + 1, names, queue, rank, least);
            } else {
                let seen = if parent.parent_name.0 != 0 {
                    names.insert(parent.parent_name.0)
                } else {
                    names
                };
                let by_id = if parent.parent_class_id != 0 {
                    queue.push((parent.parent_class_id, rank))
                } else {
                    queue
                };
                let by_name = match self.text_of(parent.parent_name) {
                    Some(name) => by_id + with_rank(self.ids_of(name), rank),
                    None => by_id,
                };
                self.lemma_queued_ranks(parents, from + 1, seen, by_name, rank, least);
            }
        }
    }

    /// Where every class was visited, nothing is left to list.
    proof fn lemma_all_visited<'a>(
        &self,
        queue: Seq<(i32, usize)>,
        visited: Set<i32>,
        names: Set<u32>,
        include_impl: bool,
    )
        requires
            visited.finite(),
            visited.len() == 0x1_0000_0000,
        ensures
            self.listing::<'a>(queue, visited, names, include_impl).len() == 0,
        decreases queue.len(),
    {
        if queue.len() > 0 {
            let class_id = queue[0].0;
            if !visited.contains(class_id) {
                lemma_id_set_len(visited.insert(class_id));
            }
            self.lemma_all_visited::<'a>(
                queue.subrange(1, queue.len() as int),
                visited,
                names,
                include_impl,
            );
        }
    }

    proof fn lemma_listing_ranks<'a>(
        &self,
        queue: Seq<(i32, usize)>,
        visited: Set<i32>,
        names: Set<u32>,
        include_impl: bool,
        least: int,
    )
        requires
            visited.finite(),
            waits_by_rank(queue, least),
            forall|i: int| 0 <= i < queue.len() ==> (#[trigger] queue[i]).1 <= visited.len(),
        ensures
            ranks_rise(self.listing::<'a>(queue, visited, names, include_impl), least),
        decreases 0x1_0000_0000 - visited.len(), queue.len(),
    {
        if queue.len() > 0 {
            let (class_id, rank) = queue[0];
            let rest = queue.subrange(1, queue.len() as int);
            assert forall|i: int| 0 <= i < rest.len() implies #[trigger] rest[i] == queue[i + 1] by {}
            if visited.contains(class_id) {
                self.lemma_listing_ranks::<'a>(rest, visited, names, include_impl, least);
            } else {
                lemma_id_set_len(visited.insert(class_id));
                let entries = self.members_of(class_id);
                let values = self.enum_values_of(class_id);
                let parents = self.parents_of(class_id);
                let met = self.names_with(names, class_id);
                let (seen, next) = self.queued(parents, 0, met, rest, (rank + 1) as usize);
                let now = visited.insert(class_id);
                let shown = shown_members::<'a>(entries, entries.len() as int, include_impl, rank);
                let more = shown_values::<'a>(values, values.len() as int, rank);
                lemma_shown_rank(entries, entries.len() as int, include_impl, rank);
                lemma_values_rank(values, values.len() as int, rank);
                let tail = self.listing::<'a>(next, now, seen, include_impl);
                if rank + 1 <= usize::MAX {
                    assert(waits_by_rank(rest, rank as int)) by {
                        assert forall|i: int| 0 <= i < rest.len() implies rank <= (
                        #[trigger] rest[i]).1 <= rank + 1 by {
                            assert(queue[0].1 <= queue[i + 1].1);
                        }
                    }
                    self.lemma_queued_ranks(
                        parents,
                        0,
                        met,
                        rest,
                        (rank + 1) as usize,
                        rank as int,
                    );
                    assert forall|i: int| 0 <= i < next.len() implies (#[trigger] next[i]).1
                        <= now.len() by {}
                    self.lemma_listing_ranks::<'a>(next, now, seen, include_impl, rank as int);
                } else {
                    self.lemma_all_visited::<'a>(next, now, seen, include_impl);
                }
                let all = shown + more + tail;
                assert forall|i: int| 0 <= i < all.len() implies least <= rank_of(
                    #[trigger] all[i],
                ) && (i < shown.len() + more.len() ==> rank_of(all[i]) == rank) by {
                    if i < shown.len() {
                        assert(all[i] == shown[i]);
                    } else if i < shown.len() + more.len() {
                        assert(all[i] == more[i - shown.len()]);
                    } else {
                        assert(all[i] == tail[i - shown.len() - more.len()]);
                    }
                }
                assert forall|i: int, j: int| 0 <= i < j < all.len() implies rank_of(
                    #[trigger] all[i],
                ) <= rank_of(#[trigger] all[j]) by {
                    let n = shown.len() + more.len();
                    if j >= n {
                        assert(all[j] == tail[j - n]);
                        if i >= n {
                            assert(all[i] == tail[i - n]);
                        }
                    }
                }
            }
        }
    }
}

/// The nearer a class stands in the line of inheritance, the earlier its members are listed.
pub proof fn nearer_members_come_first<'a>(
    index: MemberHotIndex,
    class_ids: Seq<i64>,
    include_impl: bool,
    i: int,
    j: int,
)
    requires
        0 <= i < j < index.full_listing::<'a>(class_ids, include_impl).len(),
    ensures
        rank_of(index.full_listing::<'a>(class_ids, include_impl)[i]) <= rank_of(
            index.full_listing::<'a>(class_ids, include_impl)[j],
        ),
{
    index.lemma_listing_ranks::<'a>(
        with_rank(narrowed(class_ids), 0),
        Set::empty(),
        Set::empty(),
        include_impl,
        0,
    );
}

/// A class is its own subclass, however its name is decorated, and a class that names a parent is
/// a subclass of that parent if any such class is known.
pub proof fn named_parents_are_superclasses(
    index: MemberHotIndex,
    child: Seq<char>,
    parent: Seq<char>,
    c: i32,
)
    ensures
        cleaned(child) == cleaned(parent) ==> index.subclass(child, parent),
        index.ids_of(cleaned(child)).contains(c) && index.parent_named(c, cleaned(parent))
            && index.ids_of(cleaned(parent)).len() > 0 ==> index.subclass(child, parent),
{
    let starts = index.ids_of(cleaned(child));
    if starts.contains(c) && index.parent_named(c, cleaned(parent)) {
        let path = seq![c];
        assert(index.chain(starts, path));
        assert(path.last() == c);
        assert(index.reaches(starts, c));
        assert(index.settles(c, cleaned(parent)));
    }
}

/// What a subclass inherits from a parent it inherits from the parents of the parent too: a chain
/// of parents may be followed further.
pub proof fn parents_of_parents_are_superclasses(
    index: MemberHotIndex,
    child: Seq<char>,
    parent: Seq<char>,
    c: i32,
    d: i32,
)
    requires
        index.reaches(index.ids_of(cleaned(child)), c),
        index.parent_link(c, d),
        index.ids_of(cleaned(parent)).contains(d),
    ensures
        index.subclass(child, parent),
{
    index.lemma_reach_step(index.ids_of(cleaned(child)), c, d);
    assert(index.settles(d, cleaned(parent)));
}

/// A name that the index does not know stands for no class.
pub proof fn unknown_names_have_no_class(index: MemberHotIndex, name: Seq<char>)
    requires
        !index.knows_name(name),
    ensures
        index.named(name) == Seq::<i32>::empty(),
{
}

/// Public members are open to all; private ones only to the class itself.
pub proof fn access_is_kept(
    index: MemberHotIndex,
    owner_class_id: i32,
    accessor_class: Seq<char>,
    flags: u8,
    assume_subclass_access: bool,
)
    ensures
        access_of(flags) == MemberAccess::Public ==> index.accessible(
            owner_class_id,
            accessor_class,
            flags,
            assume_subclass_access,
        ),
        access_of(flags) == MemberAccess::Private ==> (index.accessible(
            owner_class_id,
            accessor_class,
            flags,
            assume_subclass_access,
        ) <==> accessor_class.len() > 0 && accessor_class == text_or_empty(
            index.class_name_of(owner_class_id as int),
        )),
{
}

fn ids_contain(ids: &Vec<i32>, id: i32) -> (r: bool)
    ensures
        r == ids@.contains(id),
{
    let mut i: usize = 0;
    while i < ids.len()
        invariant
            i <= ids@.len(),
            forall|j: int| 0 <= j < i ==> ids@[j] != id,
        decreases ids@.len() - i,
    {
        if ids[i] == id {
            return true;
        }
        i = i + 1;
    }
    false
}

// ---------------------------------------------------------------------------
// Building the index
// ---------------------------------------------------------------------------
/// One class; rows come in the order in which a name's classes are listed.
pub struct ClassRow {
    pub class_id: i32,
    pub name: String,
}

/// One member; rows come in the order of their classes.
pub struct MemberRow {
    pub owner_class_id: i32,
    pub name: String,
    pub member_type: String,
    pub return_type: Option<String>,
    pub access: Option<String>,
    pub detail: Option<String>,
    pub is_static: bool,
    pub line: u32,
    pub file_id: Option<i64>,
    pub file_path: Option<String>,
}

/// One enum value; rows come in the order of their enums.
pub struct EnumValueRow {
    pub owner_class_id: i32,
    pub name: String,
}

/// One parent of a class; rows come in the order of the children.
pub struct ParentRow {
    pub child_id: i32,
    pub parent_class_id: i32,
    pub parent_name: String,
}

pub open spec fn ascending(owners: Seq<i32>) -> bool {
    forall|i: int, j: int| 0 <= i <= j < owners.len() ==> owners[i] <= owners[j]
}

pub open spec fn member_owners(rows: Seq<MemberRow>) -> Seq<i32> {
    rows.map_values(|r: MemberRow| r.owner_class_id)
}

pub open spec fn value_owners(rows: Seq<EnumValueRow>) -> Seq<i32> {
    rows.map_values(|r: EnumValueRow| r.owner_class_id)
}

pub open spec fn parent_owners(rows: Seq<ParentRow>) -> Seq<i32> {
    rows.map_values(|r: ParentRow| r.child_id)
}

/// The items among the first `upto` whose owner is `c`.
pub open spec fn picked<T>(items: Seq<T>, owners: Seq<i32>, c: i32, upto: int) -> Seq<T>
    decreases upto,
{
    if upto <= 0 {
        Seq::empty()
    } else if owners[upto - 1] == c {
        picked(items, owners, c, upto - 1).push(items[upto - 1])
    } else {
        picked(items, owners, c, upto - 1)
    }
}

/// The ids of the rows with a name.
pub open spec fn ids_named(rows: Seq<ClassRow>, name: Seq<char>, upto: int) -> Seq<i32>
    decreases upto,
{
    if upto <= 0 {
        Seq::empty()
    } else if rows[upto - 1].name@ == name {
        ids_named(rows, name, upto - 1).push(rows[upto - 1].class_id)
    } else {
        ids_named(rows, name, upto - 1)
    }
}

/// The name in the last row of a class.
pub open spec fn last_name(rows: Seq<ClassRow>, class_id: int, upto: int) -> Option<Seq<char>>
    decreases upto,
{
    if upto <= 0 {
        None
    } else if rows[upto - 1].class_id == class_id {
        kept(rows[upto - 1].name@)
    } else {
        last_name(rows, class_id, upto - 1)
    }
}

/// A path with forward slashes.
pub open spec fn slashed(path: Seq<char>) -> Seq<char> {
    text::replaced_char(path, '\\', "/"@)
}

/// The path in the last row that names a file.
pub open spec fn last_path(rows: Seq<MemberRow>, file_id: int, upto: int) -> Option<Seq<char>>
    decreases upto,
{
    if upto <= 0 {
        None
    } else {
        let row = rows[upto - 1];
        if row.file_id is Some && row.file_id->0 == file_id && row.file_path is Some {
            kept(slashed(row.file_path->0@))
        } else {
            last_path(rows, file_id, upto - 1)
        }
    }
}

/// The entry holds what the row says.
pub open spec fn member_matches(strings: Seq<Seq<char>>, e: MemberEntry, row: MemberRow) -> bool {
    &&& e.owner_class_id == row.owner_class_id
    &&& stands_for(strings, e.name, kept(row.name@))
    &&& stands_for(strings, e.return_type, kept_opt(text::opt_text(row.return_type)))
    &&& stands_for(strings, e.detail, kept_opt(text::opt_text(row.detail)))
    &&& e.file_path_id == file_slot(row.file_id)
    &&& e.line == row.line
    &&& e.kind == MemberKind::of_text(row.member_type@)
    &&& access_of(e.flags) == access_word(text::opt_text(row.access))
    &&& (e.flags & FLAG_STATIC != 0) == row.is_static
}

pub open spec fn file_slot(file_id: Option<i64>) -> u32 {
    match file_id {
        Some(id) => if id > 0 {
            id as u32
        } else {
            0
        },
        None => 0,
    }
}

pub open spec fn value_matches(
    strings: Seq<Seq<char>>,
    e: EnumValueEntry,
    row: EnumValueRow,
) -> bool {
    e.owner_class_id == row.owner_class_id && stands_for(strings, e.name, kept(row.name@))
}

pub open spec fn parent_matches(strings: Seq<Seq<char>>, e: ParentEntry, row: ParentRow) -> bool {
    e.parent_class_id == row.parent_class_id && stands_for(
        strings,
        e.parent_name,
        kept(row.parent_name@),
    )
}

/// The ranges describe the first `end` owners.
pub open spec fn describes(ranges: Seq<MemberRange>, owners: Seq<i32>, end: int) -> bool {
    &&& 0 <= end <= owners.len()
    &&& forall|i: int, j: int|
        0 <= i < j < ranges.len() ==> (#[trigger] ranges[i]).class_id < (
        #[trigger] ranges[j]).class_id
    &&& forall|k: int|
        0 <= k < ranges.len() ==> (#[trigger] ranges[k]).start + ranges[k].len <= end
    &&& forall|k: int, j: int|
        0 <= k < ranges.len() && ranges[k].start <= j < ranges[k].start + ranges[k].len
            ==> #[trigger] owners[j] == (#[trigger] ranges[k]).class_id
    &&& forall|j: int| 0 <= j < end ==> #[trigger] in_some_range(ranges, owners, j)
}

pub open spec fn in_some_range(ranges: Seq<MemberRange>, owners: Seq<i32>, j: int) -> bool {
    exists|k: int|
        0 <= k < ranges.len() && (#[trigger] ranges[k]).start <= j < ranges[k].start
            + ranges[k].len && ranges[k].class_id == owners[j]
}

proof fn lemma_picked_run<T>(items: Seq<T>, owners: Seq<i32>, c: i32, a: int, b: int, upto: int)
    requires
        items.len() == owners.len(),
        0 <= a <= b <= owners.len(),
        0 <= upto <= owners.len(),
        forall|j: int| 0 <= j < owners.len() ==> (#[trigger] owners[j] == c <==> a <= j < b),
    ensures
        picked(items, owners, c, upto) == (if upto <= a {
            Seq::<T>::empty()
        } else if upto <= b {
            items.subrange(a, upto)
        } else {
            items.subrange(a, b)
        }),
    decreases upto,
{
    if upto > 0 {
        lemma_picked_run(items, owners, c, a, b, upto - 1);
        if a < upto <= b {
            if upto - 1 <= a {
                assert(items.subrange(a, upto) =~= Seq::<T>::empty().push(items[upto - 1]));
            } else {
                assert(items.subrange(a, upto) =~= items.subrange(a, upto - 1).push(
                    items[upto - 1],
                ));
            }
        } else if upto > b && a == b {
            assert(items.subrange(a, b) =~= Seq::<T>::empty());
        }
    }
}

proof fn lemma_slice_is_picked<T>(
    ranges: Seq<MemberRange>,
    items: Seq<T>,
    owners: Seq<i32>,
    c: i32,
)
    requires
        items.len() == owners.len(),
        describes(ranges, owners, owners.len() as int),
    ensures
        slice_of(ranges, items, c) == picked(items, owners, c, owners.len() as int),
{
    let n = owners.len() as int;
    if exists|k: int| 0 <= k < ranges.len() && (#[trigger] ranges[k]).class_id == c {
        let k = choose|k: int| 0 <= k < ranges.len() && (#[trigger] ranges[k]).class_id == c;
        let a = ranges[k].start as int;
        let b = a + ranges[k].len;
        assert forall|j: int| 0 <= j < n implies (#[trigger] owners[j] == c <==> a <= j < b) by {
            if owners[j] == c {
                assert(in_some_range(ranges, owners, j));
                let m = choose|m: int|
                    0 <= m < ranges.len() && (#[trigger] ranges[m]).start <= j < ranges[m].start
                        + ranges[m].len && ranges[m].class_id == owners[j];
                if m < k {
                    assert(ranges[m].class_id < ranges[k].class_id);
                } else if k < m {
                    assert(ranges[k].class_id < ranges[m].class_id);
                }
            } else if a <= j < b {
                assert(owners[j] == ranges[k].class_id);
            }
        }
        lemma_picked_run(items, owners, c, a, b, n);
        if n <= a {
            assert(items.subrange(a, b) =~= Seq::<T>::empty());
        }
    } else {
        assert forall|j: int| 0 <= j < n implies (#[trigger] owners[j] == c <==> 0 <= j < 0) by {
            if owners[j] == c {
                assert(in_some_range(ranges, owners, j));
            }
        }
        lemma_picked_run(items, owners, c, 0, 0, n);
        assert(items.subrange(0, 0) =~= Seq::<T>::empty());
    }
}

/// Collects the ranges of owners that come in ascending order.
struct RangeBuilder {
    ranges: Vec<MemberRange>,
    current: Option<i32>,
    start: u32,
}

impl RangeBuilder {
    spec fn tracks(&self, owners: Seq<i32>) -> bool {
        match self.current {
            None => owners.len() == 0 && self.start == 0 && self.ranges@.len() == 0,
            Some(c) => {
                &&& self.start < owners.len()
                &&& describes(self.ranges@, owners, self.start as int)
                &&& forall|j: int| self.start <= j < owners.len() ==> #[trigger] owners[j] == c
                &&& forall|k: int|
                    0 <= k < self.ranges@.len() ==> (#[trigger] self.ranges@[k]).class_id < c
            },
        }
    }

    fn new() -> (r: Self)
        ensures
            r.tracks(Seq::empty()),
    {
        RangeBuilder { ranges: Vec::new(), current: None, start: 0 }
    }

    /// Takes in the owner of item `index`.
    fn step(&mut self, owner: i32, index: u32, Ghost(owners): Ghost<Seq<i32>>)
        requires
            old(self).tracks(owners),
            index == owners.len(),
            ascending(owners.push(owner)),
        ensures
            final(self).tracks(owners.push(owner)),
    {
        let ghost more = owners.push(owner);
        let same = match self.current {
            Some(c) => c == owner,
            None => false,
        };
        let ghost start0 = self.start;
        let ghost ranges0 = self.ranges@;
        assert(forall|j: int| 0 <= j < owners.len() ==> owners[j] == #[trigger] more[j]);
        if !same {
            push_range(&mut self.ranges, self.current, self.start, index);
            proof {
                lemma_push_describes(ranges0, self.ranges@, self.current, start0, owners);
                if self.current is Some {
                    assert(more[start0 as int] <= more[owners.len() as int]);
                    assert(owners[start0 as int] == self.current->0);
                }
            }
            self.current = Some(owner);
            self.start = index;
        }
        proof {
            let end = self.start as int;
            let ranges = self.ranges@;
            assert forall|k: int, j: int|
                0 <= k < ranges.len() && ranges[k].start <= j < ranges[k].start
                    + ranges[k].len implies #[trigger] more[j] == (#[trigger] ranges[k]).class_id by {
                assert(owners[j] == ranges[k].class_id);
            }
            assert forall|j: int| 0 <= j < end implies #[trigger] in_some_range(ranges, more, j) by {
                assert(in_some_range(ranges, owners, j));
                let k = choose|k: int|
                    0 <= k < ranges.len() && (#[trigger] ranges[k]).start <= j < ranges[k].start
                        + ranges[k].len && ranges[k].class_id == owners[j];
                assert(ranges[k].class_id == more[j]);
            }
            assert(describes(ranges, more, end));
            assert forall|j: int| self.start <= j < more.len() implies #[trigger] more[j]
                == owner by {
                if j < owners.len() {
                    assert(owners[j] == more[j]);
                }
            }
        }
    }

    fn finish(self, end: u32, Ghost(owners): Ghost<Seq<i32>>) -> (r: Vec<MemberRange>)
        requires
            self.tracks(owners),
            end == owners.len(),
        ensures
            describes(r@, owners, owners.len() as int),
    {
        let mut ranges = self.ranges;
        let ghost ranges0 = ranges@;
        push_range(&mut ranges, self.current, self.start, end);
        proof {
            lemma_push_describes(ranges0, ranges@, self.current, self.start, owners);
        }
        ranges
    }
}

pub fn push_range(ranges: &mut Vec<MemberRange>, class_id: Option<i32>, start: u32, end: u32)
    ensures
        final(ranges)@ == (if class_id is Some && end > start {
            old(ranges)@.push(
                (MemberRange { class_id: class_id->0, start, len: (end - start) as u32 }),
            )
        } else {
            old(ranges)@
        }),
{
    if let Some(id) = class_id {
        if end > start {
            ranges.push(MemberRange { class_id: id, start, len: end - start });
        }
    }
}

proof fn lemma_push_describes(
    before: Seq<MemberRange>,
    after: Seq<MemberRange>,
    current: Option<i32>,
    start: u32,
    owners: Seq<i32>,
)
    requires
        owners.len() <= u32::MAX,
        match current {
            None => owners.len() == 0 && before.len() == 0 && after == before,
            Some(c) => {
                &&& start < owners.len()
                &&& describes(before, owners, start as int)
                &&& forall|j: int| start <= j < owners.len() ==> #[trigger] owners[j] == c
                &&& forall|k: int| 0 <= k < before.len() ==> (#[trigger] before[k]).class_id < c
                &&& after == before.push(
                    (MemberRange { class_id: c, start, len: (owners.len() - start) as u32 }),
                )
            },
        },
    ensures
        describes(after, owners, owners.len() as int),
        current is Some ==> forall|k: int|
            0 <= k < after.len() ==> (#[trigger] after[k]).class_id <= current->0,
{
    if let Some(c) = current {
        let n = before.len() as int;
        assert(after[n].class_id == c);
        assert(forall|k: int| 0 <= k < n ==> after[k] == #[trigger] before[k]);
        assert forall|j: int| 0 <= j < owners.len() implies #[trigger] in_some_range(
            after,
            owners,
            j,
        ) by {
            if j < start {
                assert(in_some_range(before, owners, j));
                let k = choose|k: int|
                    0 <= k < before.len() && (#[trigger] before[k]).start <= j < before[k].start
                        + before[k].len && before[k].class_id == owners[j];
                assert(after[k] == before[k]);
            } else {
                assert(after[n].start <= j < after[n].start + after[n].len);
            }
        }
    }
}

/// Grows the list with empty slots until `index` is one of its positions.
pub fn ensure_slot(vec: &mut Vec<StrId>, index: usize)
    requires
        index < usize::MAX,
    ensures
        final(vec)@.len() == (if old(vec)@.len() <= index {
            (index + 1) as nat
        } else {
            old(vec)@.len()
        }),
        forall|i: int|
            0 <= i < final(vec)@.len() ==> #[trigger] final(vec)@[i] == (if i < old(vec)@.len() {
                old(vec)@[i]
            } else {
                StrId(0)
            }),
{
    while vec.len() <= index
        invariant
            index < usize::MAX,
            old(vec)@.len() <= vec@.len(),
            vec@.len() <= index + 1 || vec@.len() == old(vec)@.len(),
            forall|i: int|
                0 <= i < vec@.len() ==> #[trigger] vec@[i] == (if i < old(vec)@.len() {
                    old(vec)@[i]
                } else {
                    StrId(0)
                }),
        decreases index + 1 - vec@.len(),
    {
        vec.push(StrId(0));
    }
}

pub fn intern_optional(pool: &mut StringPool, text: Option<&str>) -> (r: StrId)
    requires
        old(pool)@.len() <= u32::MAX,
    ensures
        stands_for(final(pool)@, r, kept_opt(text::opt_str(text))),
        extends(old(pool)@, final(pool)@),
        old(pool).knows_all() ==> final(pool).knows_all(),
        final(pool)@.len() <= old(pool)@.len() + 1,
{
    match text {
        Some(t) => pool.intern(t),
        None => StrId(0),
    }
}

pub open spec fn slot_text(strings: Seq<Seq<char>>, slots: Seq<StrId>, i: int) -> Option<
    Seq<char>,
> {
    if 0 <= i < slots.len() {
        text_in(strings, slots[i])
    } else {
        None
    }
}

/// The index says exactly what the rows say, and equal texts have one id.
pub open spec fn index_of_rows(
    index: MemberHotIndex,
    classes: Seq<ClassRow>,
    members: Seq<MemberRow>,
    values: Seq<EnumValueRow>,
    parents: Seq<ParentRow>,
) -> bool {
    &&& forall|c: int| #[trigger]
        index.class_name_of(c) == if c < 0 {
            None
        } else {
            last_name(classes, c, classes.len() as int)
        }
    &&& forall|c: int| (#[trigger] index.class_name_of(c)) is None ==> index.name_id_of(c).0 == 0
    &&& forall|a: StrId, b: StrId|
        (#[trigger] index.text_of(a)) is Some && index.text_of(a) == #[trigger] index.text_of(b)
            ==> a == b
    &&& forall|name: Seq<char>| #[trigger]
        index.named(name) == ids_named(classes, name, classes.len() as int)
    &&& forall|name: Seq<char>| #[trigger]
        index.knows_name(name) <==> index.named(name).len() > 0
    &&& forall|f: int| #[trigger]
        index.text_of(index.path_id_of(f)) == if f < 0 {
            None
        } else {
            last_path(members, f, members.len() as int)
        }
    &&& forall|c: i32|
        {
            let rows = picked(members, member_owners(members), c, members.len() as int);
            (#[trigger] index.members_of(c)).len() == rows.len() && (forall|k: int|
                0 <= k < rows.len() ==> index.member_agrees(
                    #[trigger] index.members_of(c)[k],
                    rows[k],
                ))
        }
    &&& forall|c: i32|
        {
            let rows = picked(values, value_owners(values), c, values.len() as int);
            (#[trigger] index.enum_values_of(c)).len() == rows.len() && (forall|k: int|
                0 <= k < rows.len() ==> index.value_agrees(
                    #[trigger] index.enum_values_of(c)[k],
                    rows[k],
                ))
        }
    &&& forall|c: i32|
        {
            let rows = picked(parents, parent_owners(parents), c, parents.len() as int);
            (#[trigger] index.parents_of(c)).len() == rows.len() && (forall|k: int|
                0 <= k < rows.len() ==> index.parent_agrees(
                    #[trigger] index.parents_of(c)[k],
                    rows[k],
                ))
        }
}

impl MemberHotIndex {
    pub open spec fn member_agrees(&self, e: MemberEntry, row: MemberRow) -> bool {
        member_matches(self.strings(), e, row)
    }

    pub open spec fn value_agrees(&self, e: EnumValueEntry, row: EnumValueRow) -> bool {
        value_matches(self.strings(), e, row)
    }

    pub open spec fn parent_agrees(&self, e: ParentEntry, row: ParentRow) -> bool {
        parent_matches(self.strings(), e, row)
    }
}

proof fn lemma_picked_pairs<A, B>(
    items: Seq<A>,
    rows: Seq<B>,
    owners: Seq<i32>,
    c: i32,
    upto: int,
    agree: spec_fn(A, B) -> bool,
)
    requires
        items.len() == owners.len(),
        rows.len() == owners.len(),
        0 <= upto <= owners.len(),
        forall|j: int| 0 <= j < owners.len() ==> agree(#[trigger] items[j], rows[j]),
    ensures
        picked(items, owners, c, upto).len() == picked(rows, owners, c, upto).len(),
        forall|k: int|
            0 <= k < picked(items, owners, c, upto).len() ==> agree(
                #[trigger] picked(items, owners, c, upto)[k],
                picked(rows, owners, c, upto)[k],
            ),
    decreases upto,
{
    if upto > 0 {
        lemma_picked_pairs(items, rows, owners, c, upto - 1, agree);
        assert(agree(items[upto - 1], rows[upto - 1]));
    }
}

pub fn build_member_hot_index(
    classes: &Vec<ClassRow>,
    members: &Vec<MemberRow>,
    values: &Vec<EnumValueRow>,
    parents: &Vec<ParentRow>,
) -> (r: MemberHotIndex)
    requires
        1 + classes@.len() + 4 * members@.len() + values@.len() + parents@.len() <= u32::MAX,
        forall|i: int| 0 <= i < classes@.len() ==> (#[trigger] classes@[i]).class_id >= 0,
        forall|i: int|
            0 <= i < members@.len() && (#[trigger] members@[i]).file_id is Some
                && members@[i].file_path is Some ==> 0 <= members@[i].file_id->0 < usize::MAX,
        ascending(member_owners(members@)),
        ascending(value_owners(values@)),
        ascending(parent_owners(parents@)),
    ensures
        index_of_rows(r, classes@, members@, values@, parents@),
{
    let mut pool = StringPool::new();
    let (class_names, class_ids_by_name) = build_classes(classes, &mut pool);
    let ghost strings1 = pool@;
    let (file_paths, entries, member_ranges) = build_members(members, &mut pool);
    let ghost strings2 = pool@;
    let (enum_values, enum_ranges) = build_values(values, &mut pool);
    let ghost strings3 = pool@;
    let (parent_entries, parent_ranges) = build_parents(parents, &mut pool);
    let ghost strings4 = pool@;
    let ghost known = pool;
    pool.clear_lookup();
    let r = MemberHotIndex {
        pool,
        file_paths,
        class_names,
        members: entries,
        member_ranges,
        enum_values,
        enum_ranges,
        parents: parent_entries,
        parent_ranges,
        class_ids_by_name,
    };
    proof {
        assert(r.pool@ == strings4);
        assert(known.knows_all());
        assert forall|a: StrId, b: StrId|
            (#[trigger] r.text_of(a)) is Some && r.text_of(a) == #[trigger] r.text_of(
                b,
            ) implies a == b by {
            assert(known.id_of(known@[a.0 as int]) == Some(a.0));
            assert(known.id_of(known@[b.0 as int]) == Some(b.0));
        }
        assert forall|c: int| (#[trigger] r.class_name_of(c)) is None implies r.name_id_of(c).0
            == 0 by {
            if 0 <= c < class_names@.len() {
                assert(class_names@[c].0 < strings1.len());
            }
        }
        assert forall|c: int| #[trigger]
            r.class_name_of(c) == (if c < 0 {
                None
            } else {
                last_name(classes@, c, classes@.len() as int)
            }) by {
            assert(slot_text(strings1, class_names@, c) == last_name(
                classes@,
                c,
                classes@.len() as int,
            ) || c < 0);
            if 0 <= c < class_names@.len() {
                lemma_text_kept(strings1, strings4, class_names@[c]);
            }
        }
        assert forall|f: int| #[trigger]
            r.text_of(r.path_id_of(f)) == (if f < 0 {
                None
            } else {
                last_path(members@, f, members@.len() as int)
            }) by {
            assert(slot_text(strings2, file_paths@, f) == last_path(
                members@,
                f,
                members@.len() as int,
            ) || f < 0);
            if 0 <= f < file_paths@.len() {
                lemma_text_kept(strings2, strings4, file_paths@[f]);
            }
        }
        assert forall|name: Seq<char>| #[trigger]
            r.knows_name(name) <==> r.named(name).len() > 0 by {}
        assert forall|c: i32| true implies ({
            let rows = picked(members@, member_owners(members@), c, members@.len() as int);
            (#[trigger] r.members_of(c)).len() == rows.len() && (forall|k: int|
                0 <= k < rows.len() ==> r.member_agrees(#[trigger] r.members_of(c)[k], rows[k]))
        }) by {
            lemma_slice_is_picked(member_ranges@, entries@, member_owners(members@), c);
            assert forall|j: int| 0 <= j < entries@.len() implies member_matches(
                strings4,
                #[trigger] entries@[j],
                members@[j],
            ) by {
                assert(member_matches(strings2, entries@[j], members@[j]));
                lemma_text_kept(strings2, strings4, entries@[j].name);
                lemma_text_kept(strings2, strings4, entries@[j].return_type);
                lemma_text_kept(strings2, strings4, entries@[j].detail);
            }
            lemma_picked_pairs(
                entries@,
                members@,
                member_owners(members@),
                c,
                members@.len() as int,
                |e: MemberEntry, row: MemberRow| member_matches(strings4, e, row),
            );
        }
        assert forall|c: i32| true implies ({
            let rows = picked(values@, value_owners(values@), c, values@.len() as int);
            (#[trigger] r.enum_values_of(c)).len() == rows.len() && (forall|k: int|
                0 <= k < rows.len() ==> r.value_agrees(#[trigger] r.enum_values_of(c)[k], rows[k]))
        }) by {
            lemma_slice_is_picked(enum_ranges@, enum_values@, value_owners(values@), c);
            assert forall|j: int| 0 <= j < enum_values@.len() implies value_matches(
                strings4,
                #[trigger] enum_values@[j],
                values@[j],
            ) by {
                assert(value_matches(strings3, enum_values@[j], values@[j]));
                lemma_text_kept(strings3, strings4, enum_values@[j].name);
            }
            lemma_picked_pairs(
                enum_values@,
                values@,
                value_owners(values@),
                c,
                values@.len() as int,
                |e: EnumValueEntry, row: EnumValueRow| value_matches(strings4, e, row),
            );
        }
        assert forall|c: i32| true implies ({
            let rows = picked(parents@, parent_owners(parents@), c, parents@.len() as int);
            (#[trigger] r.parents_of(c)).len() == rows.len() && (forall|k: int|
                0 <= k < rows.len() ==> r.parent_agrees(#[trigger] r.parents_of(c)[k], rows[k]))
        }) by {
            lemma_slice_is_picked(parent_ranges@, parent_entries@, parent_owners(parents@), c);
            lemma_picked_pairs(
                parent_entries@,
                parents@,
                parent_owners(parents@),
                c,
                parents@.len() as int,
                |e: ParentEntry, row: ParentRow| parent_matches(strings4, e, row),
            );
        }
    }
    r
}

proof fn lemma_ascending_take(owners: Seq<i32>, n: int)
    requires
        ascending(owners),
        0 <= n <= owners.len(),
    ensures
        ascending(owners.take(n)),
{
    let t = owners.take(n);
    assert forall|i: int, j: int| 0 <= i <= j < t.len() implies t[i] <= t[j] by {
        assert(owners[i] <= owners[j]);
    }
}

proof fn lemma_text_kept(a: Seq<Seq<char>>, b: Seq<Seq<char>>, id: StrId)
    requires
        extends(a, b),
        id.0 < a.len(),
    ensures
        text_in(b, id) == text_in(a, id),
{
}

proof fn lemma_extends_trans(a: Seq<Seq<char>>, b: Seq<Seq<char>>, c: Seq<Seq<char>>)
    requires
        extends(a, b),
        extends(b, c),
    ensures
        extends(a, c),
{
    assert forall|i: int| 0 <= i < a.len() implies #[trigger] c[i] == a[i] by {
        assert(b[i] == a[i]);
    }
}

fn build_classes(classes: &Vec<ClassRow>, pool: &mut StringPool) -> (r: (
    Vec<StrId>,
    TextMap<Vec<i32>>,
))
    requires
        1 + classes@.len() <= u32::MAX,
        old(pool)@.len() == 1,
        forall|i: int| 0 <= i < classes@.len() ==> (#[trigger] classes@[i]).class_id >= 0,
    ensures
        extends(old(pool)@, final(pool)@),
        old(pool).knows_all() ==> final(pool).knows_all(),
        final(pool)@.len() <= 1 + classes@.len(),
        forall|i: int| 0 <= i < r.0@.len() ==> (#[trigger] r.0@[i]).0 < final(pool)@.len(),
        forall|c: int|
            0 <= c ==> #[trigger] slot_text(final(pool)@, r.0@, c) == last_name(
                classes@,
                c,
                classes@.len() as int,
            ),
        forall|name: Seq<char>| #[trigger]
            list_at(r.1, name) == ids_named(classes@, name, classes@.len() as int),
        forall|name: Seq<char>| #[trigger]
            r.1.spec_get(name) is Some <==> list_at(r.1, name).len() > 0,
{
    let mut names: Vec<StrId> = Vec::new();
    names.push(StrId(0));
    let mut table: TextMap<Vec<i32>> = TextMap::new();
    let mut i: usize = 0;
    while i < classes.len()
        invariant
            i <= classes@.len(),
            1 + classes@.len() <= u32::MAX,
            extends(old(pool)@, pool@),
            old(pool).knows_all() ==> pool.knows_all(),
            1 <= pool@.len() <= 1 + i,
            forall|k: int| 0 <= k < classes@.len() ==> (#[trigger] classes@[k]).class_id >= 0,
            forall|k: int| 0 <= k < names@.len() ==> (#[trigger] names@[k]).0 < pool@.len(),
            forall|c: int|
                0 <= c ==> #[trigger] slot_text(pool@, names@, c) == last_name(
                    classes@,
                    c,
                    i as int,
                ),
            forall|name: Seq<char>| #[trigger]
                list_at(table, name) == ids_named(classes@, name, i as int),
            forall|name: Seq<char>| #[trigger]
                table.spec_get(name) is Some <==> list_at(table, name).len() > 0,
        decreases classes@.len() - i,
    {
        let row = &classes[i];
        assert(classes@[i as int].class_id >= 0);
        let ghost names0 = names@;
        let ghost strings0 = pool@;
        let slot: usize = row.class_id as usize;
        ensure_slot(&mut names, slot);
        let id = pool.intern(row.name.as_str());
        names.set(slot, id);
        let ghost table0 = table;
        table.push_item(row.name.as_str(), row.class_id);
        proof {
            lemma_extends_trans(old(pool)@, strings0, pool@);
            assert forall|k: int| 0 <= k < names@.len() implies (#[trigger] names@[k]).0
                < pool@.len() by {
                if k != slot && k < names0.len() {
                    assert(names@[k] == names0[k]);
                }
            }
            assert forall|c: int| 0 <= c implies #[trigger] slot_text(pool@, names@, c)
                == last_name(classes@, c, i + 1) by {
                assert(slot_text(strings0, names0, c) == last_name(classes@, c, i as int));
                if c != slot {
                    if c < names0.len() {
                        assert(names@[c] == names0[c]);
                        lemma_text_kept(strings0, pool@, names0[c]);
                    }
                }
            }
            assert forall|name: Seq<char>| #[trigger]
                list_at(table, name) == ids_named(classes@, name, i + 1) by {
                assert(list_at(table0, name) == ids_named(classes@, name, i as int));
            }
            assert forall|name: Seq<char>| #[trigger]
                table.spec_get(name) is Some <==> list_at(table, name).len() > 0 by {
                assert(table0.spec_get(name) is Some <==> list_at(table0, name).len() > 0);
                assert(list_at(table, name) == (if name == row.name@ {
                    list_at(table0, name).push(row.class_id)
                } else {
                    list_at(table0, name)
                }));
            }
        }
        i = i + 1;
    }
    (names, table)
}

#[verifier::spinoff_prover]
fn build_members(rows: &Vec<MemberRow>, pool: &mut StringPool) -> (r: (
    Vec<StrId>,
    Vec<MemberEntry>,
    Vec<MemberRange>,
))
    requires
        old(pool)@.len() + 4 * rows@.len() <= u32::MAX,
        old(pool)@.len() >= 1,
        forall|i: int|
            0 <= i < rows@.len() && (#[trigger] rows@[i]).file_id is Some
                && rows@[i].file_path is Some ==> 0 <= rows@[i].file_id->0 < usize::MAX,
        ascending(member_owners(rows@)),
    ensures
        extends(old(pool)@, final(pool)@),
        old(pool).knows_all() ==> final(pool).knows_all(),
        final(pool)@.len() <= old(pool)@.len() + 4 * rows@.len(),
        forall|i: int| 0 <= i < r.0@.len() ==> (#[trigger] r.0@[i]).0 < final(pool)@.len(),
        forall|f: int|
            0 <= f ==> #[trigger] slot_text(final(pool)@, r.0@, f) == last_path(
                rows@,
                f,
                rows@.len() as int,
            ),
        r.1@.len() == rows@.len(),
        forall|j: int|
            0 <= j < r.1@.len() ==> member_matches(final(pool)@, #[trigger] r.1@[j], rows@[j])
                && ids_known(final(pool)@, r.1@[j]),
        describes(r.2@, member_owners(rows@), rows@.len() as int),
{
    let ghost owners = member_owners(rows@);
    let mut paths: Vec<StrId> = Vec::new();
    paths.push(StrId(0));
    let mut entries: Vec<MemberEntry> = Vec::new();
    let mut builder = RangeBuilder::new();
    assert(owners.take(0) =~= Seq::<i32>::empty());
    let mut i: usize = 0;
    while i < rows.len()
        invariant
            i <= rows@.len(),
            owners == member_owners(rows@),
            ascending(owners),
            old(pool)@.len() + 4 * rows@.len() <= u32::MAX,
            old(pool)@.len() >= 1,
            extends(old(pool)@, pool@),
            old(pool).knows_all() ==> pool.knows_all(),
            pool@.len() <= old(pool)@.len() + 4 * i,
            forall|k: int|
                0 <= k < rows@.len() && (#[trigger] rows@[k]).file_id is Some
                    && rows@[k].file_path is Some ==> 0 <= rows@[k].file_id->0 < usize::MAX,
            forall|k: int| 0 <= k < paths@.len() ==> (#[trigger] paths@[k]).0 < pool@.len(),
            forall|f: int|
                0 <= f ==> #[trigger] slot_text(pool@, paths@, f) == last_path(rows@, f, i as int),
            entries@.len() == i,
            forall|j: int|
                0 <= j < i ==> member_matches(pool@, #[trigger] entries@[j], rows@[j]) && ids_known(
                    pool@,
                    entries@[j],
                ),
            builder.tracks(owners.take(i as int)),
        decreases rows@.len() - i,
    {
        let row = &rows[i];
        let ghost paths0 = paths@;
        let ghost strings0 = pool@;
        assert(owners.take(i as int).push(row.owner_class_id) =~= owners.take(i + 1));
        proof {
            lemma_ascending_take(owners, i + 1);
        }
        builder.step(row.owner_class_id, i as u32, Ghost(owners.take(i as int)));
        let file_path_id: u32 = match row.file_id {
            Some(id) => if id > 0 {
                id as u32
            } else {
                0
            },
            None => 0,
        };
        if let (Some(file_id), Some(file_path)) = (row.file_id, &row.file_path) {
            assert(0 <= rows@[i as int].file_id->0 < usize::MAX);
            let slot: usize = file_id as usize;
            ensure_slot(&mut paths, slot);
            let slashes = text::replace_char(file_path.as_str(), '\\', "/");
            let id = pool.intern(slashes.as_str());
            paths.set(slot, id);
        }
        let ghost strings1 = pool@;
        proof {
            let row = rows@[i as int];
            assert forall|k: int| 0 <= k < paths@.len() implies (#[trigger] paths@[k]).0
                < pool@.len() by {
                if k < paths0.len() {
                    assert(paths0[k].0 < strings0.len());
                }
            }
            assert forall|f: int| 0 <= f implies #[trigger] slot_text(pool@, paths@, f)
                == last_path(rows@, f, i + 1) by {
                assert(slot_text(strings0, paths0, f) == last_path(rows@, f, i as int));
                let hit = row.file_id is Some && row.file_id->0 == f && row.file_path is Some;
                if !hit && f < paths0.len() {
                    assert(paths@[f] == paths0[f]);
                    lemma_text_kept(strings0, pool@, paths0[f]);
                }
            }
        }
        let name = pool.intern(row.name.as_str());
        let ghost strings2 = pool@;
        let return_type = match &row.return_type {
            Some(t) => intern_optional(pool, Some(t.as_str())),
            None => intern_optional(pool, None),
        };
        let ghost strings3 = pool@;
        let detail = match &row.detail {
            Some(t) => intern_optional(pool, Some(t.as_str())),
            None => intern_optional(pool, None),
        };
        let flags = match &row.access {
            Some(t) => encode_flags(row.is_static, Some(t.as_str())),
            None => encode_flags(row.is_static, None),
        };
        let entry = MemberEntry {
            owner_class_id: row.owner_class_id,
            name,
            return_type,
            detail,
            file_path_id,
            line: row.line,
            kind: MemberKind::from_text(row.member_type.as_str()),
            flags,
            _pad: [0, 0],
        };
        entries.push(entry);
        proof {
            lemma_extends_trans(strings0, strings1, strings2);
            lemma_extends_trans(strings0, strings2, strings3);
            lemma_extends_trans(strings0, strings3, pool@);
            lemma_extends_trans(strings1, strings2, strings3);
            lemma_extends_trans(strings1, strings3, pool@);
            lemma_extends_trans(strings2, strings3, pool@);
            lemma_extends_trans(old(pool)@, strings0, pool@);
            lemma_known(strings2, name);
            lemma_known(strings3, return_type);
            lemma_known(pool@, detail);
            lemma_text_kept(strings2, pool@, name);
            lemma_text_kept(strings3, pool@, return_type);
            assert(member_matches(pool@, entry, rows@[i as int]));
            assert forall|j: int| 0 <= j < i + 1 implies member_matches(
                pool@,
                #[trigger] entries@[j],
                rows@[j],
            ) && ids_known(pool@, entries@[j]) by {
                if j < i {
                    assert(member_matches(strings0, entries@[j], rows@[j]));
                    assert(ids_known(strings0, entries@[j]));
                    lemma_text_kept(strings0, pool@, entries@[j].name);
                    lemma_text_kept(strings0, pool@, entries@[j].return_type);
                    lemma_text_kept(strings0, pool@, entries@[j].detail);
                }
            }
            assert forall|k: int| 0 <= k < paths@.len() implies (#[trigger] paths@[k]).0
                < pool@.len() by {
                assert(paths@[k].0 < strings1.len());
            }
            assert forall|f: int| 0 <= f implies #[trigger] slot_text(pool@, paths@, f)
                == last_path(rows@, f, i + 1) by {
                assert(slot_text(strings1, paths@, f) == last_path(rows@, f, i + 1));
                if f < paths@.len() {
                    lemma_text_kept(strings1, pool@, paths@[f]);
                }
            }
        }
        i = i + 1;
    }
    assert(owners.take(i as int) =~= owners);
    let ranges = builder.finish(entries.len() as u32, Ghost(owners));
    (paths, entries, ranges)
}

pub open spec fn ids_known(strings: Seq<Seq<char>>, e: MemberEntry) -> bool {
    e.name.0 < strings.len() && e.return_type.0 < strings.len() && e.detail.0 < strings.len()
}

proof fn lemma_known(strings: Seq<Seq<char>>, id: StrId)
    requires
        strings.len() >= 1,
        id.0 == 0 || text_in(strings, id) is Some,
    ensures
        id.0 < strings.len(),
{
}

fn build_values(rows: &Vec<EnumValueRow>, pool: &mut StringPool) -> (r: (
    Vec<EnumValueEntry>,
    Vec<MemberRange>,
))
    requires
        old(pool)@.len() + rows@.len() <= u32::MAX,
        old(pool)@.len() >= 1,
        ascending(value_owners(rows@)),
    ensures
        extends(old(pool)@, final(pool)@),
        old(pool).knows_all() ==> final(pool).knows_all(),
        final(pool)@.len() <= old(pool)@.len() + rows@.len(),
        r.0@.len() == rows@.len(),
        forall|j: int|
            0 <= j < r.0@.len() ==> value_matches(final(pool)@, #[trigger] r.0@[j], rows@[j])
                && r.0@[j].name.0 < final(pool)@.len(),
        describes(r.1@, value_owners(rows@), rows@.len() as int),
{
    let ghost owners = value_owners(rows@);
    let mut entries: Vec<EnumValueEntry> = Vec::new();
    let mut builder = RangeBuilder::new();
    assert(owners.take(0) =~= Seq::<i32>::empty());
    let mut i: usize = 0;
    while i < rows.len()
        invariant
            i <= rows@.len(),
            owners == value_owners(rows@),
            ascending(owners),
            old(pool)@.len() + rows@.len() <= u32::MAX,
            old(pool)@.len() >= 1,
            extends(old(pool)@, pool@),
            old(pool).knows_all() ==> pool.knows_all(),
            pool@.len() <= old(pool)@.len() + i,
            entries@.len() == i,
            forall|j: int|
                0 <= j < i ==> value_matches(pool@, #[trigger] entries@[j], rows@[j])
                    && entries@[j].name.0 < pool@.len(),
            builder.tracks(owners.take(i as int)),
        decreases rows@.len() - i,
    {
        let row = &rows[i];
        let ghost strings0 = pool@;
        assert(owners.take(i as int).push(row.owner_class_id) =~= owners.take(i + 1));
        proof {
            lemma_ascending_take(owners, i + 1);
        }
        builder.step(row.owner_class_id, i as u32, Ghost(owners.take(i as int)));
        let name = pool.intern(row.name.as_str());
        entries.push(EnumValueEntry { owner_class_id: row.owner_class_id, name });
        proof {
            lemma_extends_trans(old(pool)@, strings0, pool@);
            lemma_known(pool@, name);
            assert forall|j: int| 0 <= j < i + 1 implies value_matches(
                pool@,
                #[trigger] entries@[j],
                rows@[j],
            ) && entries@[j].name.0 < pool@.len() by {
                if j < i {
                    assert(value_matches(strings0, entries@[j], rows@[j]));
                    lemma_text_kept(strings0, pool@, entries@[j].name);
                }
            }
        }
        i = i + 1;
    }
    assert(owners.take(i as int) =~= owners);
    let ranges = builder.finish(entries.len() as u32, Ghost(owners));
    (entries, ranges)
}

fn build_parents(rows: &Vec<ParentRow>, pool: &mut StringPool) -> (r: (
    Vec<ParentEntry>,
    Vec<MemberRange>,
))
    requires
        old(pool)@.len() + rows@.len() <= u32::MAX,
        old(pool)@.len() >= 1,
        ascending(parent_owners(rows@)),
    ensures
        extends(old(pool)@, final(pool)@),
        old(pool).knows_all() ==> final(pool).knows_all(),
        r.0@.len() == rows@.len(),
        forall|j: int|
            0 <= j < r.0@.len() ==> parent_matches(final(pool)@, #[trigger] r.0@[j], rows@[j]),
        describes(r.1@, parent_owners(rows@), rows@.len() as int),
{
    let ghost owners = parent_owners(rows@);
    let mut entries: Vec<ParentEntry> = Vec::new();
    let mut builder = RangeBuilder::new();
    assert(owners.take(0) =~= Seq::<i32>::empty());
    let mut i: usize = 0;
    while i < rows.len()
        invariant
            i <= rows@.len(),
            owners == parent_owners(rows@),
            ascending(owners),
            old(pool)@.len() + rows@.len() <= u32::MAX,
            old(pool)@.len() >= 1,
            extends(old(pool)@, pool@),
            old(pool).knows_all() ==> pool.knows_all(),
            pool@.len() <= old(pool)@.len() + i,
            entries@.len() == i,
            forall|j: int|
                0 <= j < i ==> parent_matches(pool@, #[trigger] entries@[j], rows@[j])
                    && entries@[j].parent_name.0 < pool@.len(),
            builder.tracks(owners.take(i as int)),
        decreases rows@.len() - i,
    {
        let row = &rows[i];
        let ghost strings0 = pool@;
        assert(owners.take(i as int).push(row.child_id) =~= owners.take(i + 1));
        proof {
            lemma_ascending_take(owners, i + 1);
        }
        builder.step(row.child_id, i as u32, Ghost(owners.take(i as int)));
        let name = pool.intern(row.parent_name.as_str());
        entries.push(ParentEntry { parent_class_id: row.parent_class_id, parent_name: name });
        proof {
            lemma_extends_trans(old(pool)@, strings0, pool@);
            lemma_known(pool@, name);
            assert forall|j: int| 0 <= j < i + 1 implies parent_matches(
                pool@,
                #[trigger] entries@[j],
                rows@[j],
            ) && entries@[j].parent_name.0 < pool@.len() by {
                if j < i {
                    assert(parent_matches(strings0, entries@[j], rows@[j]));
                    lemma_text_kept(strings0, pool@, entries@[j].parent_name);
                }
            }
        }
        i = i + 1;
    }
    assert(owners.take(i as int) =~= owners);
    let ranges = builder.finish(entries.len() as u32, Ghost(owners));
    (entries, ranges)
}

} // verus!
