//! The names of the builtin types.
use vstd::prelude::*;

use super::types::{ArenaView, BuiltinType, TypeArena, TypeId, TypeKind, TypeShape};
use crate::text;
use crate::textmap::{key_position, TextMap};

verus! {

/// Which builtin type a name stands for.
pub struct BuiltinTypeAliases {
    pub names: TextMap<BuiltinType>,
}

impl View for BuiltinTypeAliases {
    type V = Seq<(Seq<char>, BuiltinType)>;

    open spec fn view(&self) -> Seq<(Seq<char>, BuiltinType)> {
        self.names.pairs()
    }
}

pub open spec fn alias_of(pairs: Seq<(Seq<char>, BuiltinType)>, name: Seq<char>) -> Option<BuiltinType> {
    let i = key_position(pairs, name, 0);
    if i < pairs.len() {
        Some(pairs[i].1)
    } else {
        None
    }
}

/// The pairs after the name was made to stand for the type.
pub open spec fn with_alias(
    pairs: Seq<(Seq<char>, BuiltinType)>,
    name: Seq<char>,
    builtin: BuiltinType,
) -> Seq<(Seq<char>, BuiltinType)> {
    let i = key_position(pairs, name, 0);
    if i < pairs.len() {
        pairs.update(i, (name, builtin))
    } else {
        pairs.push((name, builtin))
    }
}

/// The pairs after the names from position `k` on, without blank ones.
pub open spec fn with_aliases(
    pairs: Seq<(Seq<char>, BuiltinType)>,
    aliases: Seq<Seq<char>>,
    builtin: BuiltinType,
    k: int,
) -> Seq<(Seq<char>, BuiltinType)>
    decreases aliases.len() - k,
{
    if k < 0 || k >= aliases.len() {
        pairs
    } else if text::trimmed(aliases[k]).len() == 0 {
        with_aliases(pairs, aliases, builtin, k + 1)
    } else {
        with_aliases(with_alias(pairs, text::trimmed(aliases[k]), builtin), aliases, builtin, k + 1)
    }
}

impl BuiltinTypeAliases {
    pub fn new() -> (r: Self)
        ensures
            r@ == Seq::<(Seq<char>, BuiltinType)>::empty(),
    {
        BuiltinTypeAliases { names: TextMap::new() }
    }

    pub fn extend_aliases(&mut self, aliases: &Vec<String>, builtin: BuiltinType)
        ensures
            final(self)@ == with_aliases(old(self)@, text::texts(aliases@), builtin, 0),
    {
        let n: usize = aliases.len();
        let mut i: usize = 0;
        while i < n
            invariant
                n == aliases@.len(),
                i <= n,
                with_aliases(old(self)@, text::texts(aliases@), builtin, 0) == with_aliases(
                    self@,
                    text::texts(aliases@),
                    builtin,
                    i as int,
                ),
            decreases n - i,
        {
            let trimmed = text::trim(&aliases[i]);
            if !trimmed.is_empty() {
                self.names.insert(trimmed, builtin);
            }
            i = i + 1;
        }
    }

    pub fn get(&self, name: &str) -> (r: Option<BuiltinType>)
        ensures
            r == alias_of(self@, name@),
    {
        match self.names.get(name) {
            Some(b) => Some(*b),
            None => None,
        }
    }
}

/// The type that a builtin stands for.
pub open spec fn builtin_shape(b: BuiltinType) -> TypeShape {
    TypeShape::Builtin(b)
}

pub open spec fn builtin_id(a: ArenaView, b: BuiltinType) -> TypeId {
    match b {
        BuiltinType::Void => a.void_t,
        BuiltinType::Bool => a.bool_t,
        BuiltinType::Char => a.id_of(builtin_shape(BuiltinType::Char)),
        BuiltinType::Int32 => a.int32_t,
        BuiltinType::UInt32 => a.uint32_t,
        BuiltinType::Float => a.float_t,
        BuiltinType::Double => a.double_t,
    }
}

/// The builtin type that a name stands for, with the arena in which it then stands.
pub open spec fn builtin_named(
    a: ArenaView,
    aliases: Seq<(Seq<char>, BuiltinType)>,
    name: Seq<char>,
) -> (ArenaView, Option<TypeId>) {
    match alias_of(aliases, text::trimmed(name)) {
        Some(b) => (
            if b == BuiltinType::Char {
                a.with(builtin_shape(BuiltinType::Char))
            } else {
                a
            },
            Some(builtin_id(a, b)),
        ),
        None => (a, None),
    }
}

pub fn builtin_type_by_name(arena: &mut TypeArena, aliases: &BuiltinTypeAliases, name: &str) -> (r:
    Option<TypeId>)
    ensures
        (final(arena)@, r) == builtin_named(old(arena)@, aliases@, name@),
{
    match aliases.get(text::trim(name)) {
        Some(b) => Some(
            match b {
                BuiltinType::Void => arena.void_t,
                BuiltinType::Bool => arena.bool_t,
                BuiltinType::Char => arena.intern(TypeKind::Builtin(BuiltinType::Char)),
                BuiltinType::Int32 => arena.int32_t,
                BuiltinType::UInt32 => arena.uint32_t,
                BuiltinType::Float => arena.float_t,
                BuiltinType::Double => arena.double_t,
            },
        ),
        None => None,
    }
}

} // verus!
