//! How values of one type fit places of another.
use vstd::prelude::*;

use super::types::{BuiltinType, TypeId, TypeShape};
use super::{canonical, class_derives, compat, equivalent, fits, Compat, SemaView};

verus! {

/// The type is neither a reference nor another name of a type.
pub open spec fn plain(c: SemaView, id: TypeId) -> bool {
    match c.kind(id) {
        Some(TypeShape::Reference { .. }) | Some(TypeShape::Typedef { .. }) | None => false,
        _ => true,
    }
}

proof fn lemma_plain_canonical(c: SemaView, id: TypeId, guard: nat)
    requires
        !(c.kind(id) matches Some(TypeShape::Typedef { .. })),
    ensures
        canonical(c, id, guard) == id,
{
}

proof fn lemma_plain_fits(c: SemaView, from: TypeId, to: TypeId, depth: nat)
    requires
        plain(c, from),
        plain(c, to),
        depth > 0,
    ensures
        fits(c, from, to, depth) == fits(c, from, to, 1),
{
    lemma_plain_canonical(c, from, 32);
    lemma_plain_canonical(c, to, 32);
}

/// A value of a type fits a place of that type, and every type is equivalent to itself.
pub proof fn types_fit_themselves(c: SemaView, id: TypeId)
    ensures
        compat(c, id, id) == Compat::Same,
        equivalent(c, id, id),
{
}

/// Types are equivalent either way round.
pub proof fn equivalence_goes_both_ways(c: SemaView, a: TypeId, b: TypeId)
    ensures
        equivalent(c, a, b) == equivalent(c, b, a),
{
}

/// A number of the first type is held by the second: characters by all numbers, whole numbers by all
/// but characters, floats by floats and doubles.
pub open spec fn holds(from: BuiltinType, to: BuiltinType) -> bool {
    match from {
        BuiltinType::Char => to == BuiltinType::Char || to == BuiltinType::Int32 || to
            == BuiltinType::UInt32 || to == BuiltinType::Float || to == BuiltinType::Double,
        BuiltinType::Int32 | BuiltinType::UInt32 => to == BuiltinType::Int32 || to
            == BuiltinType::UInt32 || to == BuiltinType::Float || to == BuiltinType::Double,
        BuiltinType::Float => to == BuiltinType::Float || to == BuiltinType::Double,
        BuiltinType::Double => to == BuiltinType::Double,
        BuiltinType::Void | BuiltinType::Bool => false,
    }
}

pub open spec fn a_number(b: BuiltinType) -> bool {
    b != BuiltinType::Void && b != BuiltinType::Bool
}

/// A number is promoted to a type that holds it, and converted to any other number; a truth value
/// and void fit nothing but themselves.
pub proof fn numbers_are_promoted_or_converted(
    c: SemaView,
    from: TypeId,
    to: TypeId,
    x: BuiltinType,
    y: BuiltinType,
)
    requires
        from != to,
        c.kind(from) == Some(TypeShape::Builtin(x)),
        c.kind(to) == Some(TypeShape::Builtin(y)),
    ensures
        compat(c, from, to) == if !a_number(x) || !a_number(y) {
            Compat::Incompatible
        } else if holds(x, y) {
            Compat::NumericPromote
        } else {
            Compat::NumericConvert
        },
{
    lemma_plain_canonical(c, from, 32);
    lemma_plain_canonical(c, to, 32);
}

/// A pointer fits one to the same, one to void, and, where it points to a class, one to a class that
/// this comes from; `nullptr` fits every pointer, and no pointer fits `nullptr`.
pub proof fn pointers_fit_void_and_bases(
    c: SemaView,
    from: TypeId,
    to: TypeId,
    p: TypeId,
    q: TypeId,
    null: TypeId,
)
    requires
        from != to,
        c.kind(from) matches Some(TypeShape::Pointer { pointee, .. }) && pointee == p,
        c.kind(to) matches Some(TypeShape::Pointer { pointee, .. }) && pointee == q,
        c.kind(null) == Some(TypeShape::Nullptr),
    ensures
        p == q ==> compat(c, from, to) == Compat::Same,
        p != q && c.kind(q) == Some(TypeShape::Builtin(BuiltinType::Void)) ==> compat(c, from, to)
            == Compat::PointerToVoid,
        p != q && (c.kind(p) matches Some(TypeShape::Class(x)) && c.kind(q) matches Some(
            TypeShape::Class(y),
        ) && class_derives(c, x, y)) ==> compat(c, from, to) == Compat::DerivedToBase,
        p != q && (c.kind(p) matches Some(TypeShape::Class(x)) && c.kind(q) matches Some(
            TypeShape::Class(y),
        ) && !class_derives(c, x, y)) ==> compat(c, from, to) == Compat::Incompatible,
        p != q && c.kind(q) is Some && c.kind(q)->0 is Builtin && c.kind(q) != Some(
            TypeShape::Builtin(BuiltinType::Void),
        ) ==> compat(c, from, to) == Compat::Incompatible,
        compat(c, null, to) == Compat::NullptrToPointer,
        compat(c, to, null) == Compat::Incompatible,
{
    lemma_plain_canonical(c, from, 32);
    lemma_plain_canonical(c, to, 32);
    lemma_plain_canonical(c, null, 32);
}

/// An object fits a place of a class that its class comes from, and of no other class.
pub proof fn objects_fit_their_bases(
    c: SemaView,
    from: TypeId,
    to: TypeId,
    x: super::symbol::ClassId,
    y: super::symbol::ClassId,
)
    requires
        from != to,
        c.kind(from) == Some(TypeShape::Class(x)),
        c.kind(to) == Some(TypeShape::Class(y)),
    ensures
        class_derives(c, x, y) ==> compat(c, from, to) == Compat::DerivedToBase,
        !class_derives(c, x, y) ==> compat(c, from, to) == Compat::Incompatible,
{
    lemma_plain_canonical(c, from, 32);
    lemma_plain_canonical(c, to, 32);
}

/// Numbers, pointers and objects do not fit one another.
pub proof fn kinds_of_values_stay_apart(c: SemaView, number: TypeId, pointer: TypeId, object: TypeId)
    requires
        c.kind(number) is Some && c.kind(number)->0 is Builtin,
        c.kind(pointer) is Some && c.kind(pointer)->0 is Pointer,
        c.kind(object) is Some && c.kind(object)->0 is Class,
    ensures
        compat(c, number, pointer) == Compat::Incompatible,
        compat(c, pointer, number) == Compat::Incompatible,
        compat(c, number, object) == Compat::Incompatible,
        compat(c, object, number) == Compat::Incompatible,
        compat(c, pointer, object) == Compat::Incompatible,
        compat(c, object, pointer) == Compat::Incompatible,
{
    lemma_plain_canonical(c, number, 32);
    lemma_plain_canonical(c, pointer, 32);
    lemma_plain_canonical(c, object, 32);
}

/// A reference fits as what it refers to does, and a place for a reference takes what a place for
/// the thing itself takes.
pub proof fn references_fit_like_what_they_refer_to(
    c: SemaView,
    reference: TypeId,
    thing: TypeId,
    other: TypeId,
)
    requires
        c.kind(reference) matches Some(TypeShape::Reference { referent, .. }) && referent == thing,
        plain(c, thing),
        plain(c, other),
    ensures
        compat(c, reference, other) == compat(c, thing, other),
        compat(c, other, reference) == compat(c, other, thing),
        compat(c, reference, thing) == Compat::Same,
        compat(c, thing, reference) == Compat::Same,
        equivalent(c, reference, thing),
{
    let depth = 2 * c.types.kinds.len() + 2;
    lemma_plain_canonical(c, reference, 32);
    lemma_plain_canonical(c, thing, 32);
    lemma_plain_canonical(c, other, 32);
    lemma_plain_fits(c, thing, other, depth);
    lemma_plain_fits(c, thing, other, (depth - 1) as nat);
    lemma_plain_fits(c, other, thing, depth);
    lemma_plain_fits(c, other, thing, (depth - 1) as nat);
    lemma_plain_fits(c, thing, thing, (depth - 1) as nat);
    assert(reference != other && reference != thing);
    assert(fits(c, reference, other, depth) == fits(c, thing, other, (depth - 1) as nat));
    assert(fits(c, other, reference, depth) == fits(c, other, thing, (depth - 1) as nat));
    assert(fits(c, reference, thing, depth) == fits(c, thing, thing, (depth - 1) as nat));
    assert(fits(c, thing, reference, depth) == fits(c, thing, thing, (depth - 1) as nat));
}

/// Another name of a type fits as the type does.
pub proof fn names_of_a_type_fit_like_it(c: SemaView, name: TypeId, id: TypeId, other: TypeId)
    requires
        c.kind(name) matches Some(TypeShape::Typedef { aliased, .. }) && aliased == id,
        plain(c, id),
    ensures
        compat(c, name, other) == compat(c, id, other),
        compat(c, other, name) == compat(c, other, id),
        equivalent(c, name, id),
{
    lemma_plain_canonical(c, id, 32);
    lemma_plain_canonical(c, id, 31);
    assert(canonical(c, name, 32) == canonical(c, id, 31));
    let depth = 2 * c.types.kinds.len() + 2;
    assert(fits(c, name, other, depth) == fits(c, id, other, depth));
    assert(fits(c, other, name, depth) == fits(c, other, id, depth));
}

} // verus!
