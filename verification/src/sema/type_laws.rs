//! What holds of types: the class that a type stands for, its text, and how types fit.
use vstd::prelude::*;

use super::intern::knowing;
use super::resolve::{class_of, class_of_type, existing_type};
use super::symbol::ClassId;
use super::types::{first_types, ArgShape, BuiltinType, Compat, TypeId, TypeShape};
use super::{
    builtin_text, canonical, class_derives, compat, equivalent, fits, numeric, numeric_order,
    or_unknown, render, rendered, rendered_args, type_derives, SemaView,
};
use crate::text;

verus! {

// ---------------------------------------------------------------------------
// The class of a type
// ---------------------------------------------------------------------------
/// The type that a type takes its class from, where it does not stand for a class by itself.
pub open spec fn class_source(c: SemaView, id: TypeId) -> Option<TypeId> {
    match c.kind(id) {
        Some(TypeShape::Pointer { pointee, .. }) => Some(pointee),
        Some(TypeShape::Reference { referent, .. }) => Some(referent),
        Some(TypeShape::Typedef { aliased, .. }) => Some(aliased),
        Some(TypeShape::Template { base, .. }) => if render(c, id) is Some
            && c.symbols.class_id_by_name(render(c, id)->0) is Some {
            None
        } else {
            existing_type(c, base)
        },
        _ => None,
    }
}

proof fn lemma_class_step(c: SemaView, id: TypeId, depth: nat)
    requires
        depth > 0,
    ensures
        match class_source(c, id) {
            Some(next) => class_of(c, id, depth) == class_of(c, next, (depth - 1) as nat),
            None => class_of(c, id, depth) == class_of(c, id, 1),
        },
        class_of(c, id, depth) is Some ==> id.0 < c.types.kinds.len(),
{
}

/// Once a class is found, looking further finds no other.
proof fn lemma_class_kept(c: SemaView, id: TypeId, depth: nat, more: nat)
    requires
        class_of(c, id, depth) is Some,
        depth <= more,
    ensures
        class_of(c, id, more) == class_of(c, id, depth),
    decreases depth,
{
    lemma_class_step(c, id, depth);
    lemma_class_step(c, id, more);
    if let Some(next) = class_source(c, id) {
        lemma_class_kept(c, next, (depth - 1) as nat, (more - 1) as nat);
    }
}

/// A class that is found at a depth, and not before, is found through as many types, and none of
/// them is among those from which nothing is found at that depth.
proof fn lemma_class_depth(c: SemaView, id: TypeId, depth: nat, seen: Set<u32>)
    requires
        depth > 0,
        class_of(c, id, depth) is Some,
        class_of(c, id, (depth - 1) as nat) is None,
        seen.finite(),
        forall|s: u32| #[trigger]
            seen.contains(s) ==> s < c.types.kinds.len() && class_of(c, TypeId(s), depth) is None,
    ensures
        seen.len() + depth <= c.types.kinds.len(),
    decreases depth,
{
    lemma_class_step(c, id, depth);
    assert(TypeId(id.0) == id);
    assert(!seen.contains(id.0));
    let now = seen.insert(id.0);
    if depth == 1 {
        lemma_ids_below(now, c.types.kinds.len());
    } else {
        lemma_class_step(c, id, (depth - 1) as nat);
        let next = class_source(c, id)->0;
        assert forall|s: u32| #[trigger] now.contains(s) implies s < c.types.kinds.len()
            && class_of(c, TypeId(s), (depth - 1) as nat) is None by {
            if s != id.0 {
                assert(seen.contains(s));
                if class_of(c, TypeId(s), (depth - 1) as nat) is Some {
                    lemma_class_kept(c, TypeId(s), (depth - 1) as nat, depth);
                }
            }
        }
        lemma_class_depth(c, next, (depth - 1) as nat, now);
    }
}

pub proof fn lemma_ids_below(ids: Set<u32>, n: nat)
    requires
        ids.finite(),
        forall|s: u32| #[trigger] ids.contains(s) ==> s < n,
    ensures
        ids.len() <= n,
{
    let f = |x: u32| x as int;
    let image = ids.map(f);
    let all = vstd::set_lib::set_int_range(0, n as int);
    vstd::set_lib::lemma_int_range(0, n as int);
    ids.lemma_map_finite(f);
    vstd::set_lib::lemma_map_size(ids, image, f);
    assert(image.subset_of(all));
    vstd::set_lib::lemma_len_subset(image, all);
}

/// The least depth at which the class is found.
proof fn lemma_least_depth(c: SemaView, id: TypeId, depth: nat) -> (least: nat)
    requires
        class_of(c, id, depth) is Some,
    ensures
        0 < least <= depth,
        class_of(c, id, least) == class_of(c, id, depth),
        class_of(c, id, (least - 1) as nat) is None,
    decreases depth,
{
    if class_of(c, id, (depth - 1) as nat) is None {
        depth
    } else {
        lemma_class_kept(c, id, (depth - 1) as nat, depth);
        lemma_least_depth(c, id, (depth - 1) as nat)
    }
}

/// A pointer, a reference and an alias have the class of what they stand for; so has a template
/// that is no class by itself. A class has itself, and other types have none.
pub proof fn class_is_that_of_what_is_meant(c: SemaView, id: TypeId)
    ensures
        c.kind(id) matches Some(TypeShape::Class(class_id)) ==> class_of_type(c, id) == Some(
            class_id,
        ),
        c.kind(id) matches Some(TypeShape::Pointer { pointee, .. }) ==> class_of_type(c, id)
            == class_of_type(c, pointee),
        c.kind(id) matches Some(TypeShape::Reference { referent, .. }) ==> class_of_type(c, id)
            == class_of_type(c, referent),
        c.kind(id) matches Some(TypeShape::Typedef { aliased, .. }) ==> class_of_type(c, id)
            == class_of_type(c, aliased),
        class_source(c, id) matches Some(next) ==> class_of_type(c, id) == class_of_type(c, next),
        c.kind(id) is None ==> class_of_type(c, id) is None,
        c.kind(id) matches Some(kind) && (kind is Builtin || kind is Nullptr || kind is Enum
            || kind is Array || kind is Function || kind is Dependent || kind is Auto
            || kind is Unknown) ==> class_of_type(c, id) is None,
{
    let n = c.types.kinds.len();
    if let Some(next) = class_source(c, id) {
        lemma_class_step(c, id, n);
        if class_of(c, next, n) is Some {
            let least = lemma_least_depth(c, next, n);
            let seen = Set::<u32>::empty().insert(id.0);
            assert(TypeId(id.0) == id);
            lemma_class_step(c, id, least);
            lemma_class_depth(c, next, least, seen);
            lemma_class_kept(c, next, least, (n - 1) as nat);
        } else if class_of(c, next, (n - 1) as nat) is Some {
            lemma_class_kept(c, next, (n - 1) as nat, n);
        }
    }
}

// ---------------------------------------------------------------------------
// The text of a type
// ---------------------------------------------------------------------------
/// What a type is made of stands before `k`.
pub open spec fn made_of_earlier(kind: TypeShape, k: int) -> bool {
    match kind {
        TypeShape::Pointer { pointee, .. } => pointee.0 < k,
        TypeShape::Reference { referent, .. } => referent.0 < k,
        TypeShape::Array { elem, .. } => elem.0 < k,
        TypeShape::Function { return_t, params, .. } => return_t.0 < k && forall|i: int|
            0 <= i < params.len() ==> (#[trigger] params[i]).0 < k,
        TypeShape::Typedef { aliased, .. } => aliased.0 < k,
        TypeShape::Template { args, .. } => forall|i: int|
            0 <= i < args.len() ==> arg_below(#[trigger] args[i], k),
        _ => true,
    }
}

pub open spec fn arg_below(arg: ArgShape, k: int) -> bool {
    match arg {
        ArgShape::Type(t) => t.0 < k,
        ArgShape::Value(_) => true,
    }
}

/// Every type is made of types that stand before it.
pub open spec fn built_in_order(c: SemaView) -> bool {
    forall|k: int|
        0 <= k < c.types.kinds.len() ==> made_of_earlier(#[trigger] c.types.kinds[k], k)
}

/// A type that is made of known types may be made known: the types stay in order. They are so from
/// the start.
pub proof fn known_types_stay_in_order(c: SemaView, s: TypeShape)
    requires
        made_of_earlier(s, c.types.kinds.len() as int),
    ensures
        c.types == first_types() ==> built_in_order(c),
        built_in_order(c) ==> built_in_order(knowing(c, s)),
{
    let now = knowing(c, s);
    if built_in_order(c) {
        assert forall|k: int| 0 <= k < now.types.kinds.len() implies made_of_earlier(
            #[trigger] now.types.kinds[k],
            k,
        ) by {
            if k < c.types.kinds.len() {
                assert(made_of_earlier(c.types.kinds[k], k));
            }
        }
    }
}

/// The types whose texts stand in the text of a type rank below `top`.
pub open spec fn written_with_lower(
    kind: TypeShape,
    rank: spec_fn(TypeId) -> nat,
    top: nat,
) -> bool {
    match kind {
        TypeShape::Pointer { pointee, .. } => rank(pointee) < top,
        TypeShape::Reference { referent, .. } => rank(referent) < top,
        TypeShape::Array { elem, .. } => rank(elem) < top,
        TypeShape::Function { return_t, .. } => rank(return_t) < top,
        TypeShape::Template { args, .. } => forall|i: int|
            0 <= i < args.len() ==> (#[trigger] args[i] matches ArgShape::Type(t) ==> rank(t) < top),
        _ => true,
    }
}

/// Every type ranks above those whose texts stand in its own.
pub open spec fn ranks_texts(c: SemaView, rank: spec_fn(TypeId) -> nat) -> bool {
    forall|id: TypeId| #[trigger]
        c.kind(id) is Some ==> written_with_lower(c.kind(id)->0, rank, rank(id))
}

/// The text of no type stands in itself, however many types lie between.
pub open spec fn texts_end(c: SemaView) -> bool {
    exists|rank: spec_fn(TypeId) -> nat| ranks_texts(c, rank)
}

/// The type that a typedef or a reference stands for.
pub open spec fn stands_behind(kind: TypeShape) -> Option<TypeId> {
    match kind {
        TypeShape::Typedef { aliased, .. } => Some(aliased),
        TypeShape::Reference { referent, .. } => Some(referent),
        _ => None,
    }
}

/// Every typedef and every reference ranks above what it stands for.
pub open spec fn ranks_references(c: SemaView, rank: spec_fn(TypeId) -> nat) -> bool {
    forall|id: TypeId|
        (#[trigger] c.kind(id)) is Some && stands_behind(c.kind(id)->0) is Some ==> rank(
            stands_behind(c.kind(id)->0)->0,
        ) < rank(id)
}

/// No reference refers to itself, however many typedefs and references lie between.
pub open spec fn references_end(c: SemaView) -> bool {
    exists|rank: spec_fn(TypeId) -> nat| ranks_references(c, rank)
}

/// Where types stand in order, no text stands in itself and no reference refers to itself.
pub proof fn ordered_types_end(c: SemaView)
    requires
        built_in_order(c),
    ensures
        texts_end(c),
        references_end(c),
{
    let rank = |id: TypeId| id.0 as nat;
    assert forall|id: TypeId| #[trigger] c.kind(id) is Some implies written_with_lower(
        c.kind(id)->0,
        rank,
        rank(id),
    ) by {
        let kind = c.types.kinds[id.0 as int];
        assert(made_of_earlier(kind, id.0 as int));
        if let TypeShape::Template { base, args } = kind {
            assert forall|i: int| 0 <= i < args.len() implies (#[trigger] args[i] matches ArgShape::Type(
                t,
            ) ==> rank(t) < rank(id)) by {
                assert(arg_below(args[i], id.0 as int));
            }
        }
    }
    assert forall|id: TypeId|
        (#[trigger] c.kind(id)) is Some && stands_behind(c.kind(id)->0) is Some implies rank(
        stands_behind(c.kind(id)->0)->0,
    ) < rank(id) by {
        assert(made_of_earlier(c.types.kinds[id.0 as int], id.0 as int));
    }
    assert(ranks_texts(c, rank));
    assert(ranks_references(c, rank));
}

/// The types that rank no higher than a type.
spec fn no_higher(c: SemaView, rank: spec_fn(TypeId) -> nat, id: TypeId) -> Set<int> {
    vstd::set_lib::set_int_range(0, c.types.kinds.len() as int).filter(
        |k: int| rank(TypeId(k as u32)) <= rank(id),
    )
}

/// How many types rank no higher than a type, which bounds how deep it is nested.
spec fn level(c: SemaView, rank: spec_fn(TypeId) -> nat, id: TypeId) -> nat {
    if c.kind(id) is Some {
        no_higher(c, rank, id).len()
    } else {
        0
    }
}

proof fn lemma_no_higher(c: SemaView, rank: spec_fn(TypeId) -> nat, id: TypeId)
    ensures
        no_higher(c, rank, id).finite(),
        no_higher(c, rank, id).len() <= c.types.kinds.len(),
        c.kind(id) is Some ==> no_higher(c, rank, id).contains(id.0 as int),
{
    let n = c.types.kinds.len() as int;
    let all = vstd::set_lib::set_int_range(0, n);
    vstd::set_lib::lemma_int_range(0, n);
    assert(no_higher(c, rank, id).subset_of(all));
    vstd::set_lib::lemma_len_subset(no_higher(c, rank, id), all);
    assert(TypeId(id.0 as int as u32) == id);
}

/// What ranks lower lies on a lower level.
proof fn lemma_lower(c: SemaView, rank: spec_fn(TypeId) -> nat, part: TypeId, id: TypeId)
    requires
        c.kind(id) is Some,
        rank(part) < rank(id),
    ensures
        level(c, rank, part) < level(c, rank, id),
{
    lemma_no_higher(c, rank, id);
    lemma_no_higher(c, rank, part);
    let low = no_higher(c, rank, part);
    let high = no_higher(c, rank, id);
    assert(TypeId(id.0 as int as u32) == id);
    assert(!low.contains(id.0 as int));
    assert(low.subset_of(high.remove(id.0 as int)));
    vstd::set_lib::lemma_len_subset(low, high.remove(id.0 as int));
}

proof fn lemma_level(c: SemaView, rank: spec_fn(TypeId) -> nat, id: TypeId)
    ensures
        level(c, rank, id) <= c.types.kinds.len(),
        c.kind(id) is Some ==> 0 < level(c, rank, id),
{
    lemma_no_higher(c, rank, id);
    if c.kind(id) is Some {
        assert(no_higher(c, rank, id).len() > 0);
    }
}

/// The texts of template arguments.
pub open spec fn arg_texts(c: SemaView, args: Seq<ArgShape>) -> Seq<Seq<char>> {
    args.map_values(
        |a: ArgShape|
            match a {
                ArgShape::Type(t) => or_unknown(render(c, t)),
                ArgShape::Value(v) => v,
            },
    )
}

/// The text of a type does not depend on how far it is followed beyond its level.
proof fn lemma_rendered_alike(
    c: SemaView,
    rank: spec_fn(TypeId) -> nat,
    id: TypeId,
    a: nat,
    b: nat,
)
    requires
        ranks_texts(c, rank),
        level(c, rank, id) <= a,
        level(c, rank, id) <= b,
    ensures
        rendered(c, id, a) == rendered(c, id, b),
    decreases level(c, rank, id), 1nat, 0nat,
{
    lemma_level(c, rank, id);
    if let Some(kind) = c.kind(id) {
        let a1 = (a - 1) as nat;
        let b1 = (b - 1) as nat;
        assert(written_with_lower(kind, rank, rank(id)));
        match kind {
            TypeShape::Pointer { pointee, .. } => {
                lemma_lower(c, rank, pointee, id);
                lemma_rendered_alike(c, rank, pointee, a1, b1);
            },
            TypeShape::Reference { referent, .. } => {
                lemma_lower(c, rank, referent, id);
                lemma_rendered_alike(c, rank, referent, a1, b1);
            },
            TypeShape::Array { elem, .. } => {
                lemma_lower(c, rank, elem, id);
                lemma_rendered_alike(c, rank, elem, a1, b1);
            },
            TypeShape::Function { return_t, .. } => {
                lemma_lower(c, rank, return_t, id);
                lemma_rendered_alike(c, rank, return_t, a1, b1);
            },
            TypeShape::Template { base, args } => {
                lemma_args_alike(c, rank, args, 0, id, a1, b1);
            },
            _ => {},
        }
    }
}

proof fn lemma_args_alike(
    c: SemaView,
    rank: spec_fn(TypeId) -> nat,
    args: Seq<ArgShape>,
    k: int,
    whole: TypeId,
    a: nat,
    b: nat,
)
    requires
        ranks_texts(c, rank),
        c.kind(whole) matches Some(TypeShape::Template { args: inside, .. }) && inside == args,
        0 <= k <= args.len(),
        level(c, rank, whole) <= a + 1,
        level(c, rank, whole) <= b + 1,
    ensures
        rendered_args(c, args, k, a) == rendered_args(c, args, k, b),
    decreases level(c, rank, whole), 0nat, args.len() - k,
{
    if k < args.len() {
        assert(written_with_lower(c.kind(whole)->0, rank, rank(whole)));
        if let ArgShape::Type(t) = args[k] {
            lemma_lower(c, rank, t, whole);
            lemma_rendered_alike(c, rank, t, a, b);
        }
        lemma_args_alike(c, rank, args, k + 1, whole, a, b);
    }
}

proof fn lemma_arg_texts(
    c: SemaView,
    rank: spec_fn(TypeId) -> nat,
    args: Seq<ArgShape>,
    k: int,
    whole: TypeId,
    depth: nat,
)
    requires
        ranks_texts(c, rank),
        c.kind(whole) matches Some(TypeShape::Template { args: inside, .. }) && inside == args,
        0 <= k <= args.len(),
        level(c, rank, whole) <= depth + 1,
    ensures
        rendered_args(c, args, k, depth) == arg_texts(c, args).subrange(k, args.len() as int),
    decreases args.len() - k,
{
    let all = arg_texts(c, args);
    if k < args.len() {
        assert(written_with_lower(c.kind(whole)->0, rank, rank(whole)));
        if let ArgShape::Type(t) = args[k] {
            lemma_lower(c, rank, t, whole);
            lemma_level(c, rank, t);
            lemma_rendered_alike(c, rank, t, depth, c.types.kinds.len());
        }
        lemma_arg_texts(c, rank, args, k + 1, whole, depth);
        assert(all.subrange(k, args.len() as int) =~= seq![all[k]] + all.subrange(
            k + 1,
            args.len() as int,
        ));
    } else {
        assert(all.subrange(k, args.len() as int) =~= Seq::empty());
    }
}

/// Only a type that is not there has no text.
pub proof fn types_that_are_there_have_texts(c: SemaView, id: TypeId)
    ensures
        render(c, id) is None <==> c.kind(id) is None,
{
}

/// The text of a type is built from the whole texts of its parts.
pub proof fn text_is_built_from_parts(c: SemaView, id: TypeId)
    requires
        texts_end(c),
    ensures
        c.kind(id) matches Some(TypeShape::Pointer { pointee, .. }) ==> render(c, id) == Some(
            or_unknown(render(c, pointee)) + "*"@,
        ),
        c.kind(id) matches Some(TypeShape::Reference { referent, .. }) ==> render(c, id) == Some(
            or_unknown(render(c, referent)) + "&"@,
        ),
        c.kind(id) matches Some(TypeShape::Array { elem, .. }) ==> render(c, id) == Some(
            or_unknown(render(c, elem)) + "[]"@,
        ),
        c.kind(id) matches Some(TypeShape::Function { return_t, .. }) ==> render(c, id) == Some(
            or_unknown(render(c, return_t)),
        ),
        c.kind(id) matches Some(TypeShape::Typedef { name, .. }) ==> render(c, id) == Some(name),
        c.kind(id) matches Some(TypeShape::Template { base, args }) ==> render(c, id) == Some(
            base + "<"@ + text::joined(arg_texts(c, args), ", "@) + ">"@,
        ),
        c.kind(id) matches Some(TypeShape::Builtin(b)) ==> render(c, id) == Some(builtin_text(b)),
{
    let rank = choose|rank: spec_fn(TypeId) -> nat| ranks_texts(c, rank);
    let n = c.types.kinds.len();
    lemma_level(c, rank, id);
    if let Some(kind) = c.kind(id) {
        assert(written_with_lower(kind, rank, rank(id)));
        let n1 = (n - 1) as nat;
        match kind {
            TypeShape::Pointer { pointee, .. } => {
                lemma_lower(c, rank, pointee, id);
                lemma_rendered_alike(c, rank, pointee, n1, n);
            },
            TypeShape::Reference { referent, .. } => {
                lemma_lower(c, rank, referent, id);
                lemma_rendered_alike(c, rank, referent, n1, n);
            },
            TypeShape::Array { elem, .. } => {
                lemma_lower(c, rank, elem, id);
                lemma_rendered_alike(c, rank, elem, n1, n);
            },
            TypeShape::Function { return_t, .. } => {
                lemma_lower(c, rank, return_t, id);
                lemma_rendered_alike(c, rank, return_t, n1, n);
            },
            TypeShape::Template { base, args } => {
                lemma_arg_texts(c, rank, args, 0, id, n1);
                assert(arg_texts(c, args).subrange(0, args.len() as int) =~= arg_texts(c, args));
            },
            _ => {},
        }
    }
}

// ---------------------------------------------------------------------------
// How types fit
// ---------------------------------------------------------------------------
/// No type stands behind more typedefs than are followed.
pub open spec fn typedefs_end(c: SemaView) -> bool {
    forall|id: TypeId|
        !(c.kind(#[trigger] canonical(c, id, 32)) matches Some(TypeShape::Typedef { .. }))
}

/// The type behind typedefs and at most `depth` references.
pub open spec fn behind_references(c: SemaView, id: TypeId, depth: nat) -> TypeId
    decreases depth,
{
    let t = canonical(c, id, 32);
    if depth == 0 {
        t
    } else {
        match c.kind(t) {
            Some(TypeShape::Reference { referent, .. }) => behind_references(
                c,
                referent,
                (depth - 1) as nat,
            ),
            _ => t,
        }
    }
}

/// The type that a type is, behind typedefs and references.
pub open spec fn bare(c: SemaView, id: TypeId) -> TypeId {
    behind_references(c, id, c.types.kinds.len())
}

/// How one bare type fits another.
pub open spec fn bare_fits(c: SemaView, f: TypeId, t: TypeId) -> Compat {
    if f == t {
        Compat::Same
    } else {
        match (c.kind(f), c.kind(t)) {
            (Some(TypeShape::Nullptr), Some(TypeShape::Pointer { .. })) => Compat::NullptrToPointer,
            (Some(TypeShape::Builtin(x)), Some(TypeShape::Builtin(y))) => if numeric(x) && numeric(y) {
                if numeric_order(x) <= numeric_order(y) {
                    Compat::NumericPromote
                } else {
                    Compat::NumericConvert
                }
            } else {
                Compat::Incompatible
            },
            (
                Some(TypeShape::Pointer { pointee: p, .. }),
                Some(TypeShape::Pointer { pointee: q, .. }),
            ) => if p == q {
                Compat::Same
            } else if c.kind(q) == Some(TypeShape::Builtin(BuiltinType::Void)) {
                Compat::PointerToVoid
            } else if type_derives(c, p, q) {
                Compat::DerivedToBase
            } else {
                Compat::Incompatible
            },
            (Some(TypeShape::Class(x)), Some(TypeShape::Class(y))) => if class_derives(c, x, y) {
                Compat::DerivedToBase
            } else {
                Compat::Incompatible
            },
            _ => Compat::Incompatible,
        }
    }
}

proof fn lemma_canonical_level(c: SemaView, rank: spec_fn(TypeId) -> nat, id: TypeId, guard: nat)
    requires
        ranks_references(c, rank),
    ensures
        level(c, rank, canonical(c, id, guard)) <= level(c, rank, id),
    decreases guard,
{
    if guard > 0 {
        if let Some(TypeShape::Typedef { aliased, .. }) = c.kind(id) {
            assert(stands_behind(c.kind(id)->0) is Some);
            lemma_lower(c, rank, aliased, id);
            lemma_canonical_level(c, rank, aliased, (guard - 1) as nat);
        }
    }
}

/// A type behind which no typedef is left is not followed further.
proof fn lemma_canonical_more(c: SemaView, id: TypeId, guard: nat, more: nat)
    requires
        guard <= more,
        !(c.kind(canonical(c, id, guard)) matches Some(TypeShape::Typedef { .. })),
    ensures
        canonical(c, id, more) == canonical(c, id, guard),
    decreases more,
{
    if more > 0 {
        if let Some(TypeShape::Typedef { aliased, .. }) = c.kind(id) {
            lemma_canonical_more(c, aliased, (guard - 1) as nat, (more - 1) as nat);
        }
    }
}

proof fn lemma_canonical_twice(c: SemaView, id: TypeId)
    requires
        typedefs_end(c),
    ensures
        canonical(c, canonical(c, id, 32), 32) == canonical(c, id, 32),
{
    assert(!(c.kind(canonical(c, id, 32)) matches Some(TypeShape::Typedef { .. })));
}

/// Enough references are followed once there are as many as types before.
proof fn lemma_behind_enough(c: SemaView, rank: spec_fn(TypeId) -> nat, id: TypeId, a: nat, b: nat)
    requires
        ranks_references(c, rank),
        level(c, rank, id) <= a,
        level(c, rank, id) <= b,
    ensures
        behind_references(c, id, a) == behind_references(c, id, b),
        !(c.kind(behind_references(c, id, a)) matches Some(TypeShape::Reference { .. })),
    decreases a,
{
    let t = canonical(c, id, 32);
    lemma_canonical_level(c, rank, id, 32);
    if let Some(TypeShape::Reference { referent, .. }) = c.kind(t) {
        assert(stands_behind(c.kind(t)->0) is Some);
        lemma_lower(c, rank, referent, t);
        lemma_behind_enough(c, rank, referent, (a - 1) as nat, (b - 1) as nat);
    }
}

/// What stands behind typedefs and a reference stands behind the type.
proof fn lemma_bare_step(c: SemaView, rank: spec_fn(TypeId) -> nat, id: TypeId)
    requires
        ranks_references(c, rank),
        typedefs_end(c),
    ensures
        bare(c, canonical(c, id, 32)) == bare(c, id),
        c.kind(canonical(c, id, 32)) matches Some(TypeShape::Reference { referent, .. }) ==> bare(
            c,
            id,
        ) == bare(c, referent),
        !(c.kind(canonical(c, id, 32)) matches Some(TypeShape::Reference { .. })) ==> bare(c, id)
            == canonical(c, id, 32),
        !(c.kind(bare(c, id)) matches Some(TypeShape::Reference { .. })),
        canonical(c, bare(c, id), 32) == bare(c, id),
        bare(c, bare(c, id)) == bare(c, id),
{
    let n = c.types.kinds.len();
    let t = canonical(c, id, 32);
    lemma_canonical_twice(c, id);
    lemma_canonical_level(c, rank, id, 32);
    lemma_level(c, rank, id);
    lemma_behind_enough(c, rank, id, n, n);
    if let Some(TypeShape::Reference { referent, .. }) = c.kind(t) {
        assert(stands_behind(c.kind(t)->0) is Some);
        lemma_lower(c, rank, referent, t);
        lemma_behind_enough(c, rank, referent, (n - 1) as nat, n);
    }
    lemma_bare_ends(c, id, n);
}

proof fn lemma_bare_ends(c: SemaView, id: TypeId, depth: nat)
    requires
        typedefs_end(c),
    ensures
        canonical(c, behind_references(c, id, depth), 32) == behind_references(c, id, depth),
    decreases depth,
{
    let t = canonical(c, id, 32);
    lemma_canonical_twice(c, id);
    if depth > 0 {
        if let Some(TypeShape::Reference { referent, .. }) = c.kind(t) {
            lemma_bare_ends(c, referent, (depth - 1) as nat);
        }
    }
}

proof fn lemma_fits_bare(c: SemaView, rank: spec_fn(TypeId) -> nat, from: TypeId, to: TypeId, depth: nat)
    requires
        ranks_references(c, rank),
        typedefs_end(c),
        level(c, rank, from) + level(c, rank, to) < depth,
    ensures
        fits(c, from, to, depth) == bare_fits(c, bare(c, from), bare(c, to)),
    decreases depth,
{
    let f = canonical(c, from, 32);
    let t = canonical(c, to, 32);
    let less = (depth - 1) as nat;
    lemma_bare_step(c, rank, from);
    lemma_bare_step(c, rank, to);
    lemma_bare_step(c, rank, f);
    lemma_bare_step(c, rank, t);
    lemma_canonical_level(c, rank, from, 32);
    lemma_canonical_level(c, rank, to, 32);
    if f != t {
        if let Some(TypeShape::Reference { referent: p, .. }) = c.kind(f) {
            assert(stands_behind(c.kind(f)->0) is Some);
            lemma_lower(c, rank, p, f);
            if let Some(TypeShape::Reference { referent: q, .. }) = c.kind(t) {
                assert(stands_behind(c.kind(t)->0) is Some);
                lemma_lower(c, rank, q, t);
                lemma_fits_bare(c, rank, p, q, less);
            } else {
                lemma_fits_bare(c, rank, p, t, less);
            }
        } else if let Some(TypeShape::Reference { referent: q, .. }) = c.kind(t) {
            assert(stands_behind(c.kind(t)->0) is Some);
            lemma_lower(c, rank, q, t);
            lemma_fits_bare(c, rank, f, q, less);
        }
    }
}

proof fn lemma_compat_bare(c: SemaView, from: TypeId, to: TypeId)
    requires
        references_end(c),
        typedefs_end(c),
    ensures
        compat(c, from, to) == bare_fits(c, bare(c, from), bare(c, to)),
{
    let rank = choose|rank: spec_fn(TypeId) -> nat| ranks_references(c, rank);
    lemma_level(c, rank, from);
    lemma_level(c, rank, to);
    lemma_fits_bare(c, rank, from, to, 2 * c.types.kinds.len() + 2);
}

/// Typedefs and references do not change how types fit: only what stands behind them does.
pub proof fn typedefs_and_references_fit_alike(c: SemaView, from: TypeId, to: TypeId)
    requires
        references_end(c),
        typedefs_end(c),
    ensures
        compat(c, from, to) == compat(c, bare(c, from), bare(c, to)),
        compat(c, from, to) == bare_fits(c, bare(c, from), bare(c, to)),
        c.kind(from) matches Some(TypeShape::Typedef { aliased, .. }) ==> compat(c, from, to)
            == compat(c, aliased, to) && equivalent(c, from, aliased),
        c.kind(from) matches Some(TypeShape::Reference { referent, .. }) ==> compat(c, from, to)
            == compat(c, referent, to) && equivalent(c, from, referent),
        c.kind(to) matches Some(TypeShape::Typedef { aliased, .. }) ==> compat(c, from, to)
            == compat(c, from, aliased),
        c.kind(to) matches Some(TypeShape::Reference { referent, .. }) ==> compat(c, from, to)
            == compat(c, from, referent),
{
    lemma_compat_bare(c, from, to);
    let rank = choose|rank: spec_fn(TypeId) -> nat| ranks_references(c, rank);
    lemma_bare_step(c, rank, from);
    lemma_bare_step(c, rank, to);
    lemma_compat_bare(c, bare(c, from), bare(c, to));
    lemma_one_step(c, from);
    lemma_one_step(c, to);
    let inner = match c.kind(from) {
        Some(TypeShape::Typedef { aliased, .. }) => aliased,
        Some(TypeShape::Reference { referent, .. }) => referent,
        _ => from,
    };
    lemma_compat_bare(c, inner, to);
    lemma_compat_bare(c, inner, from);
    lemma_compat_bare(c, from, inner);
    let place = match c.kind(to) {
        Some(TypeShape::Typedef { aliased, .. }) => aliased,
        Some(TypeShape::Reference { referent, .. }) => referent,
        _ => to,
    };
    lemma_compat_bare(c, from, place);
}

proof fn lemma_one_step(c: SemaView, id: TypeId)
    requires
        references_end(c),
        typedefs_end(c),
    ensures
        c.kind(id) matches Some(TypeShape::Typedef { aliased, .. }) ==> bare(c, id) == bare(
            c,
            aliased,
        ),
        c.kind(id) matches Some(TypeShape::Reference { referent, .. }) ==> bare(c, id) == bare(
            c,
            referent,
        ),
{
    let rank = choose|rank: spec_fn(TypeId) -> nat| ranks_references(c, rank);
    lemma_bare_step(c, rank, id);
    if let Some(TypeShape::Typedef { aliased, .. }) = c.kind(id) {
        assert(canonical(c, id, 32) == canonical(c, aliased, 31));
        assert(!(c.kind(canonical(c, id, 32)) matches Some(TypeShape::Typedef { .. })));
        lemma_canonical_more(c, aliased, 31, 32);
        lemma_bare_step(c, rank, aliased);
    }
}

/// No two classes come from each other.
pub open spec fn inheritance_is_acyclic(c: SemaView) -> bool {
    forall|x: ClassId, y: ClassId| #[trigger]
        class_derives(c, x, y) && #[trigger] class_derives(c, y, x) ==> x == y
}

/// The type points to the class.
pub open spec fn points_to_class(c: SemaView, id: TypeId, x: ClassId) -> bool {
    match c.kind(id) {
        Some(TypeShape::Pointer { pointee, .. }) => c.kind(pointee) == Some(TypeShape::Class(x)),
        _ => false,
    }
}

/// What a pointer points to.
pub open spec fn pointee_of(c: SemaView, id: TypeId) -> Option<TypeId> {
    match c.kind(id) {
        Some(TypeShape::Pointer { pointee, .. }) => Some(pointee),
        _ => None,
    }
}

/// A base class does not fit a class that comes from it, nor does a pointer to it fit a pointer to
/// that class.
pub proof fn base_does_not_fit_derived(
    c: SemaView,
    base: TypeId,
    derived: TypeId,
    x: ClassId,
    y: ClassId,
)
    requires
        references_end(c),
        typedefs_end(c),
        inheritance_is_acyclic(c),
        x != y,
        class_derives(c, y, x),
    ensures
        c.kind(bare(c, base)) == Some(TypeShape::Class(x)) && c.kind(bare(c, derived)) == Some(
            TypeShape::Class(y),
        ) ==> compat(c, base, derived) == Compat::Incompatible && compat(c, derived, base)
            == Compat::DerivedToBase,
        points_to_class(c, bare(c, base), x) && points_to_class(c, bare(c, derived), y) ==> compat(
            c,
            base,
            derived,
        ) == Compat::Incompatible && compat(c, derived, base) == Compat::DerivedToBase,
{
    assert(!class_derives(c, x, y));
    lemma_compat_bare(c, base, derived);
    lemma_compat_bare(c, derived, base);
}

/// What is equivalent to a type is equivalent to all that the type is equivalent to.
pub proof fn equivalence_is_transitive(c: SemaView, left: TypeId, mid: TypeId, right: TypeId)
    requires
        references_end(c),
        typedefs_end(c),
        equivalent(c, left, mid),
        equivalent(c, mid, right),
    ensures
        equivalent(c, left, right),
{
    lemma_compat_bare(c, left, mid);
    lemma_compat_bare(c, mid, left);
    lemma_compat_bare(c, mid, right);
    lemma_compat_bare(c, right, mid);
    lemma_compat_bare(c, left, right);
    lemma_compat_bare(c, right, left);
}

/// Types are equivalent exactly where what stands behind their typedefs and references is the same,
/// or points to the same.
pub proof fn equivalence_sees_through(c: SemaView, left: TypeId, right: TypeId)
    requires
        references_end(c),
        typedefs_end(c),
    ensures
        equivalent(c, left, right) <==> {
            let l = bare(c, left);
            let r = bare(c, right);
            l == r || (pointee_of(c, l) is Some && pointee_of(c, l) == pointee_of(c, r))
        },
{
    lemma_compat_bare(c, left, right);
    lemma_compat_bare(c, right, left);
}

/// A derived class fits its base, and so does a pointer to it; a pointer fits a pointer to nothing
/// in particular, and no such pointer fits back. What points to the same fits alike, whatever its
/// qualifiers.
pub proof fn pointers_fit_as_what_they_point_to(c: SemaView, from: TypeId, to: TypeId)
    requires
        references_end(c),
        typedefs_end(c),
        pointee_of(c, bare(c, from)) is Some,
        pointee_of(c, bare(c, to)) is Some,
    ensures
        ({
            let p = pointee_of(c, bare(c, from))->0;
            let q = pointee_of(c, bare(c, to))->0;
            let void = Some(TypeShape::Builtin(BuiltinType::Void));
            &&& p == q ==> compat(c, from, to) == Compat::Same
            &&& p != q && c.kind(q) == void ==> compat(c, from, to) == Compat::PointerToVoid
            &&& p != q && c.kind(q) != void && type_derives(c, p, q) ==> compat(c, from, to)
                == Compat::DerivedToBase
            &&& p != q && c.kind(q) != void && !type_derives(c, p, q) ==> compat(c, from, to)
                == Compat::Incompatible
            &&& c.kind(p) == void && c.kind(q) is Some && c.kind(q)->0 is Class ==> compat(
                c,
                from,
                to,
            ) == Compat::Incompatible
        }),
{
    lemma_compat_bare(c, from, to);
}

/// Types of different kinds that are no pointers are not equivalent: two builtin types, or a class
/// and its base.
pub proof fn different_types_are_not_equivalent(c: SemaView, left: TypeId, right: TypeId)
    requires
        references_end(c),
        typedefs_end(c),
        c.kind(bare(c, left)) != c.kind(bare(c, right)),
        pointee_of(c, bare(c, left)) is None,
    ensures
        !equivalent(c, left, right),
{
    equivalence_sees_through(c, left, right);
}

} // verus!
