//! What holds of the types that are made known for instances of templates.
use vstd::prelude::*;

use super::builtin::builtin_named;
use super::intern::{
    depth_of, entered, instance, instance_args, instance_list, instance_members, knowing_in,
    known_type, member_type_of, substituted, using, Instances,
};
use super::members::bound_to;
use super::symbol::SymbolId;
use super::types::{first_types, shape_index, ArenaView, ArgShape, TypeId, TypeShape};
use super::SemaView;

verus! {

/// Every type that was known stands where it stood.
pub open spec fn kinds_kept(before: ArenaView, after: ArenaView) -> bool {
    &&& before.kinds.len() <= after.kinds.len()
    &&& forall|i: int|
        0 <= i < before.kinds.len() ==> #[trigger] after.kinds[i] == before.kinds[i]
}

/// No type is known twice.
pub open spec fn each_known_once(a: ArenaView) -> bool {
    forall|i: int, j: int|
        0 <= i < j < a.kinds.len() ==> #[trigger] a.kinds[i] != #[trigger] a.kinds[j]
}

/// Nothing that was known is lost, and no type becomes known twice.
pub open spec fn grows(before: ArenaView, after: ArenaView) -> bool {
    kinds_kept(before, after) && (each_known_once(before) ==> each_known_once(after))
}

proof fn lemma_index(kinds: Seq<TypeShape>, s: TypeShape, from: int)
    requires
        0 <= from,
    ensures
        match shape_index(kinds, s, from) {
            Some(i) => from <= i < kinds.len() && kinds[i] == s,
            None => forall|i: int| from <= i < kinds.len() ==> #[trigger] kinds[i] != s,
        },
    decreases kinds.len() - from,
{
    if from < kinds.len() && kinds[from] != s {
        lemma_index(kinds, s, from + 1);
    }
}

proof fn lemma_with_grows(a: ArenaView, s: TypeShape)
    ensures
        grows(a, a.with(s)),
{
    lemma_index(a.kinds, s, 0);
}

/// An arena knows no type twice, neither at the start nor after a type was made known, and types
/// keep their places.
pub proof fn arena_knows_each_type_once(a: ArenaView, s: TypeShape)
    ensures
        each_known_once(first_types()),
        kinds_kept(a, a.with(s)),
        each_known_once(a) ==> each_known_once(a.with(s)),
        a.with(s).kinds.contains(s),
{
    lemma_with_grows(a, s);
    lemma_index(a.kinds, s, 0);
    match shape_index(a.kinds, s, 0) {
        Some(i) => {
            assert(a.with(s).kinds[i] == s);
        },
        None => {
            assert(a.with(s).kinds[a.kinds.len() as int] == s);
        },
    }
}

/// A type that is known once has the place where it is found.
proof fn lemma_found_in_place(a: ArenaView, id: TypeId)
    requires
        each_known_once(a),
        id.0 < a.kinds.len(),
    ensures
        a.id_of(a.kinds[id.0 as int]) == id,
        a.with(a.kinds[id.0 as int]) == a,
{
    let s = a.kinds[id.0 as int];
    lemma_index(a.kinds, s, 0);
    let i = shape_index(a.kinds, s, 0)->0;
    if i < id.0 {
        assert(a.kinds[i] != a.kinds[id.0 as int]);
    } else if i > id.0 {
        assert(a.kinds[id.0 as int] != a.kinds[i]);
    }
    assert(TypeId(i as u32) == id);
}

proof fn lemma_entered_grows(m: Instances, base: Seq<char>, args: Seq<ArgShape>)
    ensures
        grows(m.c.types, entered(m, base, args).0.c.types),
{
    let (types, found) = builtin_named(m.c.types, m.c.aliases, base);
    lemma_with_grows(m.c.types, super::builtin::builtin_shape(super::types::BuiltinType::Char));
    assert(known_type(m.c, m.c.scopes.global, base).0.types == types);
}

proof fn lemma_grows_on(a: ArenaView, b: ArenaView, d: ArenaView)
    requires
        grows(a, b),
        grows(b, d),
    ensures
        grows(a, d),
{
    assert forall|i: int| 0 <= i < a.kinds.len() implies #[trigger] d.kinds[i] == a.kinds[i] by {
        assert(b.kinds[i] == a.kinds[i]);
    }
}

/// Nothing is bound where there are no bindings.
proof fn lemma_nothing_bound(b: Seq<(Seq<char>, ArgShape)>, name: Seq<char>)
    requires
        b.len() == 0,
    ensures
        bound_to(b, name) is None,
{
}

/// Where nothing is bound and each type is known once, a type stays what it is.
spec fn unchanged(m: Instances, b: Seq<(Seq<char>, ArgShape)>) -> bool {
    b.len() == 0 && each_known_once(m.c.types)
}

proof fn lemma_instance(
    m: Instances,
    id: TypeId,
    b: Seq<(Seq<char>, ArgShape)>,
    nesting: nat,
    depth: nat,
)
    ensures
        grows(m.c.types, instance(m, id, b, nesting, depth).0.c.types),
        unchanged(m, b) ==> instance(m, id, b, nesting, depth).1 == id,
    decreases nesting, 0nat, depth, 0nat,
{
    if depth > 0 {
        let less = (depth - 1) as nat;
        match m.c.kind(id) {
            Some(TypeShape::Dependent(name)) => {
                if let Some(ArgShape::Type(t)) = bound_to(b, name) {
                    lemma_instance(m, t, Seq::empty(), nesting, less);
                }
                if b.len() == 0 {
                    lemma_nothing_bound(b, name);
                }
            },
            Some(TypeShape::Pointer { pointee, cv }) => {
                lemma_instance(m, pointee, b, nesting, less);
                let (m1, p) = instance(m, pointee, b, nesting, less);
                lemma_interned(m, m1, TypeShape::Pointer { pointee: p, cv }, id);
            },
            Some(TypeShape::Reference { referent, kind }) => {
                lemma_instance(m, referent, b, nesting, less);
                let (m1, p) = instance(m, referent, b, nesting, less);
                lemma_interned(m, m1, TypeShape::Reference { referent: p, kind }, id);
            },
            Some(TypeShape::Array { elem, size }) => {
                lemma_instance(m, elem, b, nesting, less);
                let (m1, p) = instance(m, elem, b, nesting, less);
                lemma_interned(m, m1, TypeShape::Array { elem: p, size }, id);
            },
            Some(
                TypeShape::Function { return_t, params, min_arity, is_variadic, is_const_member },
            ) => {
                lemma_instance(m, return_t, b, nesting, less);
                let (m1, r) = instance(m, return_t, b, nesting, less);
                lemma_instance_list(m1, params, 0, b, nesting, less);
                let (m2, list) = instance_list(m1, params, 0, b, nesting, less);
                lemma_grows_on(m.c.types, m1.c.types, m2.c.types);
                assert(params.subrange(0, params.len() as int) =~= params);
                lemma_interned(
                    m,
                    m2,
                    TypeShape::Function {
                        return_t: r,
                        params: list,
                        min_arity,
                        is_variadic,
                        is_const_member,
                    },
                    id,
                );
            },
            Some(TypeShape::Template { base, args }) => {
                lemma_instance_args(m, args, 0, b, nesting, less);
                let (m1, list) = instance_args(m, args, 0, b, nesting, less);
                assert(args.subrange(0, args.len() as int) =~= args);
                let s = TypeShape::Template { base, args: list };
                lemma_interned(m, m1, s, id);
                let m2 = knowing_in(m1, s);
                lemma_entered_grows(m2, base, list);
                let (m3, inside) = entered(m2, base, list);
                lemma_grows_on(m.c.types, m2.c.types, m3.c.types);
                if let Some((ids, inner)) = inside {
                    if nesting > 0 {
                        lemma_instance_members(m3, ids, 0, inner, (nesting - 1) as nat);
                        lemma_grows_on(
                            m.c.types,
                            m3.c.types,
                            instance_members(m3, ids, 0, inner, (nesting - 1) as nat).c.types,
                        );
                    }
                }
            },
            _ => {},
        }
    }
}

/// Making a type known loses nothing, and finds a type that is known already.
proof fn lemma_interned(m: Instances, m1: Instances, s: TypeShape, id: TypeId)
    requires
        grows(m.c.types, m1.c.types),
        m.c.kind(id) is Some,
    ensures
        grows(m.c.types, knowing_in(m1, s).c.types),
        each_known_once(m.c.types) && m.c.kind(id) == Some(s) ==> m1.c.types.id_of(s) == id
            && knowing_in(m1, s) == m1,
{
    lemma_with_grows(m1.c.types, s);
    lemma_grows_on(m.c.types, m1.c.types, m1.c.types.with(s));
    if each_known_once(m.c.types) && m.c.kind(id) == Some(s) {
        assert(m1.c.types.kinds[id.0 as int] == m.c.types.kinds[id.0 as int]);
        lemma_found_in_place(m1.c.types, id);
    }
}

proof fn lemma_instance_list(
    m: Instances,
    ids: Seq<TypeId>,
    k: int,
    b: Seq<(Seq<char>, ArgShape)>,
    nesting: nat,
    depth: nat,
)
    requires
        0 <= k <= ids.len(),
    ensures
        grows(m.c.types, instance_list(m, ids, k, b, nesting, depth).0.c.types),
        unchanged(m, b) ==> instance_list(m, ids, k, b, nesting, depth).1 == ids.subrange(
            k,
            ids.len() as int,
        ),
    decreases nesting, 0nat, depth, ids.len() - k + 1,
{
    if k < ids.len() {
        lemma_instance(m, ids[k], b, nesting, depth);
        let (m1, first) = instance(m, ids[k], b, nesting, depth);
        lemma_instance_list(m1, ids, k + 1, b, nesting, depth);
        lemma_grows_on(
            m.c.types,
            m1.c.types,
            instance_list(m1, ids, k + 1, b, nesting, depth).0.c.types,
        );
        assert(seq![ids[k]] + ids.subrange(k + 1, ids.len() as int) =~= ids.subrange(
            k,
            ids.len() as int,
        ));
    } else {
        assert(ids.subrange(k, ids.len() as int) =~= Seq::empty());
    }
}

proof fn lemma_instance_args(
    m: Instances,
    args: Seq<ArgShape>,
    k: int,
    b: Seq<(Seq<char>, ArgShape)>,
    nesting: nat,
    depth: nat,
)
    requires
        0 <= k <= args.len(),
    ensures
        grows(m.c.types, instance_args(m, args, k, b, nesting, depth).0.c.types),
        unchanged(m, b) ==> instance_args(m, args, k, b, nesting, depth).1 == args.subrange(
            k,
            args.len() as int,
        ),
    decreases nesting, 0nat, depth, args.len() - k + 1,
{
    if k < args.len() {
        match args[k] {
            ArgShape::Type(t) => {
                lemma_instance(m, t, b, nesting, depth);
                let (m1, first) = instance(m, t, b, nesting, depth);
                lemma_instance_args(m1, args, k + 1, b, nesting, depth);
                lemma_grows_on(
                    m.c.types,
                    m1.c.types,
                    instance_args(m1, args, k + 1, b, nesting, depth).0.c.types,
                );
            },
            ArgShape::Value(v) => {
                lemma_instance_args(m, args, k + 1, b, nesting, depth);
                if b.len() == 0 {
                    lemma_nothing_bound(b, v);
                }
            },
        }
        assert(seq![args[k]] + args.subrange(k + 1, args.len() as int) =~= args.subrange(
            k,
            args.len() as int,
        ));
    } else {
        assert(args.subrange(k, args.len() as int) =~= Seq::empty());
    }
}

proof fn lemma_instance_members(
    m: Instances,
    ids: Seq<SymbolId>,
    k: int,
    b: Seq<(Seq<char>, ArgShape)>,
    nesting: nat,
)
    requires
        0 <= k <= ids.len(),
    ensures
        grows(m.c.types, instance_members(m, ids, k, b, nesting).c.types),
    decreases nesting, 1nat, ids.len() - k, 0nat,
{
    if k < ids.len() {
        let next = match member_type_of(m.c, ids[k]) {
            Some(t) => instance(m, t, b, nesting, depth_of(m.c)).0,
            None => m,
        };
        if let Some(t) = member_type_of(m.c, ids[k]) {
            lemma_instance(m, t, b, nesting, depth_of(m.c));
        }
        lemma_instance_members(next, ids, k + 1, b, nesting);
        lemma_grows_on(
            m.c.types,
            next.c.types,
            instance_members(next, ids, k + 1, b, nesting).c.types,
        );
    }
}

/// A name that is bound to a type is replaced by it. A name that is bound to a value or not at all
/// stays, and nothing is made known for it.
pub proof fn bound_names_stand_for_their_types(
    c: SemaView,
    id: TypeId,
    name: Seq<char>,
    b: Seq<(Seq<char>, ArgShape)>,
)
    requires
        c.kind(id) == Some(TypeShape::Dependent(name)),
    ensures
        match bound_to(b, name) {
            Some(ArgShape::Type(t)) => substituted(c, id, b).1 == t,
            _ => substituted(c, id, b) == (c, id),
        },
{
}

/// Where nothing is bound, the result is the type itself. Whatever is bound, types are only added:
/// each that was known keeps its id, and none becomes known twice.
pub proof fn substitution_only_adds_types(c: SemaView, id: TypeId, b: Seq<(Seq<char>, ArgShape)>)
    requires
        each_known_once(c.types),
    ensures
        b.len() == 0 ==> substituted(c, id, b).1 == id,
        kinds_kept(c.types, substituted(c, id, b).0.types),
        each_known_once(substituted(c, id, b).0.types),
{
    lemma_instance(Instances { c, seen: Seq::empty() }, id, b, usize::MAX as nat, depth_of(c));
}

/// Replacing bound names changes no type that was known: each keeps its id, and none becomes known
/// twice.
pub proof fn substitution_keeps_known_types(
    m: Instances,
    id: TypeId,
    b: Seq<(Seq<char>, ArgShape)>,
    nesting: nat,
    depth: nat,
)
    ensures
        kinds_kept(m.c.types, instance(m, id, b, nesting, depth).0.c.types),
        each_known_once(m.c.types) ==> each_known_once(
            instance(m, id, b, nesting, depth).0.c.types,
        ),
{
    lemma_instance(m, id, b, nesting, depth);
}

/// Where nothing is bound, a type is replaced by itself.
pub proof fn substitution_of_nothing_keeps_the_type(
    m: Instances,
    id: TypeId,
    nesting: nat,
    depth: nat,
)
    requires
        each_known_once(m.c.types),
    ensures
        instance(m, id, Seq::empty(), nesting, depth).1 == id,
{
    lemma_instance(m, id, Seq::empty(), nesting, depth);
}

/// No template stands in the type, as far as it is followed.
pub open spec fn free_of_templates(c: SemaView, id: TypeId, depth: nat) -> bool
    decreases depth,
{
    depth == 0 || match c.kind(id) {
        Some(TypeShape::Template { .. }) => false,
        Some(TypeShape::Pointer { pointee, .. }) => free_of_templates(
            c,
            pointee,
            (depth - 1) as nat,
        ),
        Some(TypeShape::Reference { referent, .. }) => free_of_templates(
            c,
            referent,
            (depth - 1) as nat,
        ),
        Some(TypeShape::Array { elem, .. }) => free_of_templates(c, elem, (depth - 1) as nat),
        Some(TypeShape::Function { return_t, params, .. }) => free_of_templates(
            c,
            return_t,
            (depth - 1) as nat,
        ) && (forall|i: int|
            0 <= i < params.len() ==> free_of_templates(
                c,
                #[trigger] params[i],
                (depth - 1) as nat,
            )),
        _ => true,
    }
}

/// Where nothing is bound and no template stands in the type, nothing at all changes.
pub proof fn substitution_of_nothing_changes_nothing(
    m: Instances,
    id: TypeId,
    nesting: nat,
    depth: nat,
)
    requires
        each_known_once(m.c.types),
        free_of_templates(m.c, id, depth),
    ensures
        instance(m, id, Seq::empty(), nesting, depth) == (m, id),
    decreases depth, 0nat,
{
    if depth > 0 {
        let less = (depth - 1) as nat;
        match m.c.kind(id) {
            Some(TypeShape::Dependent(name)) => {
                lemma_nothing_bound(Seq::empty(), name);
            },
            Some(TypeShape::Pointer { pointee, cv }) => {
                substitution_of_nothing_changes_nothing(m, pointee, nesting, less);
                lemma_interned(m, m, TypeShape::Pointer { pointee, cv }, id);
            },
            Some(TypeShape::Reference { referent, kind }) => {
                substitution_of_nothing_changes_nothing(m, referent, nesting, less);
                lemma_interned(m, m, TypeShape::Reference { referent, kind }, id);
            },
            Some(TypeShape::Array { elem, size }) => {
                substitution_of_nothing_changes_nothing(m, elem, nesting, less);
                lemma_interned(m, m, TypeShape::Array { elem, size }, id);
            },
            Some(
                TypeShape::Function { return_t, params, min_arity, is_variadic, is_const_member },
            ) => {
                substitution_of_nothing_changes_nothing(m, return_t, nesting, less);
                lemma_list_unchanged(m, params, 0, nesting, less);
                assert(params.subrange(0, params.len() as int) =~= params);
                lemma_interned(
                    m,
                    m,
                    TypeShape::Function {
                        return_t,
                        params,
                        min_arity,
                        is_variadic,
                        is_const_member,
                    },
                    id,
                );
            },
            _ => {},
        }
    }
}

proof fn lemma_list_unchanged(m: Instances, ids: Seq<TypeId>, k: int, nesting: nat, depth: nat)
    requires
        each_known_once(m.c.types),
        0 <= k <= ids.len(),
        forall|i: int| 0 <= i < ids.len() ==> free_of_templates(m.c, #[trigger] ids[i], depth),
    ensures
        instance_list(m, ids, k, Seq::empty(), nesting, depth) == (
            m,
            ids.subrange(k, ids.len() as int),
        ),
    decreases depth, ids.len() - k + 1,
{
    if k < ids.len() {
        assert(free_of_templates(m.c, ids[k], depth));
        substitution_of_nothing_changes_nothing(m, ids[k], nesting, depth);
        lemma_list_unchanged(m, ids, k + 1, nesting, depth);
        assert(seq![ids[k]] + ids.subrange(k + 1, ids.len() as int) =~= ids.subrange(
            k,
            ids.len() as int,
        ));
    } else {
        assert(ids.subrange(k, ids.len() as int) =~= Seq::empty());
    }
}

/// Making the instances known that a type calls for changes no type that was known.
pub proof fn instances_keep_known_types(c: SemaView, id: TypeId)
    ensures
        kinds_kept(c.types, using(c, id).types),
        each_known_once(c.types) ==> each_known_once(using(c, id).types),
{
    lemma_instance(
        Instances { c, seen: Seq::empty() },
        id,
        Seq::empty(),
        usize::MAX as nat,
        depth_of(c),
    );
}

// ---------------------------------------------------------------------------
// How deep instances lie inside one another
// ---------------------------------------------------------------------------
/// The instances that a type calls for lie at most so deep inside one another.
pub open spec fn nests_within(
    m: Instances,
    id: TypeId,
    b: Seq<(Seq<char>, ArgShape)>,
    nesting: nat,
    depth: nat,
) -> bool
    decreases nesting, 0nat, depth, 0nat,
{
    depth == 0 || {
        let less = (depth - 1) as nat;
        match m.c.kind(id) {
            Some(TypeShape::Dependent(name)) => match bound_to(b, name) {
                Some(ArgShape::Type(t)) => nests_within(m, t, Seq::empty(), nesting, less),
                _ => true,
            },
            Some(TypeShape::Pointer { pointee, .. }) => nests_within(m, pointee, b, nesting, less),
            Some(TypeShape::Reference { referent, .. }) => nests_within(
                m,
                referent,
                b,
                nesting,
                less,
            ),
            Some(TypeShape::Array { elem, .. }) => nests_within(m, elem, b, nesting, less),
            Some(TypeShape::Function { return_t, params, .. }) => nests_within(
                m,
                return_t,
                b,
                nesting,
                less,
            ) && list_nests_within(
                instance(m, return_t, b, nesting, less).0,
                params,
                0,
                b,
                nesting,
                less,
            ),
            Some(TypeShape::Template { base, args }) => args_nest_within(
                m,
                args,
                0,
                b,
                nesting,
                less,
            ) && {
                let (m1, list) = instance_args(m, args, 0, b, nesting, less);
                let (m2, inside) = entered(
                    knowing_in(m1, TypeShape::Template { base, args: list }),
                    base,
                    list,
                );
                match inside {
                    Some((ids, inner)) => nesting > 0 && members_nest_within(
                        m2,
                        ids,
                        0,
                        inner,
                        (nesting - 1) as nat,
                    ),
                    None => true,
                }
            },
            _ => true,
        }
    }
}

pub open spec fn list_nests_within(
    m: Instances,
    ids: Seq<TypeId>,
    k: int,
    b: Seq<(Seq<char>, ArgShape)>,
    nesting: nat,
    depth: nat,
) -> bool
    decreases nesting, 0nat, depth, ids.len() - k + 1,
{
    k < 0 || k >= ids.len() || (nests_within(m, ids[k], b, nesting, depth) && list_nests_within(
        instance(m, ids[k], b, nesting, depth).0,
        ids,
        k + 1,
        b,
        nesting,
        depth,
    ))
}

pub open spec fn args_nest_within(
    m: Instances,
    args: Seq<ArgShape>,
    k: int,
    b: Seq<(Seq<char>, ArgShape)>,
    nesting: nat,
    depth: nat,
) -> bool
    decreases nesting, 0nat, depth, args.len() - k + 1,
{
    k < 0 || k >= args.len() || match args[k] {
        ArgShape::Type(t) => nests_within(m, t, b, nesting, depth) && args_nest_within(
            instance(m, t, b, nesting, depth).0,
            args,
            k + 1,
            b,
            nesting,
            depth,
        ),
        ArgShape::Value(_) => args_nest_within(m, args, k + 1, b, nesting, depth),
    }
}

pub open spec fn members_nest_within(
    m: Instances,
    ids: Seq<SymbolId>,
    k: int,
    b: Seq<(Seq<char>, ArgShape)>,
    nesting: nat,
) -> bool
    decreases nesting, 1nat, ids.len() - k, 0nat,
{
    k < 0 || k >= ids.len() || match member_type_of(m.c, ids[k]) {
        Some(t) => nests_within(m, t, b, nesting, depth_of(m.c)) && members_nest_within(
            instance(m, t, b, nesting, depth_of(m.c)).0,
            ids,
            k + 1,
            b,
            nesting,
        ),
        None => members_nest_within(m, ids, k + 1, b, nesting),
    }
}

/// Where the instances that a type calls for lie at most so deep inside one another, allowing for
/// more changes nothing: every one of them is made known.
pub proof fn all_instances_are_entered(
    m: Instances,
    id: TypeId,
    b: Seq<(Seq<char>, ArgShape)>,
    nesting: nat,
    more: nat,
    depth: nat,
)
    requires
        nests_within(m, id, b, nesting, depth),
        nesting <= more,
    ensures
        instance(m, id, b, more, depth) == instance(m, id, b, nesting, depth),
    decreases nesting, 0nat, depth, 0nat,
{
    if depth > 0 {
        let less = (depth - 1) as nat;
        match m.c.kind(id) {
            Some(TypeShape::Dependent(name)) => {
                if let Some(ArgShape::Type(t)) = bound_to(b, name) {
                    all_instances_are_entered(m, t, Seq::empty(), nesting, more, less);
                }
            },
            Some(TypeShape::Pointer { pointee, .. }) => {
                all_instances_are_entered(m, pointee, b, nesting, more, less);
            },
            Some(TypeShape::Reference { referent, .. }) => {
                all_instances_are_entered(m, referent, b, nesting, more, less);
            },
            Some(TypeShape::Array { elem, .. }) => {
                all_instances_are_entered(m, elem, b, nesting, more, less);
            },
            Some(TypeShape::Function { return_t, params, .. }) => {
                all_instances_are_entered(m, return_t, b, nesting, more, less);
                lemma_list_entered(
                    instance(m, return_t, b, nesting, less).0,
                    params,
                    0,
                    b,
                    nesting,
                    more,
                    less,
                );
            },
            Some(TypeShape::Template { base, args }) => {
                lemma_args_entered(m, args, 0, b, nesting, more, less);
                let (m1, list) = instance_args(m, args, 0, b, nesting, less);
                let (m2, inside) = entered(
                    knowing_in(m1, TypeShape::Template { base, args: list }),
                    base,
                    list,
                );
                if let Some((ids, inner)) = inside {
                    lemma_members_entered(
                        m2,
                        ids,
                        0,
                        inner,
                        (nesting - 1) as nat,
                        (more - 1) as nat,
                    );
                }
            },
            _ => {},
        }
    }
}

proof fn lemma_list_entered(
    m: Instances,
    ids: Seq<TypeId>,
    k: int,
    b: Seq<(Seq<char>, ArgShape)>,
    nesting: nat,
    more: nat,
    depth: nat,
)
    requires
        list_nests_within(m, ids, k, b, nesting, depth),
        nesting <= more,
    ensures
        instance_list(m, ids, k, b, more, depth) == instance_list(m, ids, k, b, nesting, depth),
    decreases nesting, 0nat, depth, ids.len() - k + 1,
{
    if 0 <= k < ids.len() {
        all_instances_are_entered(m, ids[k], b, nesting, more, depth);
        let next = instance(m, ids[k], b, nesting, depth).0;
        lemma_list_entered(next, ids, k + 1, b, nesting, more, depth);
    }
}

proof fn lemma_args_entered(
    m: Instances,
    args: Seq<ArgShape>,
    k: int,
    b: Seq<(Seq<char>, ArgShape)>,
    nesting: nat,
    more: nat,
    depth: nat,
)
    requires
        args_nest_within(m, args, k, b, nesting, depth),
        nesting <= more,
    ensures
        instance_args(m, args, k, b, more, depth) == instance_args(m, args, k, b, nesting, depth),
    decreases nesting, 0nat, depth, args.len() - k + 1,
{
    if 0 <= k < args.len() {
        match args[k] {
            ArgShape::Type(t) => {
                all_instances_are_entered(m, t, b, nesting, more, depth);
                let next = instance(m, t, b, nesting, depth).0;
                lemma_args_entered(next, args, k + 1, b, nesting, more, depth);
            },
            ArgShape::Value(_) => {
                lemma_args_entered(m, args, k + 1, b, nesting, more, depth);
            },
        }
    }
}

proof fn lemma_members_entered(
    m: Instances,
    ids: Seq<SymbolId>,
    k: int,
    b: Seq<(Seq<char>, ArgShape)>,
    nesting: nat,
    more: nat,
)
    requires
        members_nest_within(m, ids, k, b, nesting),
        nesting <= more,
    ensures
        instance_members(m, ids, k, b, more) == instance_members(m, ids, k, b, nesting),
    decreases nesting, 1nat, ids.len() - k, 0nat,
{
    if 0 <= k < ids.len() {
        match member_type_of(m.c, ids[k]) {
            Some(t) => {
                all_instances_are_entered(m, t, b, nesting, more, depth_of(m.c));
                let next = instance(m, t, b, nesting, depth_of(m.c)).0;
                lemma_members_entered(next, ids, k + 1, b, nesting, more);
            },
            None => {
                lemma_members_entered(m, ids, k + 1, b, nesting, more);
            },
        }
    }
}

} // verus!
