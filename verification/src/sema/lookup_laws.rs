//! What holds of the lookup of names, from a scope outwards and by the types of arguments.
use vstd::prelude::*;

use super::lookup::{
    associated_scopes, child_named, children_named, found, found_for_call, found_qualified, hops,
    inner_scope, met_args, met_type, met_types, named_below, named_outwards, namespaces_outwards,
    qualified_named, via_decls, via_using, with_new, with_scopes, Met,
};
use super::names::segments;
use super::resolve::existing_type;
use super::scope::{ScopeId, ScopeKind};
use super::symbol::{ClassId, SymbolId, SymbolShape};
use super::type_laws::lemma_ids_below;
use super::types::{ArgShape, TypeId, TypeShape};
use super::SemaView;
use crate::text;

verus! {

/// One type involves another directly: it points or refers to it, holds or names it, is a template
/// of it or with it, or is a class that comes from it.
pub open spec fn involves_next(c: SemaView, a: TypeId, b: TypeId) -> bool {
    match c.kind(a) {
        Some(TypeShape::Pointer { pointee, .. }) => b == pointee,
        Some(TypeShape::Reference { referent, .. }) => b == referent,
        Some(TypeShape::Array { elem, .. }) => b == elem,
        Some(TypeShape::Typedef { aliased, .. }) => b == aliased,
        Some(TypeShape::Template { base, args }) => existing_type(c, base) == Some(b)
            || args.contains(ArgShape::Type(b)),
        Some(TypeShape::Class(class_id)) => c.symbols.parents(class_id).contains(b),
        _ => false,
    }
}

/// The path leads from a type to one that it involves.
pub open spec fn involving(c: SemaView, root: TypeId, path: Seq<TypeId>) -> bool {
    &&& path.len() > 0
    &&& path[0] == root
    &&& forall|i: int| 0 <= i < path.len() - 1 ==> #[trigger] involved_at(c, path, i)
}

pub open spec fn involved_at(c: SemaView, path: Seq<TypeId>, i: int) -> bool {
    involves_next(c, path[i], path[i + 1])
}

/// The type involves the class, by itself or through other types.
pub open spec fn involves_class(c: SemaView, id: TypeId, class_id: ClassId) -> bool {
    exists|path: Seq<TypeId>| #[trigger]
        involving(c, id, path) && c.kind(path.last()) == Some(TypeShape::Class(class_id))
}

/// The scope is met on the way outwards.
pub open spec fn met_outwards(c: SemaView, cur: Option<ScopeId>, scope: ScopeId, steps: nat) -> bool
    decreases steps,
{
    steps > 0 && match cur {
        None => false,
        Some(id) => match c.scopes.scope(id) {
            None => false,
            Some(s) => id == scope || met_outwards(c, s.parent, scope, (steps - 1) as nat),
        },
    }
}

/// The scope is a namespace around the class.
pub open spec fn namespace_around(c: SemaView, class_id: ClassId, scope: ScopeId) -> bool {
    &&& c.scopes.scope(scope) matches Some(s) && s.kind == ScopeKind::Namespace
    &&& c.symbols.class_scope(class_id) matches Some(own) && met_outwards(
        c,
        c.scopes.parent(own),
        scope,
        c.scopes.scopes.len(),
    )
}

/// The scope is a namespace around a class that the type involves.
pub open spec fn associated(c: SemaView, id: TypeId, scope: ScopeId) -> bool {
    exists|class_id: ClassId| #[trigger]
        involves_class(c, id, class_id) && namespace_around(c, class_id, scope)
}

proof fn lemma_involves_further(c: SemaView, a: TypeId, b: TypeId, scope: ScopeId)
    requires
        involves_next(c, a, b),
        associated(c, b, scope),
    ensures
        associated(c, a, scope),
{
    let class_id = choose|class_id: ClassId| #[trigger]
        involves_class(c, b, class_id) && namespace_around(c, class_id, scope);
    let path = choose|path: Seq<TypeId>| #[trigger]
        involving(c, b, path) && c.kind(path.last()) == Some(TypeShape::Class(class_id));
    let longer = seq![a] + path;
    assert forall|i: int| 0 <= i < longer.len() - 1 implies #[trigger] involved_at(c, longer, i) by {
        if i > 0 {
            assert(involved_at(c, path, i - 1));
            assert(longer[i] == path[i - 1] && longer[i + 1] == path[i]);
        }
    }
    assert(longer.last() == path.last());
    assert(involving(c, a, longer));
    assert(involves_class(c, a, class_id));
}

/// What the walk outwards adds is a namespace that it met.
proof fn lemma_namespaces(
    c: SemaView,
    cur: Option<ScopeId>,
    scopes: Seq<ScopeId>,
    steps: nat,
    x: ScopeId,
)
    requires
        namespaces_outwards(c, cur, scopes, steps).contains(x),
        !scopes.contains(x),
    ensures
        met_outwards(c, cur, x, steps),
        c.scopes.scope(x) matches Some(s) && s.kind == ScopeKind::Namespace,
    decreases steps,
{
    if steps > 0 {
        if let Some(id) = cur {
            if let Some(s) = c.scopes.scope(id) {
                let next = if s.kind == ScopeKind::Namespace && !scopes.contains(id) {
                    scopes.push(id)
                } else {
                    scopes
                };
                if next.contains(x) {
                    let i = choose|i: int| 0 <= i < next.len() && next[i] == x;
                    if i < scopes.len() {
                        assert(scopes[i] == x);
                    }
                } else {
                    lemma_namespaces(c, s.parent, next, (steps - 1) as nat, x);
                }
            }
        }
    }
}

/// A scope that is met beyond those met before is associated with the type.
proof fn lemma_met_type(c: SemaView, id: TypeId, m: Met, classes: nat, depth: nat, x: ScopeId)
    requires
        met_type(c, id, m, classes, depth).scopes.contains(x),
        !m.scopes.contains(x),
    ensures
        associated(c, id, x),
    decreases classes, depth, 0nat,
{
    if depth > 0 {
        let less = (depth - 1) as nat;
        match c.kind(id) {
            Some(TypeShape::Pointer { pointee, .. }) => {
                lemma_met_type(c, pointee, m, classes, less, x);
                lemma_involves_further(c, id, pointee, x);
            },
            Some(TypeShape::Reference { referent, .. }) => {
                lemma_met_type(c, referent, m, classes, less, x);
                lemma_involves_further(c, id, referent, x);
            },
            Some(TypeShape::Array { elem, .. }) => {
                lemma_met_type(c, elem, m, classes, less, x);
                lemma_involves_further(c, id, elem, x);
            },
            Some(TypeShape::Typedef { aliased, .. }) => {
                lemma_met_type(c, aliased, m, classes, less, x);
                lemma_involves_further(c, id, aliased, x);
            },
            Some(TypeShape::Template { base, args }) => {
                let behind_base = match existing_type(c, base) {
                    Some(t) => met_type(c, t, m, classes, less),
                    None => m,
                };
                if behind_base.scopes.contains(x) {
                    let t = existing_type(c, base)->0;
                    lemma_met_type(c, t, m, classes, less, x);
                    lemma_involves_further(c, id, t, x);
                } else {
                    let t = lemma_met_args(c, args, 0, behind_base, classes, less, x);
                    lemma_involves_further(c, id, t, x);
                }
            },
            Some(TypeShape::Class(class_id)) => {
                if !m.classes.contains(class_id) && classes > 0 {
                    let scopes = match c.symbols.class_scope(class_id) {
                        Some(s) => namespaces_outwards(
                            c,
                            c.scopes.parent(s),
                            m.scopes,
                            c.scopes.scopes.len(),
                        ),
                        None => m.scopes,
                    };
                    let own = Met { scopes, classes: m.classes.push(class_id) };
                    if scopes.contains(x) {
                        let s = c.symbols.class_scope(class_id)->0;
                        lemma_namespaces(
                            c,
                            c.scopes.parent(s),
                            m.scopes,
                            c.scopes.scopes.len(),
                            x,
                        );
                        let path = seq![id];
                        assert(involving(c, id, path));
                        assert(path.last() == id);
                        assert(involves_class(c, id, class_id));
                        assert(namespace_around(c, class_id, x));
                    } else {
                        let t = lemma_met_types(
                            c,
                            c.symbols.parents(class_id),
                            0,
                            own,
                            (classes - 1) as nat,
                            c.types.kinds.len(),
                            x,
                        );
                        lemma_involves_further(c, id, t, x);
                    }
                }
            },
            _ => {},
        }
    }
}

proof fn lemma_met_args(
    c: SemaView,
    args: Seq<ArgShape>,
    k: int,
    m: Met,
    classes: nat,
    depth: nat,
    x: ScopeId,
) -> (t: TypeId)
    requires
        met_args(c, args, k, m, classes, depth).scopes.contains(x),
        !m.scopes.contains(x),
    ensures
        args.contains(ArgShape::Type(t)),
        associated(c, t, x),
    decreases classes, depth, args.len() - k + 1,
{
    if k < 0 || k >= args.len() {
        TypeId(0)
    } else {
        let next = match args[k] {
            ArgShape::Type(t) => met_type(c, t, m, classes, depth),
            ArgShape::Value(_) => m,
        };
        if next.scopes.contains(x) {
            let t = args[k]->Type_0;
            lemma_met_type(c, t, m, classes, depth, x);
            assert(args[k] == ArgShape::Type(t));
            t
        } else {
            lemma_met_args(c, args, k + 1, next, classes, depth, x)
        }
    }
}

proof fn lemma_met_types(
    c: SemaView,
    ids: Seq<TypeId>,
    k: int,
    m: Met,
    classes: nat,
    depth: nat,
    x: ScopeId,
) -> (t: TypeId)
    requires
        met_types(c, ids, k, m, classes, depth).scopes.contains(x),
        !m.scopes.contains(x),
    ensures
        ids.contains(t),
        associated(c, t, x),
    decreases classes, depth, ids.len() - k + 1,
{
    if k < 0 || k >= ids.len() {
        TypeId(0)
    } else {
        let next = met_type(c, ids[k], m, classes, depth);
        if next.scopes.contains(x) {
            lemma_met_type(c, ids[k], m, classes, depth, x);
            ids[k]
        } else {
            lemma_met_types(c, ids, k + 1, next, classes, depth, x)
        }
    }
}

/// The namespaces in which a call looks for its callee lie around classes that the types of its
/// arguments involve.
pub proof fn associated_namespaces_lie_around_classes(
    c: SemaView,
    arg_types: Seq<TypeId>,
    scope: ScopeId,
)
    requires
        associated_scopes(c, arg_types).contains(scope),
    ensures
        exists|t: TypeId| #[trigger] arg_types.contains(t) && associated(c, t, scope),
{
    let m = Met { scopes: Seq::empty(), classes: Seq::empty() };
    let t = lemma_met_types(
        c,
        arg_types,
        0,
        m,
        c.types.kinds.len() + 1,
        c.types.kinds.len(),
        scope,
    );
    assert(arg_types.contains(t));
}

/// `list` continues `base`, and what it adds differs from all that stands before it.
pub open spec fn continues(base: Seq<SymbolId>, list: Seq<SymbolId>) -> bool {
    &&& base.len() <= list.len()
    &&& list.take(base.len() as int) == base
    &&& forall|i: int, j: int|
        0 <= i < j < list.len() && base.len() <= j ==> #[trigger] list[i] != #[trigger] list[j]
}

proof fn lemma_continues_on(a: Seq<SymbolId>, b: Seq<SymbolId>, d: Seq<SymbolId>)
    requires
        continues(a, b),
        continues(b, d),
    ensures
        continues(a, d),
{
    assert forall|i: int| 0 <= i < b.len() implies #[trigger] d[i] == b[i] by {
        assert(d.take(b.len() as int)[i] == b[i]);
    }
    assert(d.take(a.len() as int) =~= b.take(a.len() as int));
    assert forall|i: int, j: int| 0 <= i < j < d.len() && a.len() <= j implies #[trigger] d[i]
        != #[trigger] d[j] by {
        if j < b.len() {
            assert(b[i] != b[j]);
        }
    }
}

proof fn lemma_with_new(target: Seq<SymbolId>, ids: Seq<SymbolId>, k: int)
    requires
        0 <= k,
    ensures
        continues(target, with_new(target, ids, k)),
        forall|j: int|
            target.len() <= j < with_new(target, ids, k).len() ==> ids.contains(
                #[trigger] with_new(target, ids, k)[j],
            ),
    decreases ids.len() - k,
{
    if k >= ids.len() {
        assert(target.take(target.len() as int) =~= target);
    } else if target.contains(ids[k]) {
        lemma_with_new(target, ids, k + 1);
    } else {
        let next = target.push(ids[k]);
        lemma_with_new(next, ids, k + 1);
        assert(next.take(target.len() as int) =~= target);
        lemma_continues_on(target, next, with_new(next, ids, k + 1));
        let r = with_new(next, ids, k + 1);
        assert(r.take(next.len() as int)[target.len() as int] == r[target.len() as int]);
        assert(ids.contains(ids[k]));
    }
}

/// The symbol is found under the name in the scope, directly or through a using declaration.
pub open spec fn found_in_scope(c: SemaView, scope: ScopeId, name: Seq<char>, id: SymbolId) -> bool {
    &&& c.scopes.scope(scope) is Some
    &&& c.scopes.named(scope, name).contains(id) || via_using(
        c,
        scope,
        name,
        Seq::empty(),
        hops(c),
    ).contains(id)
}

proof fn lemma_with_scopes(
    c: SemaView,
    target: Seq<SymbolId>,
    scopes: Seq<ScopeId>,
    name: Seq<char>,
    k: int,
)
    requires
        0 <= k,
    ensures
        continues(target, with_scopes(c, target, scopes, name, k)),
        forall|j: int|
            target.len() <= j < with_scopes(c, target, scopes, name, k).len() ==> added_from(
                c,
                scopes,
                name,
                #[trigger] with_scopes(c, target, scopes, name, k)[j],
            ),
    decreases scopes.len() - k,
{
    let r = with_scopes(c, target, scopes, name, k);
    if k >= scopes.len() {
        assert(target.take(target.len() as int) =~= target);
    } else {
        let direct = c.scopes.named(scopes[k], name);
        let used = via_using(c, scopes[k], name, Seq::empty(), hops(c));
        let (first, next) = match c.scopes.scope(scopes[k]) {
            None => (target, target),
            Some(s) => (with_new(target, direct, 0), with_new(with_new(target, direct, 0), used, 0)),
        };
        assert(target.take(target.len() as int) =~= target);
        if c.scopes.scope(scopes[k]) is Some {
            lemma_with_new(target, direct, 0);
            lemma_with_new(first, used, 0);
            lemma_continues_on(target, first, next);
        }
        lemma_with_scopes(c, next, scopes, name, k + 1);
        lemma_continues_on(target, next, r);
        assert forall|j: int| target.len() <= j < r.len() implies added_from(
            c,
            scopes,
            name,
            #[trigger] r[j],
        ) by {
            if j < next.len() {
                assert(r.take(next.len() as int)[j] == r[j]);
                assert(r[j] == next[j]);
                if j < first.len() {
                    assert(next.take(first.len() as int)[j] == next[j]);
                    assert(direct.contains(first[j]));
                } else {
                    assert(used.contains(next[j]));
                }
                assert(found_in_scope(c, scopes[k], name, r[j]));
                assert(scopes.contains(scopes[k]));
            }
        }
    }
}

/// The symbol is found under the name in one of the scopes.
pub open spec fn added_from(c: SemaView, scopes: Seq<ScopeId>, name: Seq<char>, id: SymbolId) -> bool {
    exists|scope: ScopeId| #[trigger]
        scopes.contains(scope) && found_in_scope(c, scope, name, id)
}

/// The symbol is found under the name in a namespace around a class that one of the types involves.
pub open spec fn found_near(
    c: SemaView,
    arg_types: Seq<TypeId>,
    name: Seq<char>,
    id: SymbolId,
) -> bool {
    exists|near: ScopeId, t: TypeId| #[trigger]
        arg_types.contains(t) && #[trigger] associated(c, t, near) && found_in_scope(
            c,
            near,
            name,
            id,
        )
}

/// What a name stands for by itself comes first in what it stands for as a callee. What follows is
/// new and comes but once, and is found under the name in a namespace around a class that the type
/// of an argument involves.
pub proof fn calls_find_plain_names_first(
    c: SemaView,
    scope: ScopeId,
    name: Seq<char>,
    arg_types: Seq<TypeId>,
)
    ensures
        continues(found(c, scope, name), found_for_call(c, scope, name, arg_types)),
        forall|j: int|
            found(c, scope, name).len() <= j < found_for_call(c, scope, name, arg_types).len()
                ==> found_near(
                c,
                arg_types,
                name,
                #[trigger] found_for_call(c, scope, name, arg_types)[j],
            ),
{
    let base = found(c, scope, name);
    let scopes = associated_scopes(c, arg_types);
    let r = found_for_call(c, scope, name, arg_types);
    lemma_with_scopes(c, base, scopes, name, 0);
    assert forall|j: int| base.len() <= j < r.len() implies found_near(
        c,
        arg_types,
        name,
        #[trigger] r[j],
    ) by {
        assert(added_from(c, scopes, name, r[j]));
        let near = choose|near: ScopeId| #[trigger]
            scopes.contains(near) && found_in_scope(c, near, name, r[j]);
        associated_namespaces_lie_around_classes(c, arg_types, near);
        let t = choose|t: TypeId| #[trigger] arg_types.contains(t) && associated(c, t, near);
        assert(arg_types.contains(t) && associated(c, t, near));
    }
}

/// Where no type of an argument involves a class, a callee is what the name stands for by itself.
pub proof fn calls_without_classes_find_plain_names(
    c: SemaView,
    scope: ScopeId,
    name: Seq<char>,
    arg_types: Seq<TypeId>,
)
    requires
        forall|t: TypeId, class_id: ClassId| #[trigger]
            arg_types.contains(t) ==> !#[trigger] involves_class(c, t, class_id),
    ensures
        found_for_call(c, scope, name, arg_types) == found(c, scope, name),
{
    let scopes = associated_scopes(c, arg_types);
    if scopes.len() > 0 {
        assert(scopes.contains(scopes[0]));
        associated_namespaces_lie_around_classes(c, arg_types, scopes[0]);
        let t = choose|t: TypeId| #[trigger] arg_types.contains(t) && associated(c, t, scopes[0]);
        let class_id = choose|class_id: ClassId| #[trigger]
            involves_class(c, t, class_id) && namespace_around(c, class_id, scopes[0]);
        assert(involves_class(c, t, class_id));
    }
}

// ---------------------------------------------------------------------------
// From a scope outwards
// ---------------------------------------------------------------------------
/// What a name stands for from a scope outwards, through at most so many scopes.
spec fn outwards(c: SemaView, id: ScopeId, name: Seq<char>, steps: nat) -> Seq<SymbolId> {
    named_outwards(c, Some(id), name, Seq::empty(), steps, hops(c))
}

/// Neither a scope declares the name nor its using declarations bring it in.
pub open spec fn leaves_open(c: SemaView, id: ScopeId, name: Seq<char>) -> bool {
    c.scopes.named(id, name).len() == 0 && via_using(c, id, name, Seq::empty(), hops(c)).len() == 0
}

proof fn lemma_outwards_step(c: SemaView, id: ScopeId, name: Seq<char>, steps: nat)
    requires
        steps > 0,
    ensures
        leaves_open(c, id, name) ==> outwards(c, id, name, steps) == match c.scopes.parent(id) {
            Some(p) => outwards(c, p, name, (steps - 1) as nat),
            None => Seq::empty(),
        },
        !leaves_open(c, id, name) ==> outwards(c, id, name, steps) == outwards(c, id, name, 1),
        outwards(c, id, name, steps).len() > 0 ==> id.0 < c.scopes.scopes.len(),
{
    reveal_with_fuel(named_outwards, 2);
}

/// Once something is found, looking further finds nothing else.
proof fn lemma_outwards_kept(c: SemaView, id: ScopeId, name: Seq<char>, steps: nat, more: nat)
    requires
        outwards(c, id, name, steps).len() > 0,
        steps <= more,
    ensures
        outwards(c, id, name, more) == outwards(c, id, name, steps),
    decreases steps,
{
    lemma_outwards_step(c, id, name, steps);
    lemma_outwards_step(c, id, name, more);
    if leaves_open(c, id, name) {
        if let Some(p) = c.scopes.parent(id) {
            lemma_outwards_kept(c, p, name, (steps - 1) as nat, (more - 1) as nat);
        }
    }
}

/// What is found through so many scopes, and not through fewer, lies behind as many scopes, none of
/// which is among those from which nothing is found through as many.
proof fn lemma_outwards_depth(
    c: SemaView,
    id: ScopeId,
    name: Seq<char>,
    steps: nat,
    seen: Set<u32>,
)
    requires
        steps > 0,
        outwards(c, id, name, steps).len() > 0,
        outwards(c, id, name, (steps - 1) as nat).len() == 0,
        seen.finite(),
        forall|s: u32| #[trigger]
            seen.contains(s) ==> s < c.scopes.scopes.len() && outwards(
                c,
                ScopeId(s),
                name,
                steps,
            ).len() == 0,
    ensures
        seen.len() + steps <= c.scopes.scopes.len(),
    decreases steps,
{
    lemma_outwards_step(c, id, name, steps);
    assert(ScopeId(id.0) == id);
    assert(!seen.contains(id.0));
    let now = seen.insert(id.0);
    if steps == 1 {
        lemma_ids_below(now, c.scopes.scopes.len());
    } else {
        lemma_outwards_step(c, id, name, (steps - 1) as nat);
        let p = c.scopes.parent(id)->0;
        assert forall|s: u32| #[trigger] now.contains(s) implies s < c.scopes.scopes.len()
            && outwards(c, ScopeId(s), name, (steps - 1) as nat).len() == 0 by {
            if s != id.0 {
                assert(seen.contains(s));
                if outwards(c, ScopeId(s), name, (steps - 1) as nat).len() > 0 {
                    lemma_outwards_kept(c, ScopeId(s), name, (steps - 1) as nat, steps);
                }
            }
        }
        lemma_outwards_depth(c, p, name, (steps - 1) as nat, now);
    }
}

/// The least number of scopes through which something is found.
proof fn lemma_least_steps(c: SemaView, id: ScopeId, name: Seq<char>, steps: nat) -> (least: nat)
    requires
        outwards(c, id, name, steps).len() > 0,
    ensures
        0 < least <= steps,
        outwards(c, id, name, least) == outwards(c, id, name, steps),
        outwards(c, id, name, (least - 1) as nat).len() == 0,
    decreases steps,
{
    if outwards(c, id, name, (steps - 1) as nat).len() == 0 {
        steps
    } else {
        lemma_outwards_kept(c, id, name, (steps - 1) as nat, steps);
        lemma_least_steps(c, id, name, (steps - 1) as nat)
    }
}

/// A name that neither a scope declares nor its using declarations bring in is looked up as in the
/// scope around it; where there is none, it stands for nothing.
pub proof fn open_names_are_looked_up_outside(c: SemaView, scope: ScopeId, name: Seq<char>)
    requires
        leaves_open(c, scope, name),
    ensures
        found(c, scope, name) == match c.scopes.parent(scope) {
            Some(p) => found(c, p, name),
            None => Seq::empty(),
        },
{
    let n = c.scopes.scopes.len();
    if n > 0 {
        lemma_outwards_step(c, scope, name, n);
        if let Some(p) = c.scopes.parent(scope) {
            let less = (n - 1) as nat;
            if outwards(c, p, name, n).len() > 0 {
                let least = lemma_least_steps(c, p, name, n);
                let seen = Set::<u32>::empty().insert(scope.0);
                assert(ScopeId(scope.0) == scope);
                lemma_outwards_step(c, scope, name, least);
                lemma_outwards_depth(c, p, name, least, seen);
                lemma_outwards_kept(c, p, name, least, less);
            } else if outwards(c, p, name, less).len() > 0 {
                lemma_outwards_kept(c, p, name, less, n);
            }
            assert(outwards(c, p, name, less) =~= outwards(c, p, name, n));
        }
    }
}

/// A name that is not declared in a scope without using declarations is looked up as in the scope
/// around it.
pub proof fn undeclared_names_are_looked_up_outside(c: SemaView, scope: ScopeId, name: Seq<char>)
    requires
        c.scopes.scope(scope) matches Some(s) && s.using_decls.len() == 0 && s.named(name).len()
            == 0,
    ensures
        found(c, scope, name) == match c.scopes.parent(scope) {
            Some(p) => found(c, p, name),
            None => Seq::empty(),
        },
{
    let s = c.scopes.scope(scope)->0;
    assert(via_using(c, scope, name, Seq::empty(), hops(c)).len() == 0);
    open_names_are_looked_up_outside(c, scope, name);
}

// ---------------------------------------------------------------------------
// Qualified names
// ---------------------------------------------------------------------------
/// The symbol opens this scope: it is a namespace with it, or a class whose members stand in it.
pub open spec fn opens(c: SemaView, id: SymbolId, s: ScopeId) -> bool {
    match c.symbols.kind(id) {
        Some(SymbolShape::Namespace { children }) => children == s,
        Some(SymbolShape::Class { class_id, .. }) => c.symbols.class_scope(class_id) == Some(s),
        _ => false,
    }
}

/// The symbol is declared under the name in a scope that one of these symbols opens.
pub open spec fn declared_inside(c: SemaView, ids: Seq<SymbolId>, name: Seq<char>, x: SymbolId) -> bool {
    exists|i: int, s: ScopeId|
        0 <= i < ids.len() && opens(c, #[trigger] ids[i], s) && (#[trigger] c.scopes.named(
            s,
            name,
        )).contains(x)
}

proof fn lemma_children(c: SemaView, ids: Seq<SymbolId>, name: Seq<char>, k: int, x: SymbolId)
    requires
        0 <= k <= ids.len(),
    ensures
        children_named(c, ids, name, k).contains(x) <==> exists|i: int, s: ScopeId|
            k <= i < ids.len() && opens(c, #[trigger] ids[i], s) && (#[trigger] c.scopes.named(
                s,
                name,
            )).contains(x),
    decreases ids.len() - k,
{
    if k < ids.len() {
        lemma_children(c, ids, name, k + 1, x);
        let first = child_named(c, ids[k], name);
        let rest = children_named(c, ids, name, k + 1);
        let all = children_named(c, ids, name, k);
        assert(all == first + rest);
        if first.contains(x) {
            let j = choose|j: int| 0 <= j < first.len() && first[j] == x;
            assert(all[j] == x);
            let s = inner_scope(c, ids[k])->0;
            assert(opens(c, ids[k], s) && c.scopes.named(s, name).contains(x));
        }
        if rest.contains(x) {
            let j = choose|j: int| 0 <= j < rest.len() && rest[j] == x;
            assert(all[first.len() + j] == x);
        }
        if all.contains(x) {
            let j = choose|j: int| 0 <= j < all.len() && all[j] == x;
            if j < first.len() {
                assert(first[j] == x);
            } else {
                assert(rest[j - first.len()] == x);
            }
        }
        if exists|i: int, s: ScopeId|
            k <= i < ids.len() && opens(c, #[trigger] ids[i], s) && (#[trigger] c.scopes.named(
                s,
                name,
            )).contains(x) {
            let (i, s) = choose|i: int, s: ScopeId|
                k <= i < ids.len() && opens(c, #[trigger] ids[i], s) && (#[trigger] c.scopes.named(
                    s,
                    name,
                )).contains(x);
            if i == k {
                assert(inner_scope(c, ids[k]) == Some(s));
                assert(first.contains(x));
            }
        }
    }
}

/// A qualified name means what is declared under its last part inside what its first part means: in
/// the namespaces and the classes of that name, and nowhere else. Where the first part means nothing
/// in the scope, what it means in the global one counts.
pub proof fn qualified_names_mean_what_is_inside(
    c: SemaView,
    scope: ScopeId,
    first: Seq<char>,
    last: Seq<char>,
    x: SymbolId,
)
    ensures
        ({
            let near = found(c, scope, first);
            let ids = if near.len() > 0 {
                near
            } else {
                found(c, c.scopes.global, first)
            };
            found_qualified(c, scope, seq![first, last]).contains(x) <==> declared_inside(
                c,
                ids,
                last,
                x,
            )
        }),
{
    let near = found(c, scope, first);
    let ids = if near.len() > 0 {
        near
    } else {
        found(c, c.scopes.global, first)
    };
    let segs = seq![first, last];
    reveal_with_fuel(named_below, 3);
    lemma_children(c, ids, last, 0, x);
    let next = children_named(c, ids, last, 0);
    assert(found_qualified(c, scope, segs) == named_below(c, ids, segs, 1));
    assert(named_below(c, ids, segs, 1) =~= next);
}

/// A qualified name of one part means what the part means.
pub proof fn single_parts_mean_themselves(c: SemaView, scope: ScopeId, name: Seq<char>)
    ensures
        found(c, scope, name).len() > 0 ==> found_qualified(c, scope, seq![name]) == found(
            c,
            scope,
            name,
        ),
        found_qualified(c, scope, Seq::empty()).len() == 0,
{
    reveal_with_fuel(named_below, 2);
}

/// What a scope declares hides all that is outside, also what is brought in from elsewhere.
pub proof fn own_names_hide_all_others(c: SemaView, scope: ScopeId, name: Seq<char>)
    requires
        c.scopes.named(scope, name).len() > 0,
    ensures
        found(c, scope, name) == c.scopes.named(scope, name),
{
    assert(scope.0 < c.scopes.scopes.len());
}

/// A scope that makes one namespace visible finds a name in it that it does not declare itself.
pub proof fn names_are_found_in_visible_namespaces(
    c: SemaView,
    scope: ScopeId,
    name: Seq<char>,
    path: Seq<char>,
    space: Seq<char>,
    x: SymbolId,
)
    requires
        scope != c.scopes.global,
        c.scopes.scope(scope) matches Some(s) && s.using_decls == seq!["namespace "@ + path],
        c.scopes.named(scope, name).len() == 0,
        segments(path) == seq![space],
        c.scopes.named(c.scopes.global, space).len() > 0,
        declared_inside(c, c.scopes.named(c.scopes.global, space), name, x),
    ensures
        found(c, scope, name).contains(x),
{
    let ids = c.scopes.named(c.scopes.global, space);
    let s = c.scopes.scope(scope)->0;
    let decls = s.using_decls;
    let p = "namespace "@;
    assert((p + path).subrange(0, p.len() as int) =~= p);
    assert((p + path).subrange(p.len() as int, (p + path).len() as int) =~= path);
    assert(text::stripped(decls[0], p) == Some(path));
    let fuel = hops(c);
    let none = Seq::<Seq<char>>::empty();
    let segs = segments(path).push(name);
    assert(segs =~= seq![space, name]);
    let less = (fuel - 1) as nat;
    let n = c.scopes.scopes.len();
    assert(named_outwards(c, Some(c.scopes.global), space, none, n, less) == ids);
    reveal_with_fuel(named_below, 3);
    lemma_children(c, ids, name, 0, x);
    let next = children_named(c, ids, name, 0);
    let here = qualified_named(c, c.scopes.global, segs, none, less);
    assert(here =~= next);
    assert(here.len() > 0);
    assert(via_decls(c, decls, name, none, 0, fuel) == here);
    assert(via_using(c, scope, name, none, fuel) == here);
    assert(found(c, scope, name) == here);
}

} // verus!
