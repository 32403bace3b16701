//! How names are found: in a scope, in those around it and through using declarations.
use vstd::prelude::*;

use super::names::{path_segments, segments};
use super::resolve::existing_type;
use super::scope::{ScopeId, ScopeKind};
use super::symbol::{ClassId, SymbolId, SymbolKind, SymbolShape};
use super::types::{arg_shapes, ArgShape, TemplateArg, TypeId, TypeKind, TypeShape};
use super::{SemaContext, SemaView};
use crate::text;

verus! {

/// How many using declarations a lookup may follow one from another.
pub open spec fn hops(c: SemaView) -> nat {
    match c.scopes.scope(c.scopes.global) {
        Some(s) => s.using_decls.len() + 3,
        None => 3,
    }
}

/// What a name stands for in the innermost scope, from `cur` outwards, that knows it.
///
/// `pending` holds the names that are being looked up through the using declarations of the
/// global scope; such a name is not looked up there once more.
pub open spec fn named_outwards(
    c: SemaView,
    cur: Option<ScopeId>,
    name: Seq<char>,
    pending: Seq<Seq<char>>,
    steps: nat,
    fuel: nat,
) -> Seq<SymbolId>
    decreases fuel, 2nat, steps,
{
    if steps == 0 {
        Seq::empty()
    } else {
        match cur {
            None => Seq::empty(),
            Some(id) => match c.scopes.scope(id) {
                None => Seq::empty(),
                Some(s) => if s.named(name).len() > 0 {
                    s.named(name)
                } else if via_using(c, id, name, pending, fuel).len() > 0 {
                    via_using(c, id, name, pending, fuel)
                } else {
                    named_outwards(c, s.parent, name, pending, (steps - 1) as nat, fuel)
                },
            },
        }
    }
}

/// What a name stands for through the using declarations of a scope.
pub open spec fn via_using(
    c: SemaView,
    id: ScopeId,
    name: Seq<char>,
    pending: Seq<Seq<char>>,
    fuel: nat,
) -> Seq<SymbolId>
    decreases fuel, 1nat, 0nat,
{
    match c.scopes.scope(id) {
        None => Seq::empty(),
        Some(s) => if id == c.scopes.global {
            if pending.contains(name) {
                Seq::empty()
            } else {
                via_decls(c, s.using_decls, name, pending.push(name), 0, fuel)
            }
        } else {
            via_decls(c, s.using_decls, name, pending, 0, fuel)
        },
    }
}

/// The same through the declarations from position `k` on.
pub open spec fn via_decls(
    c: SemaView,
    decls: Seq<Seq<char>>,
    name: Seq<char>,
    pending: Seq<Seq<char>>,
    k: int,
    fuel: nat,
) -> Seq<SymbolId>
    decreases fuel, 0nat, decls.len() - k,
{
    if fuel == 0 || k < 0 || k >= decls.len() {
        Seq::empty()
    } else {
        let here = match text::stripped(decls[k], "namespace "@) {
            Some(path) => qualified_named(
                c,
                c.scopes.global,
                segments(path).push(name),
                pending,
                (fuel - 1) as nat,
            ),
            None => {
                let segs = segments(decls[k]);
                if segs.len() == 0 || segs.last() != name {
                    Seq::empty()
                } else if segs.len() == 1 {
                    c.scopes.named(c.scopes.global, name)
                } else {
                    qualified_named(c, c.scopes.global, segs, pending, (fuel - 1) as nat)
                }
            },
        };
        if here.len() > 0 {
            here
        } else {
            via_decls(c, decls, name, pending, k + 1, fuel)
        }
    }
}

/// What a qualified name stands for.
pub open spec fn qualified_named(
    c: SemaView,
    scope: ScopeId,
    segs: Seq<Seq<char>>,
    pending: Seq<Seq<char>>,
    fuel: nat,
) -> Seq<SymbolId>
    decreases fuel, 3nat, 0nat,
{
    if segs.len() == 0 {
        Seq::empty()
    } else {
        let near = named_outwards(c, Some(scope), segs[0], pending, c.scopes.scopes.len(), fuel);
        let first = if near.len() == 0 {
            named_outwards(
                c,
                Some(c.scopes.global),
                segs[0],
                pending,
                c.scopes.scopes.len(),
                fuel,
            )
        } else {
            near
        };
        named_below(c, first, segs, 1)
    }
}

/// What the segments from position `k` on stand for inside these symbols.
pub open spec fn named_below(c: SemaView, ids: Seq<SymbolId>, segs: Seq<Seq<char>>, k: int) -> Seq<SymbolId>
    decreases segs.len() - k,
{
    if k < 0 || k >= segs.len() {
        ids
    } else {
        let next = children_named(c, ids, segs[k], 0);
        if next.len() == 0 {
            Seq::empty()
        } else {
            named_below(c, next, segs, k + 1)
        }
    }
}

pub open spec fn children_named(c: SemaView, ids: Seq<SymbolId>, name: Seq<char>, k: int) -> Seq<SymbolId>
    decreases ids.len() - k,
{
    if k < 0 || k >= ids.len() {
        Seq::empty()
    } else {
        child_named(c, ids[k], name) + children_named(c, ids, name, k + 1)
    }
}

/// The scope that a namespace or a class opens.
pub open spec fn inner_scope(c: SemaView, id: SymbolId) -> Option<ScopeId> {
    match c.symbols.kind(id) {
        Some(SymbolShape::Namespace { children }) => Some(children),
        Some(SymbolShape::Class { class_id, .. }) => c.symbols.class_scope(class_id),
        _ => None,
    }
}

pub open spec fn child_named(c: SemaView, id: SymbolId, name: Seq<char>) -> Seq<SymbolId> {
    match inner_scope(c, id) {
        Some(s) => c.scopes.named(s, name),
        None => Seq::empty(),
    }
}

/// What a name stands for in a scope.
pub open spec fn found(c: SemaView, scope: ScopeId, name: Seq<char>) -> Seq<SymbolId> {
    named_outwards(c, Some(scope), name, Seq::empty(), c.scopes.scopes.len(), hops(c))
}

/// What a qualified name stands for in a scope.
pub open spec fn found_qualified(c: SemaView, scope: ScopeId, segs: Seq<Seq<char>>) -> Seq<SymbolId> {
    qualified_named(c, scope, segs, Seq::empty(), hops(c))
}

fn hop_limit(ctx: &SemaContext) -> (r: u128)
    ensures
        r == hops(ctx@),
{
    match ctx.scopes.get(ctx.scopes.global) {
        Some(s) => s.using_decls.len() as u128 + 3,
        None => 3,
    }
}

fn look_outwards(
    ctx: &SemaContext,
    start: ScopeId,
    name: &str,
    pending: &Vec<String>,
    fuel: u128,
) -> (r: Vec<SymbolId>)
    ensures
        r@ == named_outwards(
            ctx@,
            Some(start),
            name@,
            text::texts(pending@),
            ctx@.scopes.scopes.len(),
            fuel as nat,
        ),
    decreases fuel, 2nat, 0nat,
{
    let ghost p = text::texts(pending@);
    let ghost whole = named_outwards(
        ctx@,
        Some(start),
        name@,
        p,
        ctx@.scopes.scopes.len(),
        fuel as nat,
    );
    let mut current: Option<ScopeId> = Some(start);
    let mut steps: usize = ctx.scopes.len();
    while steps > 0
        invariant
            p == text::texts(pending@),
            whole == named_outwards(
                ctx@,
                Some(start),
                name@,
                p,
                ctx@.scopes.scopes.len(),
                fuel as nat,
            ),
            whole == named_outwards(ctx@, current, name@, p, steps as nat, fuel as nat),
        ensures
            whole == Seq::<SymbolId>::empty(),
        decreases steps,
    {
        match current {
            None => {
                break ;
            },
            Some(id) => {
                match ctx.scopes.get(id) {
                    None => {
                        break ;
                    },
                    Some(s) => {
                        let ids = s.ids_named(name);
                        if ids.len() > 0 {
                            return ids;
                        }
                        let via = look_via_using(ctx, id, name, pending, fuel);
                        if via.len() > 0 {
                            return via;
                        }
                        current = s.parent;
                    },
                }
            },
        }
        steps = steps - 1;
    }
    Vec::new()
}

fn look_via_using(ctx: &SemaContext, id: ScopeId, name: &str, pending: &Vec<String>, fuel: u128) -> (r:
    Vec<SymbolId>)
    ensures
        r@ == via_using(ctx@, id, name@, text::texts(pending@), fuel as nat),
    decreases fuel, 1nat, 0nat,
{
    match ctx.scopes.get(id) {
        None => Vec::new(),
        Some(s) => {
            if id == ctx.scopes.global {
                if text::list_contains(pending, name) {
                    return Vec::new();
                }
                let mut more: Vec<String> = Vec::new();
                let n: usize = pending.len();
                let mut i: usize = 0;
                while i < n
                    invariant
                        n == pending@.len(),
                        i <= n,
                        text::texts(more@) =~= text::texts(pending@).take(i as int),
                    decreases n - i,
                {
                    let ghost before = text::texts(more@);
                    more.push(text::copy_of(&pending[i]));
                    assert(text::texts(more@) =~= before.push(pending@[i as int]@));
                    i = i + 1;
                }
                let ghost before = text::texts(more@);
                more.push(text::copy_of(name));
                assert(text::texts(more@) =~= before.push(name@));
                assert(text::texts(more@) =~= text::texts(pending@).push(name@));
                look_via_decls(ctx, &s.using_decls, name, &more, fuel)
            } else {
                look_via_decls(ctx, &s.using_decls, name, pending, fuel)
            }
        },
    }
}

fn look_via_decls(
    ctx: &SemaContext,
    decls: &Vec<String>,
    name: &str,
    pending: &Vec<String>,
    fuel: u128,
) -> (r: Vec<SymbolId>)
    ensures
        r@ == via_decls(
            ctx@,
            text::texts(decls@),
            name@,
            text::texts(pending@),
            0,
            fuel as nat,
        ),
    decreases fuel, 0nat, 0nat,
{
    if fuel == 0 {
        return Vec::new();
    }
    let ghost d = text::texts(decls@);
    let ghost p = text::texts(pending@);
    let n: usize = decls.len();
    let mut k: usize = 0;
    while k < n
        invariant
            fuel > 0,
            d == text::texts(decls@),
            p == text::texts(pending@),
            n == decls@.len(),
            k <= n,
            via_decls(ctx@, d, name@, p, 0, fuel as nat) == via_decls(
                ctx@,
                d,
                name@,
                p,
                k as int,
                fuel as nat,
            ),
        decreases n - k,
    {
        assert(d[k as int] == decls@[k as int]@);
        let here: Vec<SymbolId> = match text::strip_prefix(&decls[k], "namespace ") {
            Some(path) => {
                let mut segs = path_segments(path);
                let ghost before = text::texts(segs@);
                segs.push(text::copy_of(name));
                assert(text::texts(segs@) =~= before.push(name@));
                look_qualified(ctx, ctx.scopes.global, &segs, pending, fuel - 1)
            },
            None => {
                let segs = path_segments(&decls[k]);
                let m: usize = segs.len();
                assert(text::texts(segs@).len() == m);
                if m == 0 {
                    Vec::new()
                } else {
                    assert(text::texts(segs@).last() == segs@[m - 1]@);
                    if !text::same(&segs[m - 1], name) {
                        Vec::new()
                    } else if m == 1 {
                        ctx.scopes.ids_named(ctx.scopes.global, name)
                    } else {
                        look_qualified(ctx, ctx.scopes.global, &segs, pending, fuel - 1)
                    }
                }
            },
        };
        if here.len() > 0 {
            return here;
        }
        k = k + 1;
    }
    Vec::new()
}

fn look_qualified(
    ctx: &SemaContext,
    scope: ScopeId,
    segs: &Vec<String>,
    pending: &Vec<String>,
    fuel: u128,
) -> (r: Vec<SymbolId>)
    ensures
        r@ == qualified_named(
            ctx@,
            scope,
            text::texts(segs@),
            text::texts(pending@),
            fuel as nat,
        ),
    decreases fuel, 3nat, 0nat,
{
    let ghost t = text::texts(segs@);
    let n: usize = segs.len();
    if n == 0 {
        return Vec::new();
    }
    assert(t[0] == segs@[0]@);
    let near = look_outwards(ctx, scope, &segs[0], pending, fuel);
    let mut current = if near.len() == 0 {
        look_outwards(ctx, ctx.scopes.global, &segs[0], pending, fuel)
    } else {
        near
    };
    let ghost whole = named_below(ctx@, current@, t, 1);
    let mut k: usize = 1;
    while k < n
        invariant
            t == text::texts(segs@),
            n == segs@.len(),
            1 <= k <= n,
            whole == named_below(ctx@, current@, t, k as int),
            whole == qualified_named(ctx@, scope, t, text::texts(pending@), fuel as nat),
        decreases n - k,
    {
        assert(t[k as int] == segs@[k as int]@);
        let next = look_children(ctx, &current, &segs[k]);
        if next.len() == 0 {
            return Vec::new();
        }
        current = next;
        k = k + 1;
    }
    current
}

pub fn look_children(ctx: &SemaContext, ids: &Vec<SymbolId>, name: &str) -> (r: Vec<SymbolId>)
    ensures
        r@ == children_named(ctx@, ids@, name@, 0),
{
    let mut r: Vec<SymbolId> = Vec::new();
    let n: usize = ids.len();
    let mut i: usize = 0;
    while i < n
        invariant
            n == ids@.len(),
            i <= n,
            children_named(ctx@, ids@, name@, 0) =~= r@ + children_named(ctx@, ids@, name@, i as int),
        decreases n - i,
    {
        let mut more = lookup_child_symbol(ctx, ids[i], name);
        r.append(&mut more);
        i = i + 1;
    }
    r
}

fn lookup_child_symbol(ctx: &SemaContext, symbol_id: SymbolId, name: &str) -> (r: Vec<SymbolId>)
    ensures
        r@ == child_named(ctx@, symbol_id, name@),
{
    let child_scope = match ctx.symbols.get(symbol_id) {
        Some(symbol) => match &symbol.kind {
            SymbolKind::Namespace { children } => Some(*children),
            SymbolKind::Class { class_id, .. } => ctx.symbols.class_scope(*class_id),
            _ => None,
        },
        None => None,
    };
    match child_scope {
        Some(s) => ctx.scopes.ids_named(s, name),
        None => Vec::new(),
    }
}

pub fn lookup_name(ctx: &SemaContext, scope: ScopeId, name: &str) -> (r: Vec<SymbolId>)
    ensures
        r@ == found(ctx@, scope, name@),
{
    let pending: Vec<String> = Vec::new();
    assert(text::texts(pending@) =~= Seq::<Seq<char>>::empty());
    look_outwards(ctx, scope, name, &pending, hop_limit(ctx))
}

pub open spec fn strs(v: Seq<&str>) -> Seq<Seq<char>> {
    v.map_values(|s: &str| s@)
}

pub fn owned(segments: &[&str]) -> (r: Vec<String>)
    ensures
        text::texts(r@) == strs(segments@),
{
    let mut r: Vec<String> = Vec::new();
    let n: usize = segments.len();
    let mut i: usize = 0;
    while i < n
        invariant
            n == segments@.len(),
            i <= n,
            text::texts(r@) =~= strs(segments@).take(i as int),
        decreases n - i,
    {
        let ghost before = text::texts(r@);
        r.push(text::copy_of(segments[i]));
        assert(text::texts(r@) =~= before.push(segments@[i as int]@));
        i = i + 1;
    }
    assert(text::texts(r@) =~= strs(segments@));
    r
}

pub fn lookup_qualified_name(ctx: &SemaContext, scope: ScopeId, segments: &[&str]) -> (r: Vec<SymbolId>)
    ensures
        r@ == found_qualified(ctx@, scope, strs(segments@)),
{
    let segs = owned(segments);
    lookup_segments(ctx, scope, &segs)
}

pub fn lookup_segments(ctx: &SemaContext, scope: ScopeId, segs: &Vec<String>) -> (r: Vec<SymbolId>)
    ensures
        r@ == found_qualified(ctx@, scope, text::texts(segs@)),
{
    let pending: Vec<String> = Vec::new();
    assert(text::texts(pending@) =~= Seq::<Seq<char>>::empty());
    look_qualified(ctx, scope, segs, &pending, hop_limit(ctx))
}

/// The scopes and classes that the lookup by argument types has met.
#[verifier::ext_equal]
pub struct Met {
    pub scopes: Seq<ScopeId>,
    pub classes: Seq<ClassId>,
}

/// The namespaces from `cur` outwards, behind those met before.
pub open spec fn namespaces_outwards(c: SemaView, cur: Option<ScopeId>, scopes: Seq<ScopeId>, steps: nat) -> Seq<
    ScopeId,
>
    decreases steps,
{
    if steps == 0 {
        scopes
    } else {
        match cur {
            None => scopes,
            Some(id) => match c.scopes.scope(id) {
                None => scopes,
                Some(s) => namespaces_outwards(
                    c,
                    s.parent,
                    if s.kind == ScopeKind::Namespace && !scopes.contains(id) {
                        scopes.push(id)
                    } else {
                        scopes
                    },
                    (steps - 1) as nat,
                ),
            },
        }
    }
}

/// What is met after the namespaces that a type is associated with.
pub open spec fn met_type(c: SemaView, id: TypeId, m: Met, classes: nat, depth: nat) -> Met
    decreases classes, depth, 0nat,
{
    if depth == 0 {
        m
    } else {
        match c.kind(id) {
            Some(TypeShape::Pointer { pointee, .. }) => met_type(
                c,
                pointee,
                m,
                classes,
                (depth - 1) as nat,
            ),
            Some(TypeShape::Reference { referent, .. }) => met_type(
                c,
                referent,
                m,
                classes,
                (depth - 1) as nat,
            ),
            Some(TypeShape::Array { elem, .. }) => met_type(c, elem, m, classes, (depth - 1) as nat),
            Some(TypeShape::Typedef { aliased, .. }) => met_type(
                c,
                aliased,
                m,
                classes,
                (depth - 1) as nat,
            ),
            Some(TypeShape::Template { base, args }) => {
                let behind_base = match existing_type(c, base) {
                    Some(t) => met_type(c, t, m, classes, (depth - 1) as nat),
                    None => m,
                };
                met_args(c, args, 0, behind_base, classes, (depth - 1) as nat)
            },
            Some(TypeShape::Class(class_id)) => if m.classes.contains(class_id) || classes == 0 {
                m
            } else {
                let own = Met {
                    scopes: match c.symbols.class_scope(class_id) {
                        Some(s) => namespaces_outwards(
                            c,
                            c.scopes.parent(s),
                            m.scopes,
                            c.scopes.scopes.len(),
                        ),
                        None => m.scopes,
                    },
                    classes: m.classes.push(class_id),
                };
                met_types(
                    c,
                    c.symbols.parents(class_id),
                    0,
                    own,
                    (classes - 1) as nat,
                    c.types.kinds.len(),
                )
            },
            _ => m,
        }
    }
}

pub open spec fn met_args(c: SemaView, args: Seq<ArgShape>, k: int, m: Met, classes: nat, depth: nat) -> Met
    decreases classes, depth, args.len() - k + 1,
{
    if k < 0 || k >= args.len() {
        m
    } else {
        met_args(
            c,
            args,
            k + 1,
            match args[k] {
                ArgShape::Type(t) => met_type(c, t, m, classes, depth),
                ArgShape::Value(_) => m,
            },
            classes,
            depth,
        )
    }
}

pub open spec fn met_types(c: SemaView, ids: Seq<TypeId>, k: int, m: Met, classes: nat, depth: nat) -> Met
    decreases classes, depth, ids.len() - k + 1,
{
    if k < 0 || k >= ids.len() {
        m
    } else {
        met_types(c, ids, k + 1, met_type(c, ids[k], m, classes, depth), classes, depth)
    }
}

/// The namespaces that the types of the arguments are associated with.
pub open spec fn associated_scopes(c: SemaView, arg_types: Seq<TypeId>) -> Seq<ScopeId> {
    met_types(
        c,
        arg_types,
        0,
        Met { scopes: Seq::empty(), classes: Seq::empty() },
        c.types.kinds.len() + 1,
        c.types.kinds.len(),
    ).scopes
}

/// The target with the ids from position `k` on that it does not hold yet.
pub open spec fn with_new(target: Seq<SymbolId>, ids: Seq<SymbolId>, k: int) -> Seq<SymbolId>
    decreases ids.len() - k,
{
    if k < 0 || k >= ids.len() {
        target
    } else if target.contains(ids[k]) {
        with_new(target, ids, k + 1)
    } else {
        with_new(target.push(ids[k]), ids, k + 1)
    }
}

pub open spec fn with_scopes(
    c: SemaView,
    target: Seq<SymbolId>,
    scopes: Seq<ScopeId>,
    name: Seq<char>,
    k: int,
) -> Seq<SymbolId>
    decreases scopes.len() - k,
{
    if k < 0 || k >= scopes.len() {
        target
    } else {
        let next = match c.scopes.scope(scopes[k]) {
            None => target,
            Some(s) => with_new(
                with_new(target, s.named(name), 0),
                via_using(c, scopes[k], name, Seq::empty(), hops(c)),
                0,
            ),
        };
        with_scopes(c, next, scopes, name, k + 1)
    }
}

/// What the name of a callee stands for: as any name, and in the namespaces of the arguments.
pub open spec fn found_for_call(
    c: SemaView,
    scope: ScopeId,
    name: Seq<char>,
    arg_types: Seq<TypeId>,
) -> Seq<SymbolId> {
    with_scopes(c, found(c, scope, name), associated_scopes(c, arg_types), name, 0)
}

fn holds_scope(v: &Vec<ScopeId>, id: ScopeId) -> (r: bool)
    ensures
        r == v@.contains(id),
{
    let n: usize = v.len();
    let mut i: usize = 0;
    while i < n
        invariant
            n == v@.len(),
            i <= n,
            forall|j: int| 0 <= j < i ==> v@[j] != id,
        decreases n - i,
    {
        if v[i] == id {
            return true;
        }
        i = i + 1;
    }
    false
}

pub fn holds_class(v: &Vec<ClassId>, id: ClassId) -> (r: bool)
    ensures
        r == v@.contains(id),
{
    let n: usize = v.len();
    let mut i: usize = 0;
    while i < n
        invariant
            n == v@.len(),
            i <= n,
            forall|j: int| 0 <= j < i ==> v@[j] != id,
        decreases n - i,
    {
        if v[i] == id {
            return true;
        }
        i = i + 1;
    }
    false
}

fn holds_symbol(v: &Vec<SymbolId>, id: SymbolId) -> (r: bool)
    ensures
        r == v@.contains(id),
{
    let n: usize = v.len();
    let mut i: usize = 0;
    while i < n
        invariant
            n == v@.len(),
            i <= n,
            forall|j: int| 0 <= j < i ==> v@[j] != id,
        decreases n - i,
    {
        if v[i] == id {
            return true;
        }
        i = i + 1;
    }
    false
}

fn collect_enclosing_namespace_scopes(ctx: &SemaContext, scope_id: ScopeId, scopes: &mut Vec<ScopeId>)
    ensures
        final(scopes)@ == namespaces_outwards(
            ctx@,
            ctx@.scopes.parent(scope_id),
            old(scopes)@,
            ctx@.scopes.scopes.len(),
        ),
{
    let ghost whole = namespaces_outwards(
        ctx@,
        ctx@.scopes.parent(scope_id),
        old(scopes)@,
        ctx@.scopes.scopes.len(),
    );
    let mut current: Option<ScopeId> = ctx.scopes.parent_of(scope_id);
    let mut steps: usize = ctx.scopes.len();
    while steps > 0
        invariant
            whole == namespaces_outwards(ctx@, current, scopes@, steps as nat),
        ensures
            whole == scopes@,
        decreases steps,
    {
        match current {
            None => {
                break ;
            },
            Some(id) => {
                match ctx.scopes.get(id) {
                    None => {
                        break ;
                    },
                    Some(s) => {
                        if s.kind == ScopeKind::Namespace && !holds_scope(scopes, id) {
                            scopes.push(id);
                        }
                        current = s.parent;
                    },
                }
            },
        }
        steps = steps - 1;
    }
}

fn collect_adl_scopes_for_type(
    ctx: &SemaContext,
    type_id: TypeId,
    scopes: &mut Vec<ScopeId>,
    seen: &mut Vec<ClassId>,
    classes: u128,
    depth: usize,
)
    ensures
        (Met { scopes: final(scopes)@, classes: final(seen)@ }) == met_type(
            ctx@,
            type_id,
            Met { scopes: old(scopes)@, classes: old(seen)@ },
            classes as nat,
            depth as nat,
        ),
    decreases classes, depth, 0nat,
{
    if depth == 0 {
        return ;
    }
    match ctx.types.get(type_id) {
        Some(TypeKind::Pointer { pointee, .. }) => {
            collect_adl_scopes_for_type(ctx, *pointee, scopes, seen, classes, depth - 1);
        },
        Some(TypeKind::Reference { referent, .. }) => {
            collect_adl_scopes_for_type(ctx, *referent, scopes, seen, classes, depth - 1);
        },
        Some(TypeKind::Array { elem, .. }) => {
            collect_adl_scopes_for_type(ctx, *elem, scopes, seen, classes, depth - 1);
        },
        Some(TypeKind::Typedef { aliased, .. }) => {
            collect_adl_scopes_for_type(ctx, *aliased, scopes, seen, classes, depth - 1);
        },
        Some(TypeKind::Template { base, args }) => {
            match ctx.resolve_existing_type_text(base) {
                Some(t) => {
                    collect_adl_scopes_for_type(ctx, t, scopes, seen, classes, depth - 1);
                },
                None => {},
            }
            collect_adl_scopes_for_args(ctx, args, scopes, seen, classes, depth - 1);
        },
        Some(TypeKind::Class(class_id)) => {
            if holds_class(seen, *class_id) || classes == 0 {
                return ;
            }
            seen.push(*class_id);
            match ctx.symbols.class_scope(*class_id) {
                Some(s) => {
                    collect_enclosing_namespace_scopes(ctx, s, scopes);
                },
                None => {},
            }
            let parents = ctx.symbols.class_parents(*class_id);
            let n: usize = ctx.types.len();
            collect_adl_scopes_for_types(ctx, parents, scopes, seen, classes - 1, n);
        },
        _ => {},
    }
}

fn collect_adl_scopes_for_args(
    ctx: &SemaContext,
    args: &Vec<TemplateArg>,
    scopes: &mut Vec<ScopeId>,
    seen: &mut Vec<ClassId>,
    classes: u128,
    depth: usize,
)
    ensures
        (Met { scopes: final(scopes)@, classes: final(seen)@ }) == met_args(
            ctx@,
            arg_shapes(args@),
            0,
            Met { scopes: old(scopes)@, classes: old(seen)@ },
            classes as nat,
            depth as nat,
        ),
    decreases classes, depth, 1nat,
{
    let ghost whole = met_args(
        ctx@,
        arg_shapes(args@),
        0,
        Met { scopes: scopes@, classes: seen@ },
        classes as nat,
        depth as nat,
    );
    let n: usize = args.len();
    let mut i: usize = 0;
    while i < n
        invariant
            n == args@.len(),
            i <= n,
            whole == met_args(
                ctx@,
                arg_shapes(args@),
                i as int,
                Met { scopes: scopes@, classes: seen@ },
                classes as nat,
                depth as nat,
            ),
        decreases n - i,
    {
        assert(arg_shapes(args@)[i as int] == args@[i as int]@);
        match &args[i] {
            TemplateArg::Type(t) => {
                collect_adl_scopes_for_type(ctx, *t, scopes, seen, classes, depth);
            },
            TemplateArg::Value(_) => {},
        }
        i = i + 1;
    }
}

fn collect_adl_scopes_for_types(
    ctx: &SemaContext,
    ids: &[TypeId],
    scopes: &mut Vec<ScopeId>,
    seen: &mut Vec<ClassId>,
    classes: u128,
    depth: usize,
)
    ensures
        (Met { scopes: final(scopes)@, classes: final(seen)@ }) == met_types(
            ctx@,
            ids@,
            0,
            Met { scopes: old(scopes)@, classes: old(seen)@ },
            classes as nat,
            depth as nat,
        ),
    decreases classes, depth, 1nat,
{
    let ghost whole = met_types(
        ctx@,
        ids@,
        0,
        Met { scopes: scopes@, classes: seen@ },
        classes as nat,
        depth as nat,
    );
    let n: usize = ids.len();
    let mut i: usize = 0;
    while i < n
        invariant
            n == ids@.len(),
            i <= n,
            whole == met_types(
                ctx@,
                ids@,
                i as int,
                Met { scopes: scopes@, classes: seen@ },
                classes as nat,
                depth as nat,
            ),
        decreases n - i,
    {
        collect_adl_scopes_for_type(ctx, ids[i], scopes, seen, classes, depth);
        i = i + 1;
    }
}

fn collect_adl_associated_scopes(ctx: &SemaContext, arg_types: &[TypeId]) -> (r: Vec<ScopeId>)
    ensures
        r@ == associated_scopes(ctx@, arg_types@),
{
    let mut scopes: Vec<ScopeId> = Vec::new();
    let mut seen: Vec<ClassId> = Vec::new();
    let n: usize = ctx.types.len();
    collect_adl_scopes_for_types(ctx, arg_types, &mut scopes, &mut seen, n as u128 + 1, n);
    scopes
}

fn append_unique(target: &mut Vec<SymbolId>, ids: &Vec<SymbolId>)
    ensures
        final(target)@ == with_new(old(target)@, ids@, 0),
{
    let n: usize = ids.len();
    let mut i: usize = 0;
    while i < n
        invariant
            n == ids@.len(),
            i <= n,
            with_new(old(target)@, ids@, 0) == with_new(target@, ids@, i as int),
        decreases n - i,
    {
        if !holds_symbol(target, ids[i]) {
            target.push(ids[i]);
        }
        i = i + 1;
    }
}

pub fn lookup_call_name(ctx: &SemaContext, scope: ScopeId, name: &str, arg_types: &[TypeId]) -> (r: Vec<
    SymbolId,
>)
    ensures
        r@ == found_for_call(ctx@, scope, name@, arg_types@),
{
    let mut resolved = lookup_name(ctx, scope, name);
    let scopes = collect_adl_associated_scopes(ctx, arg_types);
    let pending: Vec<String> = Vec::new();
    assert(text::texts(pending@) =~= Seq::<Seq<char>>::empty());
    let limit = hop_limit(ctx);
    let n: usize = scopes.len();
    let mut i: usize = 0;
    while i < n
        invariant
            text::texts(pending@) == Seq::<Seq<char>>::empty(),
            limit == hops(ctx@),
            n == scopes@.len(),
            i <= n,
            found_for_call(ctx@, scope, name@, arg_types@) == with_scopes(
                ctx@,
                resolved@,
                scopes@,
                name@,
                i as int,
            ),
        decreases n - i,
    {
        match ctx.scopes.get(scopes[i]) {
            Some(s) => {
                let ids = s.ids_named(name);
                append_unique(&mut resolved, &ids);
                let via = look_via_using(ctx, scopes[i], name, &pending, limit);
                append_unique(&mut resolved, &via);
            },
            None => {},
        }
        i = i + 1;
    }
    resolved
}

// ---------------------------------------------------------------------------
// What holds of lookups
// ---------------------------------------------------------------------------
/// A name that a scope declares hides what it stands for outside.
pub proof fn inner_declaration_hides_outer(c: SemaView, scope: ScopeId, name: Seq<char>)
    requires
        c.scopes.named(scope, name).len() > 0,
    ensures
        found(c, scope, name) == c.scopes.named(scope, name),
{
}

} // verus!
