//! What holds of the context that is read from a source: which types stand in it.
use vstd::prelude::*;

use super::builder::{
    alias_parts, attached, built, class_names, declared_type_name, declares_class,
    declares_function, declares_struct, declaring, definition_parts, empty_context, function_params,
    loops, named_function, names_parent, namespace_among, namespace_name, nested, owning,
    param_types_from, parent_types, parent_types_from, scope_params, template_scope, unterminated,
    using_all, variable_name_node, walked, walked_from, walked_function, with_class_at,
    with_enum_at, with_function_at, with_namespace, with_namespaces, with_parameters_from,
    with_params, with_typedef_at, with_using_at, with_variable_at,
};
use super::builtin::{builtin_named, builtin_shape};
use super::expr::with_helpers;
use super::intern::{
    around, declared_type_at, depth_of, entered, instance, instance_args, instance_list,
    instance_members, knowing, knowing_in, known_type, lemma_written_template, member_type_of,
    named_or_class, node_type, qualified_outwards, type_outwards, typedef_outwards, using,
    written_args, written_template, written_type, Instances,
};
use super::intern_laws::{arena_knows_each_type_once, each_known_once, kinds_kept};
use super::lookup::named_below;
use super::members::{binding, bound_to};
use super::names::{
    clean, lemma_args_len, lemma_clean_len, none_longer, segments, template_args, type_like,
};
use super::pattern::place;
use super::resolve::{first_declared_type, typedef_among};
use super::scope::{ScopeId, ScopeKind};
use super::symbol::{
    Access, ClassId, FuncOverload, SourceRef, Storage, SymbolId, SymbolShape, SymbolsView,
};
use super::syntax::{
    lemma_by_field, lemma_descendant, lemma_next_declarator, next_declarator, FieldName, NodeKind,
    SyntaxTree,
};
use super::type_laws::{
    arg_below, built_in_order, known_types_stay_in_order, made_of_earlier, ordered_types_end,
    references_end, texts_end,
};
use super::types::{
    first_types, no_cv, shape_index, ArenaView, ArgShape, BuiltinType, RefKind, TypeId, TypeShape,
};
use super::{ParamShape, SemaView};
use crate::text;

verus! {

// ---------------------------------------------------------------------------
// What is kept
// ---------------------------------------------------------------------------
/// The id stands for a type.
pub open spec fn known(c: SemaView, id: TypeId) -> bool {
    id.0 < c.types.kinds.len()
}

pub open spec fn all_known(c: SemaView, ids: Seq<TypeId>) -> bool {
    forall|i: int| 0 <= i < ids.len() ==> known(c, #[trigger] ids[i])
}

/// The types that a symbol is declared with are known.
pub open spec fn declared_with_known(c: SemaView, kind: SymbolShape) -> bool {
    match kind {
        SymbolShape::Class { type_id, parents, .. } => known(c, type_id) && all_known(c, parents),
        SymbolShape::Enum { type_id, .. } => known(c, type_id),
        SymbolShape::Function { decls } => forall|i: int|
            0 <= i < decls.len() ==> known(c, (#[trigger] decls[i]).type_id),
        SymbolShape::Variable { type_id, .. } => known(c, type_id),
        SymbolShape::Field { type_id, .. } => known(c, type_id),
        SymbolShape::Method { type_id, .. } => known(c, type_id),
        SymbolShape::Typedef { type_id } => known(c, type_id),
        _ => true,
    }
}

pub open spec fn symbols_have_known_types(c: SemaView) -> bool {
    forall|i: int|
        0 <= i < c.symbols.symbols.len() ==> declared_with_known(
            c,
            (#[trigger] c.symbols.symbols[i]).kind,
        )
}

pub open spec fn parents_are_known(c: SemaView) -> bool {
    forall|id: u32| #[trigger]
        c.symbols.class_parents.contains_key(id) ==> all_known(c, c.symbols.class_parents[id])
}

/// The types that every context starts with are known.
spec fn first_are_known(c: SemaView) -> bool {
    &&& known(c, c.types.void_t)
    &&& known(c, c.types.bool_t)
    &&& known(c, c.types.int32_t)
    &&& known(c, c.types.uint32_t)
    &&& known(c, c.types.float_t)
    &&& known(c, c.types.double_t)
    &&& known(c, c.types.unknown_t)
    &&& known(c, c.types.nullptr_t)
}

/// The types that every context starts with stand where they stood at the start.
pub open spec fn starts_with_first(c: SemaView) -> bool {
    let first = first_types();
    &&& kinds_kept(first, c.types)
    &&& c.types == (ArenaView { kinds: c.types.kinds, ..first })
}

/// Types stand in order and once, from the first ones on, and whatever symbols and classes are
/// declared with is among them.
pub open spec fn well_typed(c: SemaView) -> bool {
    &&& built_in_order(c)
    &&& each_known_once(c.types)
    &&& symbols_have_known_types(c)
    &&& parents_are_known(c)
    &&& starts_with_first(c)
}

#[verifier::opaque]
spec fn sound(c: SemaView) -> bool {
    well_typed(c)
}

/// The second context is sound and knows at least as many types.
spec fn onward(a: SemaView, b: SemaView) -> bool {
    sound(b) && a.types.kinds.len() <= b.types.kinds.len()
}

spec fn args_known(c: SemaView, args: Seq<ArgShape>) -> bool {
    forall|i: int| 0 <= i < args.len() ==> arg_below(#[trigger] args[i], c.types.kinds.len() as int)
}

/// What names are bound to is known.
pub open spec fn bound_known(c: SemaView, b: Seq<(Seq<char>, ArgShape)>) -> bool {
    forall|i: int|
        0 <= i < b.len() ==> arg_below((#[trigger] b[i]).1, c.types.kinds.len() as int)
}

proof fn lemma_same(a: SemaView, b: SemaView)
    requires
        sound(a),
        a.types == b.types,
        a.symbols.symbols == b.symbols.symbols,
        a.symbols.class_parents == b.symbols.class_parents,
    ensures
        sound(b),
{
    reveal(sound);
}

proof fn lemma_index(kinds: Seq<TypeShape>, s: TypeShape, from: int)
    requires
        0 <= from,
    ensures
        shape_index(kinds, s, from) matches Some(i) ==> from <= i < kinds.len(),
    decreases kinds.len() - from,
{
    if from < kinds.len() && kinds[from] != s {
        lemma_index(kinds, s, from + 1);
    }
}

/// The id under which a type is made known stands for a type.
proof fn lemma_id_known(c: SemaView, s: TypeShape)
    ensures
        known(knowing(c, s), c.types.id_of(s)),
        c.types.kinds.len() <= knowing(c, s).types.kinds.len(),
{
    lemma_index(c.types.kinds, s, 0);
}

proof fn lemma_know(c: SemaView, s: TypeShape)
    requires
        sound(c),
        made_of_earlier(s, c.types.kinds.len() as int),
    ensures
        onward(c, knowing(c, s)),
        known(knowing(c, s), c.types.id_of(s)),
{
    reveal(sound);
    let now = knowing(c, s);
    lemma_id_known(c, s);
    known_types_stay_in_order(c, s);
    arena_knows_each_type_once(c.types, s);
    assert forall|i: int| 0 <= i < now.symbols.symbols.len() implies declared_with_known(
        now,
        (#[trigger] now.symbols.symbols[i]).kind,
    ) by {
        assert(declared_with_known(c, c.symbols.symbols[i].kind));
    }
    assert forall|id: u32| #[trigger] now.symbols.class_parents.contains_key(id) implies all_known(
        now,
        now.symbols.class_parents[id],
    ) by {
        assert(all_known(c, c.symbols.class_parents[id]));
    }
}

proof fn lemma_declare(c: SemaView, scope: ScopeId, name: Seq<char>, kind: SymbolShape)
    requires
        sound(c),
        declared_with_known(c, kind),
    ensures
        onward(c, declaring(c, scope, name, kind)),
{
    reveal(sound);
    let now = declaring(c, scope, name, kind);
    assert forall|i: int| 0 <= i < now.symbols.symbols.len() implies declared_with_known(
        now,
        (#[trigger] now.symbols.symbols[i]).kind,
    ) by {
        if i < c.symbols.symbols.len() {
            assert(declared_with_known(c, c.symbols.symbols[i].kind));
        }
    }
    assert forall|id: u32| #[trigger] now.symbols.class_parents.contains_key(id) implies all_known(
        now,
        now.symbols.class_parents[id],
    ) by {
        assert(all_known(c, c.symbols.class_parents[id]));
    }
}

proof fn lemma_symbol_known(c: SemaView, id: SymbolId)
    requires
        sound(c),
    ensures
        c.symbols.kind(id) matches Some(kind) ==> declared_with_known(c, kind),
{
    reveal(sound);
}

proof fn lemma_first_known(c: SemaView)
    requires
        sound(c),
    ensures
        first_are_known(c),
{
    reveal(sound);
    assert(first_types().kinds.len() == 8);
}

proof fn lemma_kind_in_order(c: SemaView, id: TypeId)
    requires
        sound(c),
    ensures
        c.kind(id) matches Some(kind) ==> made_of_earlier(kind, c.types.kinds.len() as int),
{
    reveal(sound);
    if known(c, id) {
        assert(made_of_earlier(c.types.kinds[id.0 as int], id.0 as int));
    }
}

// ---------------------------------------------------------------------------
// The types that are found by their names
// ---------------------------------------------------------------------------
proof fn lemma_typedef_among(c: SemaView, ids: Seq<SymbolId>, k: int)
    requires
        sound(c),
    ensures
        typedef_among(c, ids, k) matches Some(Some(t)) ==> known(c, t),
    decreases ids.len() - k,
{
    if 0 <= k < ids.len() {
        lemma_symbol_known(c, ids[k]);
        lemma_typedef_among(c, ids, k + 1);
    }
}

proof fn lemma_first_declared(c: SemaView, ids: Seq<SymbolId>, k: int)
    requires
        sound(c),
    ensures
        first_declared_type(c, ids, k) matches Some(t) ==> known(c, t),
    decreases ids.len() - k,
{
    if 0 <= k < ids.len() {
        lemma_symbol_known(c, ids[k]);
        lemma_first_declared(c, ids, k + 1);
    }
}

proof fn lemma_typedef_outwards(c: SemaView, cur: Option<ScopeId>, name: Seq<char>, steps: nat)
    requires
        sound(c),
    ensures
        typedef_outwards(c, cur, name, steps) matches Some(t) ==> known(c, t),
    decreases steps,
{
    if steps > 0 {
        if let Some(id) = cur {
            if let Some(s) = c.scopes.scope(id) {
                lemma_typedef_among(c, s.named(name), 0);
                lemma_typedef_outwards(c, s.parent, name, (steps - 1) as nat);
            }
        }
    }
}

proof fn lemma_type_outwards(c: SemaView, cur: Option<ScopeId>, name: Seq<char>, steps: nat)
    requires
        sound(c),
    ensures
        type_outwards(c, cur, name, steps) matches Some(t) ==> known(c, t),
    decreases steps,
{
    if steps > 0 {
        if let Some(id) = cur {
            if let Some(s) = c.scopes.scope(id) {
                lemma_first_declared(c, s.named(name), 0);
                lemma_type_outwards(c, s.parent, name, (steps - 1) as nat);
            }
        }
    }
}

proof fn lemma_qualified_outwards(
    c: SemaView,
    cur: Option<ScopeId>,
    segs: Seq<Seq<char>>,
    steps: nat,
)
    requires
        sound(c),
    ensures
        qualified_outwards(c, cur, segs, steps) matches Some(t) ==> known(c, t),
    decreases steps,
{
    if steps > 0 {
        if let Some(id) = cur {
            lemma_first_declared(c, named_below(c, c.scopes.named(id, segs[0]), segs, 1), 0);
            lemma_qualified_outwards(c, c.scopes.parent(id), segs, (steps - 1) as nat);
        }
    }
}

proof fn lemma_builtin_named(c: SemaView, name: Seq<char>)
    requires
        sound(c),
    ensures
        ({
            let (types, found) = builtin_named(c.types, c.aliases, name);
            let now = SemaView { types, ..c };
            onward(c, now) && (found matches Some(t) ==> known(now, t))
        }),
{
    lemma_first_known(c);
    lemma_know(c, builtin_shape(BuiltinType::Char));
}

proof fn lemma_known_type(c: SemaView, scope: ScopeId, s: Seq<char>)
    requires
        sound(c),
    ensures
        onward(c, known_type(c, scope, s).0),
        known_type(c, scope, s).1 matches Some(t) ==> known(known_type(c, scope, s).0, t),
{
    lemma_builtin_named(c, s);
    let (types, found) = builtin_named(c.types, c.aliases, s);
    let c1 = SemaView { types, ..c };
    let segs = segments(s);
    let n = c1.scopes.scopes.len();
    lemma_typedef_outwards(c1, Some(scope), s, n);
    lemma_type_outwards(c1, Some(scope), s, n);
    lemma_qualified_outwards(c1, Some(scope), segs, n + 1);
    lemma_first_declared(c1, named_below(c1, c1.scopes.named(c1.scopes.global, segs[0]), segs, 1), 0);
}

proof fn lemma_named_or_class(c: SemaView, scope: ScopeId, s: Seq<char>)
    requires
        sound(c),
    ensures
        onward(c, named_or_class(c, scope, s).0),
        known(named_or_class(c, scope, s).0, named_or_class(c, scope, s).1),
{
    lemma_known_type(c, scope, s);
    let (c1, found) = known_type(c, scope, s);
    let c2 = SemaView { symbols: c1.symbols.with_class(s), ..c1 };
    lemma_same(c1, c2);
    lemma_know(c2, TypeShape::Class(c1.symbols.class_id(s)));
}

// ---------------------------------------------------------------------------
// The types that texts and declarators write
// ---------------------------------------------------------------------------
proof fn lemma_written_type(c: SemaView, scope: ScopeId, raw: Seq<char>)
    requires
        sound(c),
    ensures
        onward(c, written_type(c, scope, raw).0),
        known(written_type(c, scope, raw).0, written_type(c, scope, raw).1),
    decreases raw.len(), 2nat, 0nat,
{
    let s = clean(raw);
    lemma_clean_len(raw);
    if s.len() == 0 {
        lemma_first_known(c);
    } else if text::ends(s, "[]"@) && 0 < "[]"@.len() {
        let inner = text::trimmed_end(s.subrange(0, s.len() - "[]"@.len()));
        text::lemma_trimmed_end_len(s.subrange(0, s.len() - "[]"@.len()));
        lemma_written_type(c, scope, inner);
        let (c1, elem) = written_type(c, scope, inner);
        lemma_know(c1, TypeShape::Array { elem, size: None });
    } else if text::ends(s, "&"@) && 0 < "&"@.len() {
        let inner = text::trimmed_end(s.subrange(0, s.len() - "&"@.len()));
        text::lemma_trimmed_end_len(s.subrange(0, s.len() - "&"@.len()));
        lemma_written_type(c, scope, inner);
        let (c1, referent) = written_type(c, scope, inner);
        lemma_know(c1, TypeShape::Reference { referent, kind: RefKind::LValue });
    } else if text::ends(s, "*"@) && 0 < "*"@.len() {
        let inner = text::trimmed_end(s.subrange(0, s.len() - "*"@.len()));
        text::lemma_trimmed_end_len(s.subrange(0, s.len() - "*"@.len()));
        lemma_written_type(c, scope, inner);
        let (c1, pointee) = written_type(c, scope, inner);
        lemma_know(c1, TypeShape::Pointer { pointee, cv: no_cv() });
    } else if text::has_char(s, '<') && text::ends(s, ">"@) {
        match written_template(s) {
            None => {
                lemma_named_or_class(c, scope, s);
            },
            Some((base, inner)) => {
                lemma_written_template(s);
                lemma_args_len(inner, 0, 0, 0);
                lemma_written_args(c, scope, template_args(inner), 0, inner.len());
                let (c1, args) = written_args(c, scope, template_args(inner), 0, inner.len());
                lemma_know(c1, TypeShape::Template { base, args });
            },
        }
    } else {
        lemma_named_or_class(c, scope, s);
    }
}

proof fn lemma_written_args(
    c: SemaView,
    scope: ScopeId,
    list: Seq<Seq<char>>,
    k: int,
    longest: nat,
)
    requires
        sound(c),
        0 <= k <= list.len(),
        none_longer(list, longest),
    ensures
        onward(c, written_args(c, scope, list, k, longest).0),
        args_known(
            written_args(c, scope, list, k, longest).0,
            written_args(c, scope, list, k, longest).1,
        ),
    decreases longest, 3nat, list.len() - k,
{
    if k < list.len() {
        let s = text::trimmed(list[k]);
        text::lemma_trimmed_len(list[k]);
        let c1 = if s.len() == 0 {
            c
        } else if type_like(s) {
            lemma_written_type(c, scope, s);
            written_type(c, scope, s).0
        } else {
            lemma_known_type(c, scope, s);
            known_type(c, scope, s).0
        };
        lemma_written_args(c1, scope, list, k + 1, longest);
        let (c2, rest) = written_args(c1, scope, list, k + 1, longest);
        let (now, all) = written_args(c, scope, list, k, longest);
        assert(now == c2);
        if s.len() > 0 {
            assert forall|i: int| 0 <= i < all.len() implies arg_below(
                #[trigger] all[i],
                c2.types.kinds.len() as int,
            ) by {
                if i > 0 {
                    assert(all[i] == rest[i - 1]);
                }
            }
        }
    }
}

proof fn lemma_node_type(c: SemaView, t: SyntaxTree, n: usize, scope: ScopeId)
    requires
        sound(c),
    ensures
        onward(c, node_type(c, t, n, scope).0),
        known(node_type(c, t, n, scope).0, node_type(c, t, n, scope).1),
{
    if t.at(n).kind == NodeKind::PrimitiveType {
        lemma_builtin_named(c, t.text(n));
        lemma_first_known(node_type(c, t, n, scope).0);
    } else {
        lemma_written_type(c, scope, clean(t.text(n)));
    }
}

proof fn lemma_around(c: SemaView, id: TypeId, t: SyntaxTree, cur: Option<usize>)
    requires
        sound(c),
        known(c, id),
        cur matches Some(n) ==> t.has(n),
    ensures
        onward(c, around(c, id, t, cur).0),
        known(around(c, id, t, cur).0, around(c, id, t, cur).1),
    decreases place(t, cur),
{
    if let Some(n) = cur {
        lemma_next_declarator(t, n);
        let next = next_declarator(t, n);
        let kind = t.at(n).kind;
        if kind == NodeKind::PointerDeclarator {
            let s = TypeShape::Pointer { pointee: id, cv: no_cv() };
            lemma_know(c, s);
            lemma_around(knowing(c, s), c.types.id_of(s), t, next);
        } else if kind == NodeKind::ReferenceDeclarator {
            let s = TypeShape::Reference { referent: id, kind: RefKind::LValue };
            lemma_know(c, s);
            lemma_around(knowing(c, s), c.types.id_of(s), t, next);
        } else if kind == NodeKind::ArrayDeclarator {
            let s = TypeShape::Array { elem: id, size: None };
            lemma_know(c, s);
            lemma_around(knowing(c, s), c.types.id_of(s), t, next);
        } else {
            lemma_around(c, id, t, next);
        }
    }
}

proof fn lemma_declared_type_at(
    c: SemaView,
    t: SyntaxTree,
    n: usize,
    scope: ScopeId,
    declarator: Option<usize>,
)
    requires
        sound(c),
        declarator matches Some(d) ==> t.has(d),
    ensures
        onward(c, declared_type_at(c, t, n, scope, declarator).0),
        known(
            declared_type_at(c, t, n, scope, declarator).0,
            declared_type_at(c, t, n, scope, declarator).1,
        ),
{
    match t.by_field(n, FieldName::Type) {
        Some(m) => {
            lemma_node_type(c, t, m, scope);
            let (c1, base) = node_type(c, t, m, scope);
            lemma_around(c1, base, t, declarator);
        },
        None => {
            lemma_first_known(c);
        },
    }
}

// ---------------------------------------------------------------------------
// The types that are made known for instances of templates
// ---------------------------------------------------------------------------
proof fn lemma_binding(c: SemaView, b: Seq<(Seq<char>, ArgShape)>, name: Seq<char>, upto: int)
    requires
        bound_known(c, b),
    ensures
        binding(b, name, upto) matches Some(a) ==> arg_below(a, c.types.kinds.len() as int),
    decreases upto,
{
    if 0 < upto <= b.len() {
        lemma_binding(c, b, name, upto - 1);
    }
}

proof fn lemma_entered(m: Instances, base: Seq<char>, args: Seq<ArgShape>)
    requires
        sound(m.c),
        args_known(m.c, args),
    ensures
        onward(m.c, entered(m, base, args).0.c),
        entered(m, base, args).1 matches Some(inside) ==> bound_known(
            entered(m, base, args).0.c,
            inside.1,
        ),
{
    lemma_known_type(m.c, m.c.scopes.global, base);
    if let Some((ids, inner)) = entered(m, base, args).1 {
        let now = entered(m, base, args).0.c;
        assert forall|i: int| 0 <= i < inner.len() implies arg_below(
            (#[trigger] inner[i]).1,
            now.types.kinds.len() as int,
        ) by {
            assert(inner[i].1 == args[i]);
        }
    }
}

proof fn lemma_instance(
    m: Instances,
    id: TypeId,
    b: Seq<(Seq<char>, ArgShape)>,
    nesting: nat,
    depth: nat,
)
    requires
        sound(m.c),
        bound_known(m.c, b),
    ensures
        onward(m.c, instance(m, id, b, nesting, depth).0.c),
        known(m.c, id) ==> known(
            instance(m, id, b, nesting, depth).0.c,
            instance(m, id, b, nesting, depth).1,
        ),
    decreases nesting, 0nat, depth, 0nat,
{
    if depth > 0 {
        let less = (depth - 1) as nat;
        lemma_kind_in_order(m.c, id);
        match m.c.kind(id) {
            Some(TypeShape::Dependent(name)) => {
                lemma_binding(m.c, b, name, b.len() as int);
                if let Some(ArgShape::Type(t)) = bound_to(b, name) {
                    lemma_instance(m, t, Seq::empty(), nesting, less);
                }
            },
            Some(TypeShape::Pointer { pointee, cv }) => {
                lemma_instance(m, pointee, b, nesting, less);
                let (m1, p) = instance(m, pointee, b, nesting, less);
                lemma_know(m1.c, TypeShape::Pointer { pointee: p, cv });
            },
            Some(TypeShape::Reference { referent, kind }) => {
                lemma_instance(m, referent, b, nesting, less);
                let (m1, p) = instance(m, referent, b, nesting, less);
                lemma_know(m1.c, TypeShape::Reference { referent: p, kind });
            },
            Some(TypeShape::Array { elem, size }) => {
                lemma_instance(m, elem, b, nesting, less);
                let (m1, p) = instance(m, elem, b, nesting, less);
                lemma_know(m1.c, TypeShape::Array { elem: p, size });
            },
            Some(
                TypeShape::Function { return_t, params, min_arity, is_variadic, is_const_member },
            ) => {
                lemma_instance(m, return_t, b, nesting, less);
                let (m1, r) = instance(m, return_t, b, nesting, less);
                lemma_bound_stay_known(m.c, m1.c, b);
                assert(all_known(m1.c, params));
                lemma_instance_list(m1, params, 0, b, nesting, less);
                let (m2, list) = instance_list(m1, params, 0, b, nesting, less);
                lemma_know(
                    m2.c,
                    TypeShape::Function {
                        return_t: r,
                        params: list,
                        min_arity,
                        is_variadic,
                        is_const_member,
                    },
                );
            },
            Some(TypeShape::Template { base, args }) => {
                lemma_instance_args(m, args, 0, b, nesting, less);
                let (m1, list) = instance_args(m, args, 0, b, nesting, less);
                let s = TypeShape::Template { base, args: list };
                lemma_know(m1.c, s);
                let m2 = knowing_in(m1, s);
                lemma_args_stay_known(m1.c, m2.c, list);
                lemma_entered(m2, base, list);
                let (m3, inside) = entered(m2, base, list);
                if let Some((ids, inner)) = inside {
                    if nesting > 0 {
                        lemma_instance_members(m3, ids, 0, inner, (nesting - 1) as nat);
                    }
                }
            },
            _ => {},
        }
    }
}

proof fn lemma_args_stay_known(a: SemaView, b: SemaView, args: Seq<ArgShape>)
    requires
        args_known(a, args),
        a.types.kinds.len() <= b.types.kinds.len(),
    ensures
        args_known(b, args),
{
    assert forall|i: int| 0 <= i < args.len() implies arg_below(
        #[trigger] args[i],
        b.types.kinds.len() as int,
    ) by {
        assert(arg_below(args[i], a.types.kinds.len() as int));
    }
}

proof fn lemma_bound_stay_known(a: SemaView, b: SemaView, names: Seq<(Seq<char>, ArgShape)>)
    requires
        bound_known(a, names),
        a.types.kinds.len() <= b.types.kinds.len(),
    ensures
        bound_known(b, names),
{
    assert forall|i: int| 0 <= i < names.len() implies arg_below(
        (#[trigger] names[i]).1,
        b.types.kinds.len() as int,
    ) by {
        assert(arg_below(names[i].1, a.types.kinds.len() as int));
    }
}

proof fn lemma_instance_list(
    m: Instances,
    ids: Seq<TypeId>,
    k: int,
    b: Seq<(Seq<char>, ArgShape)>,
    nesting: nat,
    depth: nat,
)
    requires
        sound(m.c),
        bound_known(m.c, b),
        all_known(m.c, ids),
        0 <= k <= ids.len(),
    ensures
        onward(m.c, instance_list(m, ids, k, b, nesting, depth).0.c),
        all_known(
            instance_list(m, ids, k, b, nesting, depth).0.c,
            instance_list(m, ids, k, b, nesting, depth).1,
        ),
    decreases nesting, 0nat, depth, ids.len() - k + 1,
{
    if k < ids.len() {
        assert(known(m.c, ids[k]));
        lemma_instance(m, ids[k], b, nesting, depth);
        let (m1, first) = instance(m, ids[k], b, nesting, depth);
        lemma_bound_stay_known(m.c, m1.c, b);
        lemma_all_stay_known(m.c, m1.c, ids);
        lemma_instance_list(m1, ids, k + 1, b, nesting, depth);
        let (m2, rest) = instance_list(m1, ids, k + 1, b, nesting, depth);
        let all = seq![first] + rest;
        assert forall|i: int| 0 <= i < all.len() implies known(m2.c, #[trigger] all[i]) by {
            if i > 0 {
                assert(all[i] == rest[i - 1]);
            }
        }
    }
}

proof fn lemma_instance_args(
    m: Instances,
    args: Seq<ArgShape>,
    k: int,
    b: Seq<(Seq<char>, ArgShape)>,
    nesting: nat,
    depth: nat,
)
    requires
        sound(m.c),
        bound_known(m.c, b),
        args_known(m.c, args),
        0 <= k <= args.len(),
    ensures
        onward(m.c, instance_args(m, args, k, b, nesting, depth).0.c),
        args_known(
            instance_args(m, args, k, b, nesting, depth).0.c,
            instance_args(m, args, k, b, nesting, depth).1,
        ),
    decreases nesting, 0nat, depth, args.len() - k + 1,
{
    if k < args.len() {
        assert(arg_below(args[k], m.c.types.kinds.len() as int));
        let m1 = match args[k] {
            ArgShape::Type(t) => {
                lemma_instance(m, t, b, nesting, depth);
                instance(m, t, b, nesting, depth).0
            },
            ArgShape::Value(v) => {
                lemma_binding(m.c, b, v, b.len() as int);
                m
            },
        };
        lemma_bound_stay_known(m.c, m1.c, b);
        lemma_args_stay_known(m.c, m1.c, args);
        lemma_instance_args(m1, args, k + 1, b, nesting, depth);
        let (m2, rest) = instance_args(m1, args, k + 1, b, nesting, depth);
        let (now, all) = instance_args(m, args, k, b, nesting, depth);
        assert(now == m2);
        assert forall|i: int| 0 <= i < all.len() implies arg_below(
            #[trigger] all[i],
            m2.c.types.kinds.len() as int,
        ) by {
            if i > 0 {
                assert(all[i] == rest[i - 1]);
            }
        }
    }
}

proof fn lemma_instance_members(
    m: Instances,
    ids: Seq<SymbolId>,
    k: int,
    b: Seq<(Seq<char>, ArgShape)>,
    nesting: nat,
)
    requires
        sound(m.c),
        bound_known(m.c, b),
        0 <= k <= ids.len(),
    ensures
        onward(m.c, instance_members(m, ids, k, b, nesting).c),
    decreases nesting, 1nat, ids.len() - k, 0nat,
{
    if k < ids.len() {
        let next = match member_type_of(m.c, ids[k]) {
            Some(t) => {
                lemma_instance(m, t, b, nesting, depth_of(m.c));
                instance(m, t, b, nesting, depth_of(m.c)).0
            },
            None => m,
        };
        lemma_bound_stay_known(m.c, next.c, b);
        lemma_instance_members(next, ids, k + 1, b, nesting);
    }
}

proof fn lemma_using(c: SemaView, id: TypeId)
    requires
        sound(c),
    ensures
        onward(c, using(c, id)),
{
    lemma_instance(
        Instances { c, seen: Seq::empty() },
        id,
        Seq::empty(),
        usize::MAX as nat,
        depth_of(c),
    );
}

proof fn lemma_using_all(c: SemaView, ids: Seq<TypeId>, k: int)
    requires
        sound(c),
    ensures
        onward(c, using_all(c, ids, k)),
    decreases ids.len() - k,
{
    if 0 <= k < ids.len() {
        lemma_using(c, ids[k]);
        lemma_using_all(using(c, ids[k]), ids, k + 1);
    }
}

// ---------------------------------------------------------------------------
// Declarations
// ---------------------------------------------------------------------------
proof fn lemma_with_namespaces(c: SemaView, scope: ScopeId, names: Seq<Seq<char>>, k: int)
    requires
        sound(c),
    ensures
        onward(c, with_namespaces(c, scope, names, k).0),
    decreases names.len() - k,
{
    if 0 <= k < names.len() {
        let (c3, inner) = with_namespace(c, scope, names[k]);
        if namespace_among(c, c.scopes.named(scope, names[k]), 0) is None {
            let children = c.scopes.next_id();
            let c1 = nested(c, scope, ScopeKind::Namespace);
            lemma_same(c, c1);
            lemma_declare(c1, scope, names[k], SymbolShape::Namespace { children });
            lemma_same(
                declaring(c1, scope, names[k], SymbolShape::Namespace { children }),
                c3,
            );
        }
        lemma_with_namespaces(c3, inner, names, k + 1);
    }
}

proof fn lemma_with_params(
    c: SemaView,
    outer: ScopeId,
    scope: ScopeId,
    params: Seq<ParamShape>,
    k: int,
)
    requires
        sound(c),
    ensures
        onward(c, with_params(c, outer, scope, params, k)),
    decreases params.len() - k,
{
    if 0 <= k < params.len() {
        match params[k] {
            ParamShape::Type { name } => {
                let s = TypeShape::Dependent(name);
                let kind = SymbolShape::Typedef { type_id: c.types.id_of(s) };
                lemma_know(c, s);
                lemma_declare(knowing(c, s), scope, name, kind);
                lemma_with_params(
                    declaring(knowing(c, s), scope, name, kind),
                    outer,
                    scope,
                    params,
                    k + 1,
                );
            },
            ParamShape::Value { name, declared_type } => {
                lemma_written_type(c, outer, declared_type);
                let (c1, type_id) = written_type(c, outer, declared_type);
                let kind = SymbolShape::Variable { type_id, storage: Storage::Parameter };
                lemma_declare(c1, scope, name, kind);
                lemma_with_params(declaring(c1, scope, name, kind), outer, scope, params, k + 1);
            },
        }
    }
}

proof fn lemma_template_scope(c: SemaView, scope: ScopeId, params: Seq<ParamShape>)
    requires
        sound(c),
    ensures
        onward(c, template_scope(c, scope, params).0),
{
    let c1 = nested(c, scope, ScopeKind::Template);
    lemma_same(c, c1);
    lemma_with_params(c1, scope, c.scopes.next_id(), params, 0);
}

proof fn lemma_parent_types_from(c: SemaView, t: SyntaxTree, n: usize, k: int, scope: ScopeId)
    requires
        sound(c),
    ensures
        onward(c, parent_types_from(c, t, n, k, scope).0),
        all_known(
            parent_types_from(c, t, n, k, scope).0,
            parent_types_from(c, t, n, k, scope).1,
        ),
    decreases t.kids(n).len() - k,
{
    if 0 <= k < t.kids(n).len() {
        if names_parent(t.at(t.kids(n)[k]).kind) {
            lemma_node_type(c, t, t.kids(n)[k], scope);
            let (c1, first) = node_type(c, t, t.kids(n)[k], scope);
            lemma_parent_types_from(c1, t, n, k + 1, scope);
            let (c2, rest) = parent_types_from(c1, t, n, k + 1, scope);
            let all = seq![first] + rest;
            assert forall|i: int| 0 <= i < all.len() implies known(c2, #[trigger] all[i]) by {
                if i > 0 {
                    assert(all[i] == rest[i - 1]);
                }
            }
        } else {
            lemma_parent_types_from(c, t, n, k + 1, scope);
        }
    }
}

proof fn lemma_all_stay_known(a: SemaView, b: SemaView, ids: Seq<TypeId>)
    requires
        all_known(a, ids),
        a.types.kinds.len() <= b.types.kinds.len(),
    ensures
        all_known(b, ids),
{
    assert forall|i: int| 0 <= i < ids.len() implies known(b, #[trigger] ids[i]) by {
        assert(known(a, ids[i]));
    }
}

/// Classes may be given parents that are known.
proof fn lemma_with_parents(c: SemaView, now: SemaView, class: ClassId, parents: Seq<TypeId>)
    requires
        sound(c),
        all_known(c, parents),
        now.types == c.types,
        now.symbols.symbols == c.symbols.symbols,
        now.symbols.class_parents == c.symbols.class_parents.insert(class.0, parents),
    ensures
        sound(now),
{
    reveal(sound);
    assert forall|id: u32| #[trigger] now.symbols.class_parents.contains_key(id) implies all_known(
        now,
        now.symbols.class_parents[id],
    ) by {
        if id != class.0 {
            assert(c.symbols.class_parents.contains_key(id));
            assert(all_known(c, c.symbols.class_parents[id]));
        }
    }
    assert forall|i: int| 0 <= i < now.symbols.symbols.len() implies declared_with_known(
        now,
        (#[trigger] now.symbols.symbols[i]).kind,
    ) by {
        assert(declared_with_known(c, c.symbols.symbols[i].kind));
    }
}

proof fn lemma_with_class_at(
    c: SemaView,
    t: SyntaxTree,
    n: usize,
    scope: ScopeId,
    name: Seq<char>,
)
    requires
        sound(c),
    ensures
        onward(c, with_class_at(c, t, n, scope, name).0),
{
    let (class_name, symbol_name) = class_names(c, t, n, scope, name);
    let params = scope_params(t, n);
    let class_id = c.symbols.class_id(class_name);
    let c1 = SemaView { symbols: c.symbols.with_class(class_name), ..c };
    lemma_same(c, c1);
    let (c2, parents) = parent_types(c1, t, n, scope);
    if let Some(b) = t.descendant(n, NodeKind::BaseClassClause) {
        lemma_parent_types_from(c1, t, b, 0, scope);
    }
    let s = TypeShape::Class(class_id);
    let type_id = c2.types.id_of(s);
    let c3 = knowing(c2, s);
    lemma_know(c2, s);
    lemma_template_scope(c3, scope, params);
    let (c4, outer) = template_scope(c3, scope, params);
    lemma_all_stay_known(c2, c4, parents);
    let class_scope = c4.scopes.next_id();
    let c5 = nested(c4, outer, ScopeKind::Class);
    let c6 = SemaView {
        symbols: SymbolsView {
            class_scopes: c5.symbols.class_scopes.insert(class_id.0, class_scope),
            class_parents: c5.symbols.class_parents.insert(class_id.0, parents),
            ..c5.symbols
        },
        ..c5
    };
    lemma_with_parents(c4, c6, class_id, parents);
    let c7 = if params.len() == 0 {
        c6
    } else {
        SemaView { template_params: c6.template_params.insert(class_id.0, params), ..c6 }
    };
    let c8 = attached(c7, t, n, class_scope);
    lemma_same(c6, c8);
    lemma_all_stay_known(c4, c8, parents);
    let kind = SymbolShape::Class {
        class_id,
        type_id,
        parents,
        is_struct: declares_struct(t.at(n).kind),
    };
    let c9 = declaring(c8, scope, symbol_name, kind);
    lemma_declare(c8, scope, symbol_name, kind);
    lemma_same(c9, owning(c9, class_scope, c8.symbols.next_id()));
}

proof fn lemma_with_enum_at(c: SemaView, t: SyntaxTree, n: usize, scope: ScopeId)
    requires
        sound(c),
    ensures
        onward(c, with_enum_at(c, t, n, scope)),
{
    let name = declared_type_name(t, n);
    let enum_id = c.symbols.enum_id(name);
    let c1 = SemaView { symbols: c.symbols.with_enum(name), ..c };
    lemma_same(c, c1);
    let s = TypeShape::Enum(enum_id);
    lemma_know(c1, s);
    lemma_declare(
        knowing(c1, s),
        scope,
        name,
        SymbolShape::Enum { enum_id, type_id: c1.types.id_of(s) },
    );
}

proof fn lemma_alias_parts(c: SemaView, s: Seq<char>, scope: ScopeId)
    requires
        sound(c),
    ensures
        onward(c, alias_parts(c, s, scope).0),
        alias_parts(c, s, scope).1 matches Some(p) ==> known(alias_parts(c, s, scope).0, p.1),
{
    if let Some(behind) = text::stripped(unterminated(s), "using "@) {
        if let Some(target) = text::behind_first(text::trimmed(behind), '=') {
            lemma_written_type(c, scope, text::trimmed(target));
        }
    }
}

proof fn lemma_definition_parts(c: SemaView, t: SyntaxTree, n: usize, scope: ScopeId)
    requires
        sound(c),
        t.has(n),
    ensures
        onward(c, definition_parts(c, t, n, scope).0),
        definition_parts(c, t, n, scope).1 matches Some(p) ==> known(
            definition_parts(c, t, n, scope).0,
            p.1,
        ),
{
    lemma_by_field(t, n, FieldName::Declarator);
    if let Some(d) = t.by_field(n, FieldName::Declarator) {
        lemma_declared_type_at(c, t, n, scope, Some(d));
    }
}

proof fn lemma_with_typedef_at(c: SemaView, t: SyntaxTree, n: usize, scope: ScopeId)
    requires
        sound(c),
        t.has(n),
    ensures
        onward(c, with_typedef_at(c, t, n, scope)),
{
    lemma_alias_parts(c, t.text(n), scope);
    lemma_definition_parts(c, t, n, scope);
    let (c1, parts) = if t.at(n).kind == NodeKind::AliasDeclaration {
        alias_parts(c, t.text(n), scope)
    } else {
        definition_parts(c, t, n, scope)
    };
    if let Some((name, aliased)) = parts {
        let s = TypeShape::Typedef { name, aliased };
        lemma_know(c1, s);
        lemma_declare(
            knowing(c1, s),
            scope,
            name,
            SymbolShape::Typedef { type_id: c1.types.id_of(s) },
        );
    }
}

proof fn lemma_with_variable_at(
    c: SemaView,
    t: SyntaxTree,
    n: usize,
    scope: ScopeId,
    class: Option<ClassId>,
    storage: Storage,
)
    requires
        sound(c),
        t.has(n),
    ensures
        onward(c, with_variable_at(c, t, n, scope, class, storage)),
{
    lemma_by_field(t, n, FieldName::Declarator);
    let declarator = t.by_field(n, FieldName::Declarator);
    lemma_declared_type_at(c, t, n, scope, declarator);
    if let Some(m) = variable_name_node(t, n) {
        let (c1, type_id) = declared_type_at(c, t, n, scope, declarator);
        lemma_using(c1, type_id);
        let kind = if t.at(n).kind == NodeKind::ParameterDeclaration {
            SymbolShape::Variable { type_id, storage: Storage::Parameter }
        } else if class is Some && t.at(n).kind == NodeKind::FieldDeclaration {
            SymbolShape::Field { owner: class->0, type_id, access: Access::Public }
        } else {
            SymbolShape::Variable { type_id, storage }
        };
        lemma_declare(using(c1, type_id), scope, text::trimmed(t.text(m)), kind);
    }
}

proof fn lemma_param_types_from(c: SemaView, t: SyntaxTree, n: usize, k: int, scope: ScopeId)
    requires
        sound(c),
        t.has(n),
    ensures
        onward(c, param_types_from(c, t, n, k, scope).0),
        all_known(param_types_from(c, t, n, k, scope).0, param_types_from(c, t, n, k, scope).1),
    decreases t.kids(n).len() - k,
{
    if 0 <= k < t.kids(n).len() {
        let x = t.kids(n)[k];
        if t.at(x).kind == NodeKind::ParameterDeclaration {
            lemma_by_field(t, x, FieldName::Declarator);
            let declarator = t.by_field(x, FieldName::Declarator);
            lemma_declared_type_at(c, t, x, scope, declarator);
            let (c1, first) = declared_type_at(c, t, x, scope, declarator);
            lemma_param_types_from(c1, t, n, k + 1, scope);
            let (c2, rest) = param_types_from(c1, t, n, k + 1, scope);
            let all = seq![first] + rest;
            assert forall|i: int| 0 <= i < all.len() implies known(c2, #[trigger] all[i]) by {
                if i > 0 {
                    assert(all[i] == rest[i - 1]);
                }
            }
        } else {
            lemma_param_types_from(c, t, n, k + 1, scope);
        }
    }
}

proof fn lemma_with_parameters_from(
    c: SemaView,
    t: SyntaxTree,
    n: usize,
    k: int,
    scope: ScopeId,
    class: Option<ClassId>,
)
    requires
        sound(c),
        t.has(n),
    ensures
        onward(c, with_parameters_from(c, t, n, k, scope, class)),
    decreases t.kids(n).len() - k,
{
    if 0 <= k < t.kids(n).len() {
        let x = t.kids(n)[k];
        if t.at(x).kind == NodeKind::ParameterDeclaration || t.at(x).kind
            == NodeKind::OptionalParameterDeclaration {
            lemma_with_variable_at(c, t, x, scope, class, Storage::Parameter);
            lemma_with_parameters_from(
                with_variable_at(c, t, x, scope, class, Storage::Parameter),
                t,
                n,
                k + 1,
                scope,
                class,
            );
        } else {
            lemma_with_parameters_from(c, t, n, k + 1, scope, class);
        }
    }
}

proof fn lemma_with_function_at(
    c: SemaView,
    t: SyntaxTree,
    n: usize,
    scope: ScopeId,
    class: Option<ClassId>,
    is_definition: bool,
    d: usize,
    name: Seq<char>,
)
    requires
        sound(c),
        t.has(d),
    ensures
        onward(c, with_function_at(c, t, n, scope, class, is_definition, d, name).0),
{
    lemma_template_scope(c, scope, scope_params(t, n));
    let (c1, inner) = template_scope(c, scope, scope_params(t, n));
    lemma_declared_type_at(c1, t, n, inner, Some(d));
    let (c2, return_t) = declared_type_at(c1, t, n, inner, Some(d));
    lemma_using(c2, return_t);
    lemma_descendant(t, d, NodeKind::ParameterList);
    let list = t.descendant(d, NodeKind::ParameterList);
    if let Some(l) = list {
        lemma_param_types_from(using(c2, return_t), t, l, 0, inner);
    }
    let (c3, params, min_arity) = function_params(using(c2, return_t), t, d, inner);
    lemma_using_all(c3, params, 0);
    let c4 = using_all(c3, params, 0);
    lemma_all_stay_known(c3, c4, params);
    let shape = TypeShape::Function {
        return_t,
        params,
        min_arity,
        is_variadic: text::has(t.text(d), "..."@),
        is_const_member: text::has(t.text(n), " const"@),
    };
    let type_id = c4.types.id_of(shape);
    lemma_know(c4, shape);
    let kind = match class {
        Some(owner) => SymbolShape::Method {
            owner,
            type_id,
            access: Access::Public,
            is_static: text::has(t.text(n), "static "@),
            is_virtual: text::has(t.text(n), "virtual "@),
            is_override: text::has(t.text(n), " override"@),
        },
        None => SymbolShape::Function {
            decls: seq![
                FuncOverload {
                    type_id,
                    source: SourceRef {
                        line: t.at(n).start_row as u32,
                        column: t.at(n).start_column as u32,
                    },
                    is_definition,
                },
            ],
        },
    };
    let c5 = knowing(c4, shape);
    lemma_declare(c5, scope, name, kind);
    let c6 = declaring(c5, scope, name, kind);
    let body = c6.scopes.next_id();
    let c7 = owning(
        attached(nested(c6, inner, ScopeKind::Function), t, n, body),
        body,
        c5.symbols.next_id(),
    );
    lemma_same(c6, c7);
    if let Some(l) = list {
        lemma_with_parameters_from(c7, t, l, 0, body, class);
    }
}

// ---------------------------------------------------------------------------
// The whole source
// ---------------------------------------------------------------------------
proof fn lemma_walked(
    c: SemaView,
    t: SyntaxTree,
    n: usize,
    scope: ScopeId,
    class: Option<ClassId>,
)
    requires
        sound(c),
        t.has(n),
    ensures
        onward(c, walked(c, t, n, scope, class)),
    decreases t.nodes@.len() - n, 2nat, 0nat,
{
    let kind = t.at(n).kind;
    if kind == NodeKind::NamespaceDefinition {
        let names = segments(namespace_name(t, n));
        lemma_with_namespaces(c, scope, names, 0);
        let (c1, inner) = with_namespaces(c, scope, names, 0);
        lemma_same(c1, attached(c1, t, n, inner));
        lemma_walked_from(attached(c1, t, n, inner), t, n, 0, inner, class);
    } else if declares_class(kind) && declared_type_name(t, n).len() > 0 {
        lemma_with_class_at(c, t, n, scope, declared_type_name(t, n));
        let (c1, inner, id) = with_class_at(c, t, n, scope, declared_type_name(t, n));
        lemma_walked_from(c1, t, n, 0, inner, Some(id));
    } else if kind == NodeKind::EnumSpecifier || kind == NodeKind::UnrealReflectedEnumDeclaration {
        lemma_with_enum_at(c, t, n, scope);
        lemma_walked_from(with_enum_at(c, t, n, scope), t, n, 0, scope, class);
    } else if kind == NodeKind::TypeDefinition || kind == NodeKind::AliasDeclaration {
        lemma_with_typedef_at(c, t, n, scope);
    } else if kind == NodeKind::UsingDeclaration || kind == NodeKind::UsingDirective {
        lemma_same(c, with_using_at(c, t, n, scope));
    } else if kind == NodeKind::FunctionDefinition || kind == NodeKind::UnrealFunctionDefinition {
        lemma_walked_function(c, t, n, scope, class, true);
    } else if kind == NodeKind::Declaration || kind == NodeKind::FieldDeclaration {
        if declares_function(t, n) {
            lemma_walked_function(c, t, n, scope, class, false);
        } else {
            lemma_with_variable_at(c, t, n, scope, class, Storage::Local);
            lemma_walked_from(
                with_variable_at(c, t, n, scope, class, Storage::Local),
                t,
                n,
                0,
                scope,
                class,
            );
        }
    } else if kind == NodeKind::ParameterDeclaration {
        lemma_with_variable_at(c, t, n, scope, class, Storage::Parameter);
    } else if kind == NodeKind::CompoundStatement || loops(kind) {
        let inner = c.scopes.next_id();
        let c1 = attached(nested(c, scope, ScopeKind::Block), t, n, inner);
        lemma_same(c, c1);
        lemma_walked_from(c1, t, n, 0, inner, class);
    } else if kind == NodeKind::LambdaExpression {
        let inner = c.scopes.next_id();
        let c1 = attached(nested(c, scope, ScopeKind::Function), t, n, inner);
        lemma_same(c, c1);
        lemma_walked_from(c1, t, n, 0, inner, class);
    } else {
        lemma_walked_from(c, t, n, 0, scope, class);
    }
}

proof fn lemma_walked_from(
    c: SemaView,
    t: SyntaxTree,
    n: usize,
    k: int,
    scope: ScopeId,
    class: Option<ClassId>,
)
    requires
        sound(c),
        t.has(n),
        0 <= k <= t.kids(n).len(),
    ensures
        onward(c, walked_from(c, t, n, k, scope, class)),
    decreases t.nodes@.len() - n, 0nat, t.kids(n).len() - k,
{
    if k < t.kids(n).len() {
        let x = t.kids(n)[k];
        lemma_walked(c, t, x, scope, class);
        lemma_walked_from(walked(c, t, x, scope, class), t, n, k + 1, scope, class);
    }
}

proof fn lemma_walked_function(
    c: SemaView,
    t: SyntaxTree,
    n: usize,
    scope: ScopeId,
    class: Option<ClassId>,
    is_definition: bool,
)
    requires
        sound(c),
        t.has(n),
        t.at(n).kind != NodeKind::CompoundStatement,
    ensures
        onward(c, walked_function(c, t, n, scope, class, is_definition)),
    decreases t.nodes@.len() - n, 1nat, 0nat,
{
    match named_function(t, n) {
        None => {
            lemma_walked_from(c, t, n, 0, scope, class);
        },
        Some((d, name)) => {
            lemma_by_field(t, n, FieldName::Declarator);
            lemma_descendant(t, n, NodeKind::FunctionDeclarator);
            lemma_with_function_at(c, t, n, scope, class, is_definition, d, name);
            let (c1, body) = with_function_at(c, t, n, scope, class, is_definition, d, name);
            lemma_descendant(t, n, NodeKind::CompoundStatement);
            if let Some(b) = t.descendant(n, NodeKind::CompoundStatement) {
                lemma_walked(c1, t, b, body, class);
            }
        },
    }
}

proof fn lemma_empty_sound(
    source: Seq<char>,
    aliases: Seq<(Seq<char>, BuiltinType)>,
)
    ensures
        sound(empty_context(source, aliases)),
{
    reveal(sound);
    let c = empty_context(source, aliases);
    known_types_stay_in_order(c, TypeShape::Unknown);
    arena_knows_each_type_once(first_types(), TypeShape::Unknown);
}

proof fn lemma_helpers(c: SemaView)
    requires
        sound(c),
    ensures
        onward(c, with_helpers(c)),
        with_helpers(c).char_t matches Some(id) && known(with_helpers(c), id),
        with_helpers(c).char_ptr_t matches Some(id) && known(with_helpers(c), id),
{
    let s = TypeShape::Builtin(BuiltinType::Char);
    lemma_know(c, s);
    let c1 = knowing(c, s);
    let p = TypeShape::Pointer { pointee: c.types.id_of(s), cv: no_cv() };
    lemma_know(c1, p);
    lemma_same(knowing(c1, p), with_helpers(c));
}

/// In the context that is read from a source, every type is made of types that stand before it, so
/// that none is made of itself, and stands there once. Whatever types the symbols are declared with
/// or classes have as parents are among them. The types that every context starts with stand where
/// they stood.
pub proof fn built_types_are_known_and_in_order(
    t: SyntaxTree,
    root: usize,
    source: Seq<char>,
    aliases: Seq<(Seq<char>, BuiltinType)>,
)
    requires
        t.has(root),
    ensures
        well_typed(built(t, root, source, aliases)),
        texts_end(built(t, root, source, aliases)),
        references_end(built(t, root, source, aliases)),
        built(t, root, source, aliases).char_t matches Some(id) && known(
            built(t, root, source, aliases),
            id,
        ),
        built(t, root, source, aliases).char_ptr_t matches Some(id) && known(
            built(t, root, source, aliases),
            id,
        ),
{
    let start = empty_context(source, aliases);
    let c = attached(start, t, root, ScopeId(0));
    lemma_empty_sound(source, aliases);
    lemma_same(start, c);
    lemma_walked(c, t, root, ScopeId(0), None);
    lemma_helpers(walked(c, t, root, ScopeId(0), None));
    reveal(sound);
    ordered_types_end(built(t, root, source, aliases));
}

// ---------------------------------------------------------------------------
// How far types are followed
// ---------------------------------------------------------------------------
/// Names are bound to types below `top`.
spec fn bound_below(b: Seq<(Seq<char>, ArgShape)>, top: nat) -> bool {
    forall|i: int| 0 <= i < b.len() ==> arg_below((#[trigger] b[i]).1, top as int)
}

/// How far types below `limit` lead, with what names in them are bound to.
spec fn reach(limit: nat, b: Seq<(Seq<char>, ArgShape)>, top: nat) -> nat {
    limit + if b.len() == 0 {
        0nat
    } else {
        top
    }
}

/// Whether names are bound.
spec fn binds(b: Seq<(Seq<char>, ArgShape)>) -> nat {
    if b.len() == 0 {
        0
    } else {
        1
    }
}

proof fn lemma_binding_below(b: Seq<(Seq<char>, ArgShape)>, name: Seq<char>, upto: int, top: nat)
    requires
        bound_below(b, top),
    ensures
        binding(b, name, upto) matches Some(a) ==> b.len() > 0 && arg_below(a, top as int),
    decreases upto,
{
    if 0 < upto <= b.len() {
        lemma_binding_below(b, name, upto - 1, top);
    }
}

proof fn lemma_far_enough(
    m: Instances,
    id: TypeId,
    b: Seq<(Seq<char>, ArgShape)>,
    nesting: nat,
    d: nat,
    e: nat,
    top: nat,
)
    requires
        sound(m.c),
        bound_known(m.c, b),
        bound_below(b, top),
        reach((id.0 + 1) as nat, b, top) <= d,
        reach((id.0 + 1) as nat, b, top) <= e,
    ensures
        instance(m, id, b, nesting, d) == instance(m, id, b, nesting, e),
    decreases binds(b), id.0, 1nat, 0nat,
{
    let d1 = (d - 1) as nat;
    let e1 = (e - 1) as nat;
    if known(m.c, id) {
        assert(made_of_earlier(m.c.types.kinds[id.0 as int], id.0 as int)) by {
            reveal(sound);
        }
        match m.c.types.kinds[id.0 as int] {
            TypeShape::Dependent(name) => {
                lemma_binding_below(b, name, b.len() as int, top);
                lemma_binding(m.c, b, name, b.len() as int);
                if let Some(ArgShape::Type(t)) = bound_to(b, name) {
                    lemma_far_enough(m, t, Seq::empty(), nesting, d1, e1, 0);
                }
            },
            TypeShape::Pointer { pointee, .. } => {
                lemma_far_enough(m, pointee, b, nesting, d1, e1, top);
            },
            TypeShape::Reference { referent, .. } => {
                lemma_far_enough(m, referent, b, nesting, d1, e1, top);
            },
            TypeShape::Array { elem, .. } => {
                lemma_far_enough(m, elem, b, nesting, d1, e1, top);
            },
            TypeShape::Function { return_t, params, .. } => {
                lemma_far_enough(m, return_t, b, nesting, d1, e1, top);
                lemma_instance(m, return_t, b, nesting, d1);
                let m1 = instance(m, return_t, b, nesting, d1).0;
                lemma_bound_stay_known(m.c, m1.c, b);
                lemma_list_far_enough(m1, params, 0, b, nesting, d1, e1, top, id.0 as nat);
            },
            TypeShape::Template { args, .. } => {
                lemma_args_far_enough(m, args, 0, b, nesting, d1, e1, top, id.0 as nat);
            },
            _ => {},
        }
    }
}

proof fn lemma_list_far_enough(
    m: Instances,
    ids: Seq<TypeId>,
    k: int,
    b: Seq<(Seq<char>, ArgShape)>,
    nesting: nat,
    d: nat,
    e: nat,
    top: nat,
    limit: nat,
)
    requires
        sound(m.c),
        bound_known(m.c, b),
        bound_below(b, top),
        0 <= k <= ids.len(),
        forall|i: int| 0 <= i < ids.len() ==> (#[trigger] ids[i]).0 < limit,
        reach(limit, b, top) <= d,
        reach(limit, b, top) <= e,
    ensures
        instance_list(m, ids, k, b, nesting, d) == instance_list(m, ids, k, b, nesting, e),
    decreases binds(b), limit, 0nat, ids.len() - k,
{
    if k < ids.len() {
        lemma_far_enough(m, ids[k], b, nesting, d, e, top);
        lemma_instance(m, ids[k], b, nesting, d);
        let m1 = instance(m, ids[k], b, nesting, d).0;
        lemma_bound_stay_known(m.c, m1.c, b);
        lemma_list_far_enough(m1, ids, k + 1, b, nesting, d, e, top, limit);
    }
}

proof fn lemma_args_far_enough(
    m: Instances,
    args: Seq<ArgShape>,
    k: int,
    b: Seq<(Seq<char>, ArgShape)>,
    nesting: nat,
    d: nat,
    e: nat,
    top: nat,
    limit: nat,
)
    requires
        sound(m.c),
        bound_known(m.c, b),
        bound_below(b, top),
        0 <= k <= args.len(),
        forall|i: int| 0 <= i < args.len() ==> arg_below(#[trigger] args[i], limit as int),
        reach(limit, b, top) <= d,
        reach(limit, b, top) <= e,
    ensures
        instance_args(m, args, k, b, nesting, d) == instance_args(m, args, k, b, nesting, e),
    decreases binds(b), limit, 0nat, args.len() - k,
{
    if k < args.len() {
        assert(arg_below(args[k], limit as int));
        match args[k] {
            ArgShape::Type(t) => {
                lemma_far_enough(m, t, b, nesting, d, e, top);
                lemma_instance(m, t, b, nesting, d);
                let m1 = instance(m, t, b, nesting, d).0;
                lemma_bound_stay_known(m.c, m1.c, b);
                lemma_args_far_enough(m1, args, k + 1, b, nesting, d, e, top, limit);
            },
            ArgShape::Value(v) => {
                lemma_args_far_enough(m, args, k + 1, b, nesting, d, e, top, limit);
            },
        }
    }
}

/// Bound names are replaced in a type down to its last part: following types further than they are
/// followed changes nothing.
pub proof fn types_are_followed_to_their_end(
    m: Instances,
    id: TypeId,
    b: Seq<(Seq<char>, ArgShape)>,
    nesting: nat,
    depth: nat,
)
    requires
        well_typed(m.c),
        bound_known(m.c, b),
        depth >= depth_of(m.c),
    ensures
        instance(m, id, b, nesting, depth) == instance(m, id, b, nesting, depth_of(m.c)),
{
    reveal(sound);
    if known(m.c, id) {
        lemma_far_enough(m, id, b, nesting, depth, depth_of(m.c), m.c.types.kinds.len());
    }
}

} // verus!
