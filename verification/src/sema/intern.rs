//! The types that the declarations of a source write, made known where they are not.
use vstd::prelude::*;

use super::builtin::{builtin_named, builtin_type_by_name};
use super::lookup::{look_children, named_below};
use super::members::{
    bound, bound_to, find_binding, pair_bindings, paired, Bindings,
};
use super::names::{
    clean, clean_type_string, lemma_args_len, lemma_clean_len, looks_like_type_arg, none_longer,
    path_segments, segments, split_template_args, template_args, type_like,
};
use super::resolve::{first_declared_type, typedef_among};
use super::scope::ScopeId;
use super::symbol::{ClassId, SymbolId, SymbolKind, SymbolShape};
use super::syntax::{
    lemma_next_declarator, next_declarator, next_declarator_node, FieldName, NodeKind, SyntaxTree,
};
use super::types::{
    arg_shapes, copy_args, no_cv, ArgShape, CvQual, RefKind, TemplateArg,
    TypeId, TypeKind, TypeShape,
};
use super::{param_shapes, SemaContext, SemaView};
use crate::text;

verus! {

broadcast use vstd::std_specs::hash::group_hash_axioms;

/// The context in which a type is known.
pub open spec fn knowing(c: SemaView, s: TypeShape) -> SemaView {
    SemaView { types: c.types.with(s), ..c }
}

pub fn know(ctx: &mut SemaContext, kind: TypeKind) -> (id: TypeId)
    ensures
        final(ctx)@ == knowing(old(ctx)@, kind@),
        id == old(ctx)@.types.id_of(kind@),
{
    ctx.types.intern(kind)
}

/// The typedef of this name in the innermost scope from `cur` outwards that has one.
pub open spec fn typedef_outwards(c: SemaView, cur: Option<ScopeId>, name: Seq<char>, steps: nat) -> Option<
    TypeId,
>
    decreases steps,
{
    if steps == 0 {
        None
    } else {
        match cur {
            None => None,
            Some(id) => match c.scopes.scope(id) {
                None => None,
                Some(s) => match typedef_among(c, s.named(name), 0) {
                    Some(r) => r,
                    None => typedef_outwards(c, s.parent, name, (steps - 1) as nat),
                },
            },
        }
    }
}

/// The type of this name in the innermost scope from `cur` outwards that declares one.
pub open spec fn type_outwards(c: SemaView, cur: Option<ScopeId>, name: Seq<char>, steps: nat) -> Option<
    TypeId,
>
    decreases steps,
{
    if steps == 0 {
        None
    } else {
        match cur {
            None => None,
            Some(id) => match c.scopes.scope(id) {
                None => None,
                Some(s) => match first_declared_type(c, s.named(name), 0) {
                    Some(t) => Some(t),
                    None => type_outwards(c, s.parent, name, (steps - 1) as nat),
                },
            },
        }
    }
}

/// The type that the segments stand for from a scope on.
pub open spec fn type_below(c: SemaView, scope: ScopeId, segs: Seq<Seq<char>>) -> Option<TypeId> {
    first_declared_type(c, named_below(c, c.scopes.named(scope, segs[0]), segs, 1), 0)
}

pub open spec fn qualified_outwards(c: SemaView, cur: Option<ScopeId>, segs: Seq<Seq<char>>, steps: nat) -> Option<
    TypeId,
>
    decreases steps,
{
    if steps == 0 {
        None
    } else {
        match cur {
            None => None,
            Some(id) => match type_below(c, id, segs) {
                Some(t) => Some(t),
                None => qualified_outwards(c, c.scopes.parent(id), segs, (steps - 1) as nat),
            },
        }
    }
}

pub open spec fn qualified_type_from(c: SemaView, scope: ScopeId, s: Seq<char>) -> Option<TypeId> {
    let segs = segments(s);
    if segs.len() == 0 {
        None
    } else {
        match qualified_outwards(c, Some(scope), segs, c.scopes.scopes.len() + 1) {
            Some(t) => Some(t),
            None => type_below(c, c.scopes.global, segs),
        }
    }
}

/// The type that a name stands for in a scope, if one is known.
pub open spec fn known_type(c: SemaView, scope: ScopeId, s: Seq<char>) -> (SemaView, Option<TypeId>) {
    let (types, builtin) = builtin_named(c.types, c.aliases, s);
    let c1 = SemaView { types, ..c };
    match builtin {
        Some(t) => (c1, Some(t)),
        None => match typedef_outwards(c1, Some(scope), s, c1.scopes.scopes.len()) {
            Some(t) => (c1, Some(t)),
            None => if text::has(s, "::"@) {
                (c1, qualified_type_from(c1, scope, s))
            } else {
                (c1, type_outwards(c1, Some(scope), s, c1.scopes.scopes.len()))
            },
        },
    }
}

/// The type that a name stands for in a scope; a class of that name where none is known.
pub open spec fn named_or_class(c: SemaView, scope: ScopeId, s: Seq<char>) -> (SemaView, TypeId) {
    let (c1, found) = known_type(c, scope, s);
    match found {
        Some(t) => (c1, t),
        None => {
            let class = TypeShape::Class(c1.symbols.class_id(s));
            (
                knowing(SemaView { symbols: c1.symbols.with_class(s), ..c1 }, class),
                c1.types.id_of(class),
            )
        },
    }
}

/// The base and the arguments of a template as written.
pub open spec fn written_template(s: Seq<char>) -> Option<(Seq<char>, Seq<char>)> {
    let end = text::char_from(s, '<', 0);
    if end >= s.len() {
        None
    } else {
        match text::stripped_end(s.subrange(end + 1, s.len() as int), ">"@) {
            None => None,
            Some(inner) => if text::trimmed(s.subrange(0, end)).len() == 0 {
                None
            } else {
                Some((text::trimmed(s.subrange(0, end)), inner))
            },
        }
    }
}

pub proof fn lemma_written_template(s: Seq<char>)
    ensures
        written_template(s) matches Some(p) ==> p.1.len() < s.len(),
{
    text::lemma_char_from(s, '<', 0);
}

/// The type that a text writes in a scope.
pub open spec fn written_type(c: SemaView, scope: ScopeId, raw: Seq<char>) -> (SemaView, TypeId)
    decreases raw.len(), 2nat, 0nat,
{
    let s = clean(raw);
    if s.len() == 0 {
        (c, c.types.unknown_t)
    } else if text::ends(s, "[]"@) && 0 < "[]"@.len() {
        proof {
            lemma_clean_len(raw);
            text::lemma_trimmed_end_len(s.subrange(0, s.len() - "[]"@.len()));
        }
        let (c1, elem) = written_type(
            c,
            scope,
            text::trimmed_end(s.subrange(0, s.len() - "[]"@.len())),
        );
        let shape = TypeShape::Array { elem, size: None };
        (knowing(c1, shape), c1.types.id_of(shape))
    } else if text::ends(s, "&"@) && 0 < "&"@.len() {
        proof {
            lemma_clean_len(raw);
            text::lemma_trimmed_end_len(s.subrange(0, s.len() - "&"@.len()));
        }
        let (c1, referent) = written_type(
            c,
            scope,
            text::trimmed_end(s.subrange(0, s.len() - "&"@.len())),
        );
        let shape = TypeShape::Reference { referent, kind: RefKind::LValue };
        (knowing(c1, shape), c1.types.id_of(shape))
    } else if text::ends(s, "*"@) && 0 < "*"@.len() {
        proof {
            lemma_clean_len(raw);
            text::lemma_trimmed_end_len(s.subrange(0, s.len() - "*"@.len()));
        }
        let (c1, pointee) = written_type(
            c,
            scope,
            text::trimmed_end(s.subrange(0, s.len() - "*"@.len())),
        );
        let shape = TypeShape::Pointer { pointee, cv: no_cv() };
        (knowing(c1, shape), c1.types.id_of(shape))
    } else if text::has_char(s, '<') && text::ends(s, ">"@) {
        match written_template(s) {
            None => named_or_class(c, scope, s),
            Some((base, inner)) => {
                proof {
                    lemma_clean_len(raw);
                    lemma_written_template(s);
                    lemma_args_len(inner, 0, 0, 0);
                }
                let (c1, args) = written_args(c, scope, template_args(inner), 0, inner.len());
                let shape = TypeShape::Template { base, args };
                (knowing(c1, shape), c1.types.id_of(shape))
            },
        }
    } else {
        named_or_class(c, scope, s)
    }
}

/// The template arguments that the texts from position `k` on write.
pub open spec fn written_args(c: SemaView, scope: ScopeId, list: Seq<Seq<char>>, k: int, longest: nat) -> (
    SemaView,
    Seq<ArgShape>,
)
    decreases longest, 3nat, list.len() - k,
    when 0 <= k <= list.len() && none_longer(list, longest)
{
    if k >= list.len() {
        (c, Seq::empty())
    } else {
        let s = text::trimmed(list[k]);
        proof {
            text::lemma_trimmed_len(list[k]);
        }
        if s.len() == 0 {
            written_args(c, scope, list, k + 1, longest)
        } else if type_like(s) {
            let (c1, t) = written_type(c, scope, s);
            let (c2, rest) = written_args(c1, scope, list, k + 1, longest);
            (c2, seq![ArgShape::Type(t)] + rest)
        } else {
            let (c1, found) = known_type(c, scope, s);
            let (c2, rest) = written_args(c1, scope, list, k + 1, longest);
            (
                c2,
                seq![
                    match found {
                        Some(t) => ArgShape::Type(t),
                        None => ArgShape::Value(s),
                    },
                ] + rest,
            )
        }
    }
}

/// The type that a node writes in a scope.
pub open spec fn node_type(c: SemaView, t: SyntaxTree, n: usize, scope: ScopeId) -> (SemaView, TypeId) {
    if t.at(n).kind == NodeKind::PrimitiveType {
        let (types, builtin) = builtin_named(c.types, c.aliases, t.text(n));
        (
            SemaView { types, ..c },
            match builtin {
                Some(id) => id,
                None => types.unknown_t,
            },
        )
    } else {
        written_type(c, scope, clean(t.text(n)))
    }
}

/// The type with the pointers, references and arrays that a declarator puts around it.
pub open spec fn around(c: SemaView, id: TypeId, t: SyntaxTree, cur: Option<usize>) -> (SemaView, TypeId)
    decreases super::pattern::place(t, cur),
    when cur matches Some(n) ==> t.has(n)
{
    match cur {
        None => (c, id),
        Some(n) => {
            proof {
                lemma_next_declarator(t, n);
            }
            let kind = t.at(n).kind;
            let shape = if kind == NodeKind::PointerDeclarator {
                Some(TypeShape::Pointer { pointee: id, cv: no_cv() })
            } else if kind == NodeKind::ReferenceDeclarator {
                Some(TypeShape::Reference { referent: id, kind: RefKind::LValue })
            } else if kind == NodeKind::ArrayDeclarator {
                Some(TypeShape::Array { elem: id, size: None })
            } else {
                None
            };
            match shape {
                Some(s) => around(knowing(c, s), c.types.id_of(s), t, next_declarator(t, n)),
                None => around(c, id, t, next_declarator(t, n)),
            }
        },
    }
}

/// The type that a declaration gives: the one that it writes, as its declarator wraps it.
pub open spec fn declared_type_at(
    c: SemaView,
    t: SyntaxTree,
    n: usize,
    scope: ScopeId,
    declarator: Option<usize>,
) -> (SemaView, TypeId) {
    match t.by_field(n, FieldName::Type) {
        Some(m) => {
            let (c1, base) = node_type(c, t, m, scope);
            around(c1, base, t, declarator)
        },
        None => (c, c.types.unknown_t),
    }
}

fn lookup_typedef_type(ctx: &SemaContext, scope_id: ScopeId, name: &str) -> (r: Option<TypeId>)
    ensures
        r == typedef_outwards(ctx@, Some(scope_id), name@, ctx@.scopes.scopes.len()),
{
    let ghost whole = typedef_outwards(ctx@, Some(scope_id), name@, ctx@.scopes.scopes.len());
    let mut current: Option<ScopeId> = Some(scope_id);
    let mut steps: usize = ctx.scopes.len();
    while steps > 0
        invariant
            whole == typedef_outwards(ctx@, Some(scope_id), name@, ctx@.scopes.scopes.len()),
            whole == typedef_outwards(ctx@, current, name@, steps as nat),
        ensures
            whole is None,
        decreases steps,
    {
        match current {
            None => {
                break ;
            },
            Some(id) => {
                match ctx.scopes.get(id) {
                    None => {
                        break ;
                    },
                    Some(s) => {
                        let ids = s.ids_named(name);
                        match ctx.typedef_in(&ids) {
                            Some(r) => {
                                return r;
                            },
                            None => {},
                        }
                        current = s.parent;
                    },
                }
            },
        }
        steps = steps - 1;
    }
    None
}

fn lookup_declared_type(ctx: &SemaContext, scope_id: ScopeId, name: &str) -> (r: Option<TypeId>)
    ensures
        r == type_outwards(ctx@, Some(scope_id), name@, ctx@.scopes.scopes.len()),
{
    let ghost whole = type_outwards(ctx@, Some(scope_id), name@, ctx@.scopes.scopes.len());
    let mut current: Option<ScopeId> = Some(scope_id);
    let mut steps: usize = ctx.scopes.len();
    while steps > 0
        invariant
            whole == type_outwards(ctx@, Some(scope_id), name@, ctx@.scopes.scopes.len()),
            whole == type_outwards(ctx@, current, name@, steps as nat),
        ensures
            whole is None,
        decreases steps,
    {
        match current {
            None => {
                break ;
            },
            Some(id) => {
                match ctx.scopes.get(id) {
                    None => {
                        break ;
                    },
                    Some(s) => {
                        let ids = s.ids_named(name);
                        match ctx.first_type_among(&ids) {
                            Some(t) => {
                                return Some(t);
                            },
                            None => {},
                        }
                        current = s.parent;
                    },
                }
            },
        }
        steps = steps - 1;
    }
    None
}

fn resolve_qualified_symbol_chain(ctx: &SemaContext, scope: ScopeId, segs: &Vec<String>) -> (r: Option<
    TypeId,
>)
    requires
        segs@.len() > 0,
    ensures
        r == type_below(ctx@, scope, text::texts(segs@)),
{
    let ghost t = text::texts(segs@);
    assert(t[0] == segs@[0]@);
    let n: usize = segs.len();
    let mut ids = ctx.scopes.ids_named(scope, &segs[0]);
    let ghost whole = named_below(ctx@, ids@, t, 1);
    let mut k: usize = 1;
    while k < n
        invariant
            t == text::texts(segs@),
            n == segs@.len(),
            1 <= k <= n,
            type_below(ctx@, scope, t) == first_declared_type(ctx@, whole, 0),
            whole == named_below(ctx@, ids@, t, k as int),
        decreases n - k,
    {
        assert(t[k as int] == segs@[k as int]@);
        let next = look_children(ctx, &ids, &segs[k]);
        if next.len() == 0 {
            return None;
        }
        ids = next;
        k = k + 1;
    }
    ctx.first_type_among(&ids)
}

fn lookup_qualified_named_type(ctx: &SemaContext, scope_id: ScopeId, s: &str) -> (r: Option<TypeId>)
    ensures
        r == qualified_type_from(ctx@, scope_id, s@),
{
    let segs = path_segments(s);
    let ghost t = text::texts(segs@);
    assert(t.len() == segs@.len());
    if segs.len() == 0 {
        return None;
    }
    let ghost whole = qualified_outwards(ctx@, Some(scope_id), t, ctx@.scopes.scopes.len() + 1);
    let mut current: Option<ScopeId> = Some(scope_id);
    let mut steps: u128 = ctx.scopes.len() as u128 + 1;
    while steps > 0
        invariant
            t == text::texts(segs@),
            t == segments(s@),
            segs@.len() > 0,
            t.len() > 0,
            whole == qualified_outwards(
                ctx@,
                Some(scope_id),
                t,
                ctx@.scopes.scopes.len() + 1,
            ),
            whole == qualified_outwards(ctx@, current, t, steps as nat),
        ensures
            whole is None,
        decreases steps,
    {
        match current {
            None => {
                break ;
            },
            Some(id) => {
                match resolve_qualified_symbol_chain(ctx, id, &segs) {
                    Some(found) => {
                        return Some(found);
                    },
                    None => {},
                }
                current = ctx.scopes.parent_of(id);
            },
        }
        steps = steps - 1;
    }
    resolve_qualified_symbol_chain(ctx, ctx.scopes.global, &segs)
}

pub fn resolve_existing_named_type(ctx: &mut SemaContext, scope_id: ScopeId, s: &str) -> (r: Option<TypeId>)
    ensures
        (final(ctx)@, r) == known_type(old(ctx)@, scope_id, s@),
{
    match builtin_type_by_name(&mut ctx.types, &ctx.aliases, s) {
        Some(t) => {
            return Some(t);
        },
        None => {},
    }
    match lookup_typedef_type(ctx, scope_id, s) {
        Some(t) => {
            return Some(t);
        },
        None => {},
    }
    if text::contains_text(s, "::") {
        lookup_qualified_named_type(ctx, scope_id, s)
    } else {
        lookup_declared_type(ctx, scope_id, s)
    }
}

fn resolve_named_type(ctx: &mut SemaContext, scope_id: ScopeId, s: &str) -> (r: TypeId)
    ensures
        (final(ctx)@, r) == named_or_class(old(ctx)@, scope_id, s@),
{
    match resolve_existing_named_type(ctx, scope_id, s) {
        Some(t) => t,
        None => {
            let class_id = ctx.symbols.new_class_id(s);
            know(ctx, TypeKind::Class(class_id))
        },
    }
}

fn split_written_template(s: &str) -> (r: Option<(String, String)>)
    ensures
        match r {
            Some(p) => written_template(s@) == Some((p.0@, p.1@)),
            None => written_template(s@) is None,
        },
{
    let v = text::chars_of(s);
    let n: usize = v.len();
    let end: usize = text::char_pos(v.as_slice(), '<', 0);
    if end >= n {
        return None;
    }
    match text::strip_suffix(s.substring_char(end + 1, n), ">") {
        None => None,
        Some(inner) => {
            let base = text::trim(s.substring_char(0, end));
            if base.is_empty() {
                None
            } else {
                Some((text::copy_of(base), text::copy_of(inner)))
            }
        },
    }
}

pub fn resolve_type_text(ctx: &mut SemaContext, scope_id: ScopeId, raw: &str) -> (r: TypeId)
    ensures
        (final(ctx)@, r) == written_type(old(ctx)@, scope_id, raw@),
    decreases raw@.len(), 2nat,
{
    let s = clean_type_string(raw);
    proof {
        reveal_strlit("[]");
        reveal_strlit("&");
        reveal_strlit("*");
        lemma_clean_len(raw@);
    }
    if s.as_str().is_empty() {
        return ctx.types.unknown_t;
    }
    match text::strip_suffix(&s, "[]") {
        Some(inner) => {
            proof {
                text::lemma_trimmed_end_len(inner@);
            }
            let elem = resolve_type_text(ctx, scope_id, text::trim_end(inner));
            return know(ctx, TypeKind::Array { elem, size: None });
        },
        None => {},
    }
    match text::strip_suffix(&s, "&") {
        Some(inner) => {
            proof {
                text::lemma_trimmed_end_len(inner@);
            }
            let referent = resolve_type_text(ctx, scope_id, text::trim_end(inner));
            return know(ctx, TypeKind::Reference { referent, kind: RefKind::LValue });
        },
        None => {},
    }
    match text::strip_suffix(&s, "*") {
        Some(inner) => {
            proof {
                text::lemma_trimmed_end_len(inner@);
            }
            let pointee = resolve_type_text(ctx, scope_id, text::trim_end(inner));
            return know(ctx, TypeKind::Pointer { pointee, cv: CvQual::default() });
        },
        None => {},
    }
    if text::contains_char(&s, '<') && text::ends_with(&s, ">") {
        match split_written_template(&s) {
            None => {},
            Some((base, inner)) => {
                proof {
                    lemma_written_template(s@);
                    lemma_args_len(inner@, 0, 0, 0);
                }
                let list = split_template_args(&inner);
                let args = resolve_template_args(ctx, scope_id, &list, inner.as_str());
                return know(ctx, TypeKind::Template { base, args });
            },
        }
    }
    resolve_named_type(ctx, scope_id, &s)
}

fn resolve_template_args(ctx: &mut SemaContext, scope_id: ScopeId, list: &Vec<String>, whole: &str) -> (r:
    Vec<TemplateArg>)
    requires
        none_longer(text::texts(list@), whole@.len()),
    ensures
        (final(ctx)@, arg_shapes(r@)) == written_args(
            old(ctx)@,
            scope_id,
            text::texts(list@),
            0,
            whole@.len(),
        ),
    decreases whole@.len(), 3nat,
{
    let ghost t = text::texts(list@);
    let ghost all = written_args(ctx@, scope_id, t, 0, whole@.len());
    let mut args: Vec<TemplateArg> = Vec::new();
    let n: usize = list.len();
    let mut i: usize = 0;
    assert(arg_shapes(args@) =~= Seq::<ArgShape>::empty());
    assert(all.1 =~= arg_shapes(args@) + all.1);
    while i < n
        invariant
            t == text::texts(list@),
            none_longer(t, whole@.len()),
            n == list@.len(),
            i <= n,
            all.0 == written_args(ctx@, scope_id, t, i as int, whole@.len()).0,
            all.1 == arg_shapes(args@) + written_args(
                ctx@,
                scope_id,
                t,
                i as int,
                whole@.len(),
            ).1,
        decreases n - i,
    {
        assert(t[i as int] == list@[i as int]@);
        proof {
            text::lemma_trimmed_len(list@[i as int]@);
        }
        let ghost c0 = ctx@;
        let ghost before = arg_shapes(args@);
        let s = text::trim(&list[i]);
        if !s.is_empty() {
            let arg = if looks_like_type_arg(s) {
                TemplateArg::Type(resolve_type_text(ctx, scope_id, s))
            } else {
                match resolve_existing_named_type(ctx, scope_id, s) {
                    Some(found) => TemplateArg::Type(found),
                    None => TemplateArg::Value(text::copy_of(s)),
                }
            };
            args.push(arg);
            assert(arg_shapes(args@) =~= before.push(arg@));
            let ghost rest = written_args(ctx@, scope_id, t, i + 1, whole@.len());
            assert(written_args(c0, scope_id, t, i as int, whole@.len()).1 == seq![arg@] + rest.1);
            assert(before + (seq![arg@] + rest.1) =~= arg_shapes(args@) + rest.1);
        }
        i = i + 1;
    }
    assert(arg_shapes(args@) =~= all.1);
    args
}

pub fn resolve_type_node(ctx: &mut SemaContext, t: &SyntaxTree, n: usize, scope_id: ScopeId) -> (r: TypeId)
    requires
        t.has(n),
    ensures
        (final(ctx)@, r) == node_type(old(ctx)@, *t, n, scope_id),
{
    if t.nodes[n].kind == NodeKind::PrimitiveType {
        match builtin_type_by_name(&mut ctx.types, &ctx.aliases, t.text_of(n)) {
            Some(id) => id,
            None => ctx.types.unknown_t,
        }
    } else {
        let s = clean_type_string(t.text_of(n));
        resolve_type_text(ctx, scope_id, &s)
    }
}

fn apply_declarator_wrappers(ctx: &mut SemaContext, start: TypeId, t: &SyntaxTree, declarator: Option<usize>) -> (r:
    TypeId)
    requires
        declarator matches Some(n) ==> t.has(n),
    ensures
        (final(ctx)@, r) == around(old(ctx)@, start, *t, declarator),
{
    let ghost whole = around(ctx@, start, *t, declarator);
    let mut id = start;
    let mut cursor: Option<usize> = declarator;
    loop
        invariant
            cursor matches Some(n) ==> t.has(n),
            whole == around(old(ctx)@, start, *t, declarator),
            whole == around(ctx@, id, *t, cursor),
        decreases super::pattern::place(*t, cursor),
    {
        match cursor {
            None => {
                return id;
            },
            Some(n) => {
                let kind = t.nodes[n].kind;
                if kind == NodeKind::PointerDeclarator {
                    id = know(ctx, TypeKind::Pointer { pointee: id, cv: CvQual::default() });
                } else if kind == NodeKind::ReferenceDeclarator {
                    id = know(ctx, TypeKind::Reference { referent: id, kind: RefKind::LValue });
                } else if kind == NodeKind::ArrayDeclarator {
                    id = know(ctx, TypeKind::Array { elem: id, size: None });
                }
                cursor = next_declarator_node(t, n);
            },
        }
    }
}

pub fn type_of_declaration(
    ctx: &mut SemaContext,
    t: &SyntaxTree,
    n: usize,
    scope_id: ScopeId,
    declarator: Option<usize>,
) -> (r: TypeId)
    requires
        t.has(n),
        declarator matches Some(d) ==> t.has(d),
    ensures
        (final(ctx)@, r) == declared_type_at(old(ctx)@, *t, n, scope_id, declarator),
{
    match t.child_by_field(n, FieldName::Type) {
        Some(m) => {
            let base = resolve_type_node(ctx, t, m, scope_id);
            apply_declarator_wrappers(ctx, base, t, declarator)
        },
        None => ctx.types.unknown_t,
    }
}

/// The context and the instances whose members are known in it.
#[verifier::ext_equal]
pub struct Instances {
    pub c: SemaView,
    pub seen: Seq<(ClassId, Seq<ArgShape>)>,
}

pub open spec fn knowing_in(m: Instances, s: TypeShape) -> Instances {
    Instances { c: knowing(m.c, s), ..m }
}

/// The symbols declared in a scope.
pub open spec fn declared_in(c: SemaView, scope: ScopeId) -> Seq<SymbolId> {
    match c.scopes.scope(scope) {
        Some(s) => s.symbols.map_values(|e: (Seq<char>, SymbolId)| e.1),
        None => Seq::empty(),
    }
}

/// The members of the instance of a template that are still to be made known, with what its
/// parameters stand for.
pub open spec fn entered(m: Instances, base: Seq<char>, args: Seq<ArgShape>) -> (
    Instances,
    Option<(Seq<SymbolId>, Seq<(Seq<char>, ArgShape)>)>,
) {
    let (c1, found) = known_type(m.c, m.c.scopes.global, base);
    let m1 = Instances { c: c1, ..m };
    let class = match found {
        Some(t) => match c1.kind(t) {
            Some(TypeShape::Class(id)) => Some(id),
            _ => None,
        },
        None => None,
    };
    match class {
        None => (m1, None),
        Some(id) => if !c1.template_params.contains_key(id.0) || c1.template_params[id.0].len() == 0
            || args.len() == 0 || m.seen.contains((id, args)) {
            (m1, None)
        } else {
            match c1.symbols.class_scope(id) {
                None => (m1, None),
                Some(scope) => (
                    Instances { seen: m.seen.push((id, args)), ..m1 },
                    Some((declared_in(c1, scope), paired(c1.template_params[id.0], args))),
                ),
            }
        },
    }
}

pub open spec fn depth_of(c: SemaView) -> nat {
    2 * c.types.kinds.len() + 4
}

/// The type in which bound names are replaced by what they stand for, made known with the members
/// of the instances in it.
pub open spec fn instance(
    m: Instances,
    id: TypeId,
    b: Seq<(Seq<char>, ArgShape)>,
    nesting: nat,
    depth: nat,
) -> (Instances, TypeId)
    decreases nesting, 0nat, depth, 0nat,
{
    if depth == 0 {
        (m, id)
    } else {
        match m.c.kind(id) {
            Some(TypeShape::Dependent(name)) => match bound_to(b, name) {
                Some(ArgShape::Type(t)) => (
                    instance(m, t, Seq::empty(), nesting, (depth - 1) as nat).0,
                    t,
                ),
                _ => (m, id),
            },
            Some(TypeShape::Pointer { pointee, cv }) => {
                let (m1, p) = instance(m, pointee, b, nesting, (depth - 1) as nat);
                let s = TypeShape::Pointer { pointee: p, cv };
                (knowing_in(m1, s), m1.c.types.id_of(s))
            },
            Some(TypeShape::Reference { referent, kind }) => {
                let (m1, p) = instance(m, referent, b, nesting, (depth - 1) as nat);
                let s = TypeShape::Reference { referent: p, kind };
                (knowing_in(m1, s), m1.c.types.id_of(s))
            },
            Some(TypeShape::Array { elem, size }) => {
                let (m1, p) = instance(m, elem, b, nesting, (depth - 1) as nat);
                let s = TypeShape::Array { elem: p, size };
                (knowing_in(m1, s), m1.c.types.id_of(s))
            },
            Some(
                TypeShape::Function { return_t, params, min_arity, is_variadic, is_const_member },
            ) => {
                let (m1, r) = instance(m, return_t, b, nesting, (depth - 1) as nat);
                let (m2, list) = instance_list(m1, params, 0, b, nesting, (depth - 1) as nat);
                let s = TypeShape::Function {
                    return_t: r,
                    params: list,
                    min_arity,
                    is_variadic,
                    is_const_member,
                };
                (knowing_in(m2, s), m2.c.types.id_of(s))
            },
            Some(TypeShape::Template { base, args }) => {
                let (m1, list) = instance_args(m, args, 0, b, nesting, (depth - 1) as nat);
                let s = TypeShape::Template { base, args: list };
                let (m2, inside) = entered(knowing_in(m1, s), base, list);
                (
                    match inside {
                        Some((ids, inner)) => if nesting == 0 {
                            m2
                        } else {
                            instance_members(m2, ids, 0, inner, (nesting - 1) as nat)
                        },
                        None => m2,
                    },
                    m1.c.types.id_of(s),
                )
            },
            _ => (m, id),
        }
    }
}

pub open spec fn instance_list(
    m: Instances,
    ids: Seq<TypeId>,
    k: int,
    b: Seq<(Seq<char>, ArgShape)>,
    nesting: nat,
    depth: nat,
) -> (Instances, Seq<TypeId>)
    decreases nesting, 0nat, depth, ids.len() - k + 1,
{
    if k < 0 || k >= ids.len() {
        (m, Seq::empty())
    } else {
        let (m1, first) = instance(m, ids[k], b, nesting, depth);
        let (m2, rest) = instance_list(m1, ids, k + 1, b, nesting, depth);
        (m2, seq![first] + rest)
    }
}

pub open spec fn instance_args(
    m: Instances,
    args: Seq<ArgShape>,
    k: int,
    b: Seq<(Seq<char>, ArgShape)>,
    nesting: nat,
    depth: nat,
) -> (Instances, Seq<ArgShape>)
    decreases nesting, 0nat, depth, args.len() - k + 1,
{
    if k < 0 || k >= args.len() {
        (m, Seq::empty())
    } else {
        match args[k] {
            ArgShape::Type(t) => {
                let (m1, first) = instance(m, t, b, nesting, depth);
                let (m2, rest) = instance_args(m1, args, k + 1, b, nesting, depth);
                (m2, seq![ArgShape::Type(first)] + rest)
            },
            ArgShape::Value(v) => {
                let (m2, rest) = instance_args(m, args, k + 1, b, nesting, depth);
                (
                    m2,
                    seq![
                        match bound_to(b, v) {
                            Some(a) => a,
                            None => ArgShape::Value(v),
                        },
                    ] + rest,
                )
            },
        }
    }
}

/// The type of a member that depends on the parameters of its class.
pub open spec fn member_type_of(c: SemaView, id: SymbolId) -> Option<TypeId> {
    match c.symbols.kind(id) {
        Some(SymbolShape::Field { type_id, .. }) => Some(type_id),
        Some(SymbolShape::Typedef { type_id }) => Some(type_id),
        Some(SymbolShape::Method { type_id, .. }) => Some(type_id),
        _ => None,
    }
}

pub open spec fn instance_members(
    m: Instances,
    ids: Seq<SymbolId>,
    k: int,
    b: Seq<(Seq<char>, ArgShape)>,
    nesting: nat,
) -> Instances
    decreases nesting, 1nat, ids.len() - k, 0nat,
{
    if k < 0 || k >= ids.len() {
        m
    } else {
        let next = match member_type_of(m.c, ids[k]) {
            Some(t) => instance(m, t, b, nesting, depth_of(m.c)).0,
            None => m,
        };
        instance_members(next, ids, k + 1, b, nesting)
    }
}

/// The type in which bound names are replaced, with the context in which it and the instances that
/// it calls for are known. No instance is entered twice; beyond that, instances lie inside one
/// another as deep as the machine can count.
pub open spec fn substituted(c: SemaView, id: TypeId, b: Seq<(Seq<char>, ArgShape)>) -> (
    SemaView,
    TypeId,
) {
    let (m, r) = instance(
        Instances { c, seen: Seq::empty() },
        id,
        b,
        usize::MAX as nat,
        depth_of(c),
    );
    (m.c, r)
}

/// The context in which the instances that a type calls for are known.
pub open spec fn using(c: SemaView, id: TypeId) -> SemaView {
    substituted(c, id, Seq::empty()).0
}

type Seen = Vec<(ClassId, Vec<TemplateArg>)>;

spec fn seen_views(v: Seq<(ClassId, Vec<TemplateArg>)>) -> Seq<(ClassId, Seq<ArgShape>)> {
    v.map_values(|e: (ClassId, Vec<TemplateArg>)| (e.0, arg_shapes(e.1@)))
}

fn has_seen(seen: &Seen, class_id: ClassId, args: &Vec<TemplateArg>) -> (r: bool)
    ensures
        r == seen_views(seen@).contains((class_id, arg_shapes(args@))),
{
    let ghost v = seen_views(seen@);
    let n: usize = seen.len();
    let mut i: usize = 0;
    while i < n
        invariant
            v == seen_views(seen@),
            n == seen@.len(),
            i <= n,
            forall|j: int| 0 <= j < i ==> #[trigger] v[j] != (class_id, arg_shapes(args@)),
        decreases n - i,
    {
        assert(v[i as int] == (seen@[i as int].0, arg_shapes(seen@[i as int].1@)));
        if seen[i].0 == class_id && super::types::same_args(&seen[i].1, args) {
            return true;
        }
        i = i + 1;
    }
    false
}

fn symbols_in(ctx: &SemaContext, scope_id: ScopeId) -> (r: Vec<SymbolId>)
    ensures
        r@ == declared_in(ctx@, scope_id),
{
    let mut r: Vec<SymbolId> = Vec::new();
    match ctx.scopes.get(scope_id) {
        None => {},
        Some(s) => {
            let n: usize = s.symbols.len();
            let mut i: usize = 0;
            while i < n
                invariant
                    n == s.symbols@.len(),
                    i <= n,
                    r@.len() == i,
                    forall|j: int| 0 <= j < i ==> #[trigger] r@[j] == s.symbols@[j].1,
                decreases n - i,
            {
                r.push(s.symbols[i].1);
                i = i + 1;
            }
            assert(r@ =~= s@.symbols.map_values(|e: (Seq<char>, SymbolId)| e.1));
        },
    }
    r
}

fn enter_instance(ctx: &mut SemaContext, seen: &mut Seen, base: &str, args: &Vec<TemplateArg>) -> (r: Option<
    (Vec<SymbolId>, Bindings),
>)
    ensures
        entered(
            Instances { c: old(ctx)@, seen: seen_views(old(seen)@) },
            base@,
            arg_shapes(args@),
        ) == (
            Instances { c: final(ctx)@, seen: seen_views(final(seen)@) },
            match r {
                Some(p) => Some((p.0@, bound(p.1@))),
                None => None,
            },
        ),
{
    let global = ctx.scopes.global;
    let found = match resolve_existing_named_type(ctx, global, base) {
        Some(t) => t,
        None => {
            return None;
        },
    };
    let class_id = match ctx.types.get(found) {
        Some(TypeKind::Class(id)) => *id,
        _ => {
            return None;
        },
    };
    assert(arg_shapes(args@).len() == args@.len());
    assert(seen_views(seen@).len() == seen@.len());
    match ctx.class_template_params.get(&class_id.0) {
        None => None,
        Some(params) => {
            assert(ctx@.template_params[class_id.0] == param_shapes(params@));
            assert(param_shapes(params@).len() == params@.len());
            if params.len() == 0 || args.len() == 0 || has_seen(seen, class_id, args) {
                return None;
            }
            match ctx.symbols.class_scope(class_id) {
                None => None,
                Some(scope) => {
                    let ghost before = seen_views(seen@);
                    let item = copy_args(args);
                    seen.push((class_id, item));
                    assert(seen_views(seen@) =~= before.push((class_id, arg_shapes(args@))));
                    Some((symbols_in(ctx, scope), pair_bindings(params, args)))
                },
            }
        },
    }
}

fn no_bindings() -> (r: Bindings)
    ensures
        bound(r@) == Seq::<(Seq<char>, ArgShape)>::empty(),
{
    let r: Bindings = Vec::new();
    assert(bound(r@) =~= Seq::<(Seq<char>, ArgShape)>::empty());
    r
}

fn substitute(
    ctx: &mut SemaContext,
    seen: &mut Seen,
    type_id: TypeId,
    b: &Bindings,
    nesting: usize,
    depth: u128,
) -> (r: TypeId)
    ensures
        (Instances { c: final(ctx)@, seen: seen_views(final(seen)@) }, r) == instance(
            Instances { c: old(ctx)@, seen: seen_views(old(seen)@) },
            type_id,
            bound(b@),
            nesting as nat,
            depth as nat,
        ),
    decreases nesting, 0nat, depth, 0nat,
{
    if depth == 0 {
        return type_id;
    }
    let kind = match ctx.types.get(type_id) {
        Some(k) => k.clone(),
        None => {
            return type_id;
        },
    };
    match kind {
        TypeKind::Dependent(name) => {
            match find_binding(b, &name) {
                Some(TemplateArg::Type(t)) => {
                    let empty = no_bindings();
                    let _ = substitute(
                        ctx,
                        seen,
                        *t,
                        &empty,
                        nesting,
                        depth - 1,
                    );
                    *t
                },
                _ => type_id,
            }
        },
        TypeKind::Pointer { pointee, cv } => {
            let p = substitute(ctx, seen, pointee, b, nesting, depth - 1);
            know(ctx, TypeKind::Pointer { pointee: p, cv })
        },
        TypeKind::Reference { referent, kind } => {
            let p = substitute(ctx, seen, referent, b, nesting, depth - 1);
            know(ctx, TypeKind::Reference { referent: p, kind })
        },
        TypeKind::Array { elem, size } => {
            let p = substitute(ctx, seen, elem, b, nesting, depth - 1);
            know(ctx, TypeKind::Array { elem: p, size })
        },
        TypeKind::Function { return_t, params, min_arity, is_variadic, is_const_member } => {
            let r = substitute(ctx, seen, return_t, b, nesting, depth - 1);
            let list = materialize_list(ctx, seen, &params, b, nesting, depth - 1);
            know(
                ctx,
                TypeKind::Function {
                    return_t: r,
                    params: list,
                    min_arity,
                    is_variadic,
                    is_const_member,
                },
            )
        },
        TypeKind::Template { base, args } => {
            let list = materialize_args(ctx, seen, &args, b, nesting, depth - 1);
            let id = know(
                ctx,
                TypeKind::Template { base: text::copy_of(&base), args: copy_args(&list) },
            );
            match enter_instance(ctx, seen, &base, &list) {
                Some((ids, inner)) => {
                    if nesting > 0 {
                        materialize_template_class_members(ctx, seen, &ids, &inner, nesting - 1);
                    }
                },
                None => {},
            }
            id
        },
        _ => type_id,
    }
}

fn materialize_list(
    ctx: &mut SemaContext,
    seen: &mut Seen,
    ids: &Vec<TypeId>,
    b: &Bindings,
    nesting: usize,
    depth: u128,
) -> (r: Vec<TypeId>)
    ensures
        (Instances { c: final(ctx)@, seen: seen_views(final(seen)@) }, r@) == instance_list(
            Instances { c: old(ctx)@, seen: seen_views(old(seen)@) },
            ids@,
            0,
            bound(b@),
            nesting as nat,
            depth as nat,
        ),
    decreases nesting, 0nat, depth, 1nat,
{
    let ghost bb = bound(b@);
    let ghost all = instance_list(
        Instances { c: ctx@, seen: seen_views(seen@) },
        ids@,
        0,
        bb,
        nesting as nat,
        depth as nat,
    );
    let mut r: Vec<TypeId> = Vec::new();
    let n: usize = ids.len();
    let mut i: usize = 0;
    assert(all.1 =~= r@ + all.1);
    while i < n
        invariant
            bb == bound(b@),
            n == ids@.len(),
            i <= n,
            all.0 == instance_list(
                Instances { c: ctx@, seen: seen_views(seen@) },
                ids@,
                i as int,
                bb,
                nesting as nat,
                depth as nat,
            ).0,
            all.1 == r@ + instance_list(
                Instances { c: ctx@, seen: seen_views(seen@) },
                ids@,
                i as int,
                bb,
                nesting as nat,
                depth as nat,
            ).1,
        decreases n - i,
    {
        let ghost before = r@;
        let x = substitute(ctx, seen, ids[i], b, nesting, depth);
        r.push(x);
        let ghost rest = instance_list(
            Instances { c: ctx@, seen: seen_views(seen@) },
            ids@,
            i + 1,
            bb,
            nesting as nat,
            depth as nat,
        ).1;
        assert(before + (seq![x] + rest) =~= r@ + rest);
        i = i + 1;
    }
    assert(r@ =~= all.1);
    r
}

fn materialize_args(
    ctx: &mut SemaContext,
    seen: &mut Seen,
    args: &Vec<TemplateArg>,
    b: &Bindings,
    nesting: usize,
    depth: u128,
) -> (r: Vec<TemplateArg>)
    ensures
        (Instances { c: final(ctx)@, seen: seen_views(final(seen)@) }, arg_shapes(r@))
            == instance_args(
            Instances { c: old(ctx)@, seen: seen_views(old(seen)@) },
            arg_shapes(args@),
            0,
            bound(b@),
            nesting as nat,
            depth as nat,
        ),
    decreases nesting, 0nat, depth, 1nat,
{
    let ghost bb = bound(b@);
    let ghost shapes = arg_shapes(args@);
    let ghost all = instance_args(
        Instances { c: ctx@, seen: seen_views(seen@) },
        shapes,
        0,
        bb,
        nesting as nat,
        depth as nat,
    );
    let mut r: Vec<TemplateArg> = Vec::new();
    let n: usize = args.len();
    let mut i: usize = 0;
    assert(arg_shapes(r@) =~= Seq::<ArgShape>::empty());
    assert(all.1 =~= arg_shapes(r@) + all.1);
    while i < n
        invariant
            bb == bound(b@),
            shapes == arg_shapes(args@),
            n == args@.len(),
            i <= n,
            all.0 == instance_args(
                Instances { c: ctx@, seen: seen_views(seen@) },
                shapes,
                i as int,
                bb,
                nesting as nat,
                depth as nat,
            ).0,
            all.1 == arg_shapes(r@) + instance_args(
                Instances { c: ctx@, seen: seen_views(seen@) },
                shapes,
                i as int,
                bb,
                nesting as nat,
                depth as nat,
            ).1,
        decreases n - i,
    {
        assert(shapes[i as int] == args@[i as int]@);
        let ghost before = arg_shapes(r@);
        let x = match &args[i] {
            TemplateArg::Type(t) => TemplateArg::Type(
                substitute(ctx, seen, *t, b, nesting, depth),
            ),
            TemplateArg::Value(v) => match find_binding(b, v) {
                Some(a) => a.clone(),
                None => TemplateArg::Value(text::copy_of(v)),
            },
        };
        r.push(x);
        assert(arg_shapes(r@) =~= before.push(x@));
        let ghost rest = instance_args(
            Instances { c: ctx@, seen: seen_views(seen@) },
            shapes,
            i + 1,
            bb,
            nesting as nat,
            depth as nat,
        ).1;
        assert(before + (seq![x@] + rest) =~= arg_shapes(r@) + rest);
        i = i + 1;
    }
    assert(arg_shapes(r@) =~= all.1);
    r
}

fn materialize_template_class_members(
    ctx: &mut SemaContext,
    seen: &mut Seen,
    ids: &Vec<SymbolId>,
    b: &Bindings,
    nesting: usize,
)
    ensures
        (Instances { c: final(ctx)@, seen: seen_views(final(seen)@) }) == instance_members(
            Instances { c: old(ctx)@, seen: seen_views(old(seen)@) },
            ids@,
            0,
            bound(b@),
            nesting as nat,
        ),
    decreases nesting, 1nat, 0nat, 0nat,
{
    let ghost bb = bound(b@);
    let ghost all = instance_members(
        Instances { c: ctx@, seen: seen_views(seen@) },
        ids@,
        0,
        bb,
        nesting as nat,
    );
    let n: usize = ids.len();
    let mut i: usize = 0;
    while i < n
        invariant
            bb == bound(b@),
            n == ids@.len(),
            i <= n,
            all == instance_members(
                Instances { c: ctx@, seen: seen_views(seen@) },
                ids@,
                i as int,
                bb,
                nesting as nat,
            ),
        decreases n - i,
    {
        let member: Option<TypeId> = match ctx.symbols.get(ids[i]) {
            Some(symbol) => match &symbol.kind {
                SymbolKind::Field { type_id, .. } => Some(*type_id),
                SymbolKind::Typedef { type_id } => Some(*type_id),
                SymbolKind::Method { type_id, .. } => Some(*type_id),
                _ => None,
            },
            None => None,
        };
        match member {
            Some(t) => {
                let len: usize = ctx.types.len();
                let _ = substitute(
                    ctx,
                    seen,
                    t,
                    b,
                    nesting,
                    2 * (len as u128) + 4,
                );
            },
            None => {},
        }
        i = i + 1;
    }
}

/// Replaces bound names in a type and makes the instances known that it calls for. Instances that
/// call for ever deeper ones end only with the machine.
pub fn materialize_substituted_type(
    ctx: &mut SemaContext,
    type_id: TypeId,
    b: &Bindings,
) -> (r: TypeId)
    ensures
        (final(ctx)@, r) == substituted(old(ctx)@, type_id, bound(b@)),
{
    let mut seen: Seen = Vec::new();
    assert(seen_views(seen@) =~= Seq::<(ClassId, Seq<ArgShape>)>::empty());
    let len: usize = ctx.types.len();
    substitute(ctx, &mut seen, type_id, b, usize::MAX, 2 * (len as u128) + 4)
}

pub fn materialize_template_instance_usage(ctx: &mut SemaContext, type_id: TypeId)
    ensures
        final(ctx)@ == using(old(ctx)@, type_id),
{
    let empty = no_bindings();
    let _ = materialize_substituted_type(ctx, type_id, &empty);
}

} // verus!
