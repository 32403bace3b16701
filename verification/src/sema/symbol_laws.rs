//! Which symbols the declarations of a source make known.
use vstd::prelude::*;

use super::builder::{
    declared_type_name, namespace_among, param_types_from, required_params, unterminated,
    using_target, variable_name_node, with_class_at, with_enum_at, with_namespace, with_using_at,
    with_function_at, with_parameters_from, with_variable_at,
};
use super::scope::{declared_symbol_is_found, new_scope_is_empty, ScopeId};
use super::symbol::{ClassId, Storage, SymbolId, SymbolShape};
use super::syntax::{NodeKind, SyntaxTree};
use super::types::{stored_type_is_found, TypeShape};
use super::SemaView;
use crate::text;

verus! {

// ---------------------------------------------------------------------------
// Variables
// ---------------------------------------------------------------------------
/// A declaration with a name makes one symbol known, of this name and in this scope: a parameter
/// where it is one of a parameter, a field of the class where it is one of a field in a class, and
/// else a variable. A declaration without a name changes nothing.
pub proof fn declarations_make_variables_known(
    c: SemaView,
    t: SyntaxTree,
    n: usize,
    scope: ScopeId,
    class: Option<ClassId>,
    storage: Storage,
)
    ensures
        ({
            let r = with_variable_at(c, t, n, scope, class, storage);
            let last = r.symbols.symbols.last();
            let name = text::trimmed(t.text(variable_name_node(t, n)->0));
            let named = variable_name_node(t, n) is Some && name.len() > 0;
            let parameter = t.at(n).kind == NodeKind::ParameterDeclaration;
            let field = class is Some && t.at(n).kind == NodeKind::FieldDeclaration;
            &&& !named ==> r == c
            &&& named ==> {
                &&& r.symbols.symbols.len() > 0
                &&& last.name == name && last.scope == scope
                &&& parameter ==> (last.kind matches SymbolShape::Variable { storage: s, .. } && s
                    == Storage::Parameter)
                &&& field ==> (last.kind matches SymbolShape::Field { owner, .. } && owner
                    == class->0)
                &&& !parameter && !field ==> (last.kind matches SymbolShape::Variable {
                    storage: s,
                    ..
                } && s == storage)
            }
        }),
{
}

// ---------------------------------------------------------------------------
// Types
// ---------------------------------------------------------------------------
/// An enum that is declared is known under its name, with a type of its own.
pub proof fn enums_have_their_types(c: SemaView, t: SyntaxTree, n: usize, scope: ScopeId)
    requires
        declared_type_name(t, n).len() > 0,
        c.types.kinds.len() < u32::MAX,
    ensures
        ({
            let r = with_enum_at(c, t, n, scope);
            let last = r.symbols.symbols.last();
            &&& last.name == declared_type_name(t, n) && last.scope == scope
            &&& r.symbols.symbols.len() == c.symbols.symbols.len() + 1
            &&& last.kind matches SymbolShape::Enum { enum_id, type_id }
            &&& r.kind(type_id) == Some(TypeShape::Enum(enum_id))
        }),
{
    let id = c.symbols.enum_id(declared_type_name(t, n));
    stored_type_is_found(c.types, TypeShape::Enum(id));
}

/// A class that is declared has a scope and parents of its own, and its symbol says whether it was
/// declared as a struct.
pub proof fn classes_have_scopes_and_parents(
    c: SemaView,
    t: SyntaxTree,
    n: usize,
    scope: ScopeId,
    name: Seq<char>,
)
    ensures
        ({
            let (r, inner, id) = with_class_at(c, t, n, scope, name);
            let last = r.symbols.symbols.last();
            &&& r.symbols.symbols.len() > 0
            &&& last.scope == scope
            &&& r.symbols.class_scope(id) == Some(inner)
            &&& r.owners.contains_key(inner.0)
            &&& r.node_scopes.last() == (t.at(n).start_byte, t.at(n).end_byte, inner)
            &&& last.kind matches SymbolShape::Class { class_id, parents, is_struct, .. }
            &&& class_id == id
            &&& r.symbols.parents(id) == parents
            &&& is_struct <==> t.at(n).kind == NodeKind::StructSpecifier || t.at(n).kind
                == NodeKind::UnrealReflectedStructDeclaration
        }),
{
}

// ---------------------------------------------------------------------------
// Functions
// ---------------------------------------------------------------------------
proof fn lemma_no_parameters(
    c: SemaView,
    t: SyntaxTree,
    l: usize,
    k: int,
    scope: ScopeId,
    class: Option<ClassId>,
)
    requires
        0 <= k <= t.kids(l).len(),
        forall|i: int|
            0 <= i < t.kids(l).len() ==> t.at(#[trigger] t.kids(l)[i]).kind
                != NodeKind::ParameterDeclaration && t.at(t.kids(l)[i]).kind
                != NodeKind::OptionalParameterDeclaration,
    ensures
        with_parameters_from(c, t, l, k, scope, class) == c,
    decreases t.kids(l).len() - k,
{
    if k < t.kids(l).len() {
        assert(t.at(t.kids(l)[k]).kind != NodeKind::ParameterDeclaration);
        lemma_no_parameters(c, t, l, k + 1, scope, class);
    }
}

/// A function without parameters is declared as a method where it stands in a class, and as a
/// function where it does not. A method is static, virtual or an override where it is called so, and
/// the type of either is that of a function, constant where it is called so.
pub proof fn functions_are_what_they_are_called(
    c: SemaView,
    t: SyntaxTree,
    n: usize,
    scope: ScopeId,
    class: Option<ClassId>,
    is_definition: bool,
    d: usize,
    name: Seq<char>,
)
    requires
        t.descendant(d, NodeKind::ParameterList) matches Some(l) ==> forall|i: int|
            0 <= i < t.kids(l).len() ==> t.at(#[trigger] t.kids(l)[i]).kind
                != NodeKind::ParameterDeclaration && t.at(t.kids(l)[i]).kind
                != NodeKind::OptionalParameterDeclaration,
    ensures
        ({
            let (r, body) = with_function_at(c, t, n, scope, class, is_definition, d, name);
            let last = r.symbols.symbols.last();
            &&& r.symbols.symbols.len() > 0
            &&& last.name == name && last.scope == scope
            &&& class is Some <==> last.kind is Method
            &&& class is None <==> last.kind is Function
            &&& last.kind matches SymbolShape::Method {
                owner,
                is_static,
                is_virtual,
                is_override,
                ..
            } ==> owner == class->0 && (is_static <==> text::has(t.text(n), "static "@)) && (
            is_virtual <==> text::has(t.text(n), "virtual "@)) && (is_override <==> text::has(
                t.text(n),
                " override"@,
            ))
            &&& last.kind matches SymbolShape::Function { decls } ==> decls.len() == 1
                && decls[0].is_definition == is_definition
            &&& r.owners.contains_key(body.0)
            &&& r.node_scopes.last() == (t.at(n).start_byte, t.at(n).end_byte, body)
        }),
{
    if let Some(l) = t.descendant(d, NodeKind::ParameterList) {
        assert forall|x: SemaView, s: ScopeId| #[trigger]
            with_parameters_from(x, t, l, 0, s, class) == x by {
            lemma_no_parameters(x, t, l, 0, s, class);
        }
    }
}

// ---------------------------------------------------------------------------
// Namespaces
// ---------------------------------------------------------------------------
/// The symbols of a scope are among those that are known.
pub open spec fn all_known(c: SemaView, ids: Seq<SymbolId>) -> bool {
    forall|i: int| 0 <= i < ids.len() ==> (#[trigger] ids[i]).0 < c.symbols.symbols.len()
}

proof fn lemma_first_namespace(
    c: SemaView,
    r: SemaView,
    ids: Seq<SymbolId>,
    more: Seq<SymbolId>,
    k: int,
)
    requires
        0 <= k <= ids.len(),
        more.len() == ids.len() + 1,
        more.take(ids.len() as int) == ids,
        forall|i: int|
            0 <= i < ids.len() ==> r.symbols.kind(#[trigger] ids[i]) == c.symbols.kind(ids[i]),
        namespace_among(c, ids, k) is None,
        r.symbols.kind(more.last()) is Some && r.symbols.kind(more.last())->0 is Namespace,
    ensures
        namespace_among(r, more, k) == Some(r.symbols.kind(more.last())->0->children),
    decreases ids.len() - k,
{
    if k < ids.len() {
        assert(more.take(ids.len() as int)[k] == more[k]);
        assert(r.symbols.kind(ids[k]) == c.symbols.kind(ids[k]));
        lemma_first_namespace(c, r, ids, more, k + 1);
    } else {
        assert(more[k] == more.last());
    }
}

/// A namespace that is opened again is the one that was opened before: nothing more is declared, and
/// its scope is the same.
pub proof fn namespaces_are_opened_again(c: SemaView, scope: ScopeId, name: Seq<char>)
    requires
        c.scopes.scope(scope) is Some,
        c.scopes.scopes.len() < u32::MAX,
        c.symbols.symbols.len() < u32::MAX,
        all_known(c, c.scopes.named(scope, name)),
    ensures
        with_namespace(with_namespace(c, scope, name).0, scope, name) == with_namespace(
            c,
            scope,
            name,
        ),
{
    let ids = c.scopes.named(scope, name);
    if namespace_among(c, ids, 0) is None {
        let (r, children) = with_namespace(c, scope, name);
        let kind = super::scope::ScopeKind::Namespace;
        new_scope_is_empty(c.scopes, Some(scope), kind, scope, name);
        let wider = c.scopes.with_scope(Some(scope), kind);
        assert(wider.scope(scope) == c.scopes.scope(scope));
        assert(wider.named(scope, name) == ids);
        let symbol = c.symbols.next_id();
        declared_symbol_is_found(wider, scope, name, symbol, scope, name);
        let more = r.scopes.named(scope, name);
        assert(more == ids.push(symbol));
        assert(r.symbols.kind(symbol) == Some(SymbolShape::Namespace { children }));
        assert forall|i: int| 0 <= i < ids.len() implies r.symbols.kind(#[trigger] ids[i])
            == c.symbols.kind(ids[i]) by {
            assert(ids[i].0 < c.symbols.symbols.len());
        }
        assert(more.take(ids.len() as int) =~= ids);
        lemma_first_namespace(c, r, ids, more, 0);
    }
}

// ---------------------------------------------------------------------------
// Using declarations
// ---------------------------------------------------------------------------
/// `using namespace` makes a namespace visible, `using` a name, and a declaration of an alias neither;
/// what is made visible stands in the scope once.
pub proof fn using_makes_names_visible(
    c: SemaView,
    t: SyntaxTree,
    n: usize,
    scope: ScopeId,
    rest: Seq<char>,
)
    ensures
        unterminated(t.text(n)) == "using namespace "@ + rest ==> using_target(t.text(n)) == Some(
            "namespace "@ + text::trimmed(rest),
        ),
        unterminated(t.text(n)) == "using "@ + rest && !text::starts(rest, "namespace "@) ==> (
        using_target(t.text(n)) is None <==> text::trimmed(rest).contains('=') || text::trimmed(
            rest,
        ).len() == 0),
        unterminated(t.text(n)) == "using "@ + rest && !text::starts(rest, "namespace "@)
            && using_target(t.text(n)) is Some ==> using_target(t.text(n)) == Some(
            text::trimmed(rest),
        ),
        using_target(t.text(n)) is Some && c.scopes.scope(scope) is Some ==> with_using_at(
            c,
            t,
            n,
            scope,
        ).scopes.scope(scope)->0.using_decls.contains(using_target(t.text(n))->0),
        using_target(t.text(n)) is None ==> with_using_at(c, t, n, scope) == c,
{
    let s = unterminated(t.text(n));
    let long = "using namespace "@;
    let short = "using "@;
    reveal_strlit("using namespace ");
    reveal_strlit("using ");
    reveal_strlit("namespace ");
    if s == long + rest {
        assert(s.subrange(0, long.len() as int) =~= long);
        assert(s.subrange(long.len() as int, s.len() as int) =~= rest);
    }
    if s == short + rest && !text::starts(rest, "namespace "@) {
        assert(s.subrange(0, short.len() as int) =~= short);
        assert(s.subrange(short.len() as int, s.len() as int) =~= rest);
        if text::starts(s, long) {
            assert forall|i: int| 0 <= i < 10 implies rest[i] == "namespace "@[i] by {
                assert(s.subrange(0, 16)[i + 6] == s[i + 6]);
                assert(s[i + 6] == rest[i]);
            }
            assert(rest.subrange(0, 10) =~= "namespace "@);
        }
    }
    if using_target(t.text(n)) is Some && c.scopes.scope(scope) is Some {
        let target = using_target(t.text(n))->0;
        let before = c.scopes.scope(scope)->0.using_decls;
        if !before.contains(target) {
            assert(before.push(target)[before.len() as int] == target);
        }
    }
}

// ---------------------------------------------------------------------------
// Parameters
// ---------------------------------------------------------------------------
/// The child of a list is a parameter with a default.
pub open spec fn has_default(t: SyntaxTree, n: usize, i: int) -> bool {
    t.at(t.kids(n)[i]).kind == NodeKind::ParameterDeclaration && t.descendant(
        t.kids(n)[i],
        NodeKind::DefaultArgument,
    ) is Some
}

spec fn parameters_from(t: SyntaxTree, n: usize, k: int) -> nat
    decreases t.kids(n).len() - k,
{
    if k < 0 || k >= t.kids(n).len() {
        0
    } else {
        parameters_from(t, n, k + 1) + if t.at(t.kids(n)[k]).kind == NodeKind::ParameterDeclaration {
            1nat
        } else {
            0nat
        }
    }
}

proof fn lemma_param_count(c: SemaView, t: SyntaxTree, n: usize, k: int, scope: ScopeId)
    requires
        0 <= k <= t.kids(n).len(),
    ensures
        param_types_from(c, t, n, k, scope).1.len() == parameters_from(t, n, k),
    decreases t.kids(n).len() - k,
{
    if k < t.kids(n).len() {
        if t.at(t.kids(n)[k]).kind == NodeKind::ParameterDeclaration {
            let (c1, first) = super::intern::declared_type_at(
                c,
                t,
                t.kids(n)[k],
                scope,
                t.by_field(t.kids(n)[k], super::syntax::FieldName::Declarator),
            );
            lemma_param_count(c1, t, n, k + 1, scope);
        } else {
            lemma_param_count(c, t, n, k + 1, scope);
        }
    }
}

proof fn lemma_required(t: SyntaxTree, n: usize, k: int)
    requires
        0 <= k <= t.kids(n).len(),
    ensures
        required_params(t, n, k) + parameters_from(t, n, k) <= parameters_from(t, n, 0),
        required_params(t, n, k) + parameters_from(t, n, k) == parameters_from(t, n, 0)
            <==> forall|i: int| 0 <= i < k ==> !#[trigger] has_default(t, n, i),
    decreases k,
{
    if k > 0 {
        lemma_required(t, n, k - 1);
        let x = t.kids(n)[k - 1];
        assert(has_default(t, n, k - 1) == (t.at(x).kind == NodeKind::ParameterDeclaration
            && t.descendant(x, NodeKind::DefaultArgument) is Some));
    }
}

/// A call must give a function no more arguments than it has parameters, and as many exactly where
/// none of them has a default.
pub proof fn defaults_need_not_be_given(c: SemaView, t: SyntaxTree, n: usize, scope: ScopeId)
    ensures
        ({
            let all = param_types_from(c, t, n, 0, scope).1.len();
            let needed = required_params(t, n, t.kids(n).len() as int);
            &&& needed <= all
            &&& needed == all <==> forall|i: int|
                0 <= i < t.kids(n).len() ==> !#[trigger] has_default(t, n, i)
        }),
{
    lemma_param_count(c, t, n, 0, scope);
    lemma_required(t, n, t.kids(n).len() as int);
}

} // verus!
