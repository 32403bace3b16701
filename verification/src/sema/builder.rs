//! Reading the declarations of a source into a context.
use std::collections::HashMap;
use vstd::prelude::*;

use super::builtin::BuiltinTypeAliases;
use super::expr::{attach_builtin_helpers, with_helpers};
use super::intern::{
    declared_type_at, know, knowing, materialize_template_instance_usage, node_type,
    resolve_type_node, resolve_type_text, type_of_declaration, using, written_type,
};
use super::names::{
    clean, clean_type_string, extract_template_suffix, path_segments, segments, template_suffix,
};
use super::pattern::{declared_name, declared_name_at, type_param_name, type_param_name_at};
use super::scope::{empty_scope, ScopeId, ScopeKind, ScopesView, ScopeTree};
use super::symbol::{
    Access, ClassId, FuncOverload, SourceRef, Storage, SymbolId, SymbolKind, SymbolShape,
    SymbolTable, SymbolsView,
};
use super::syntax::{
    direct_child_from, find_direct_child, find_name_node, lemma_descendant,
    name_node, FieldName, NodeKind, SyntaxTree,
};
use super::types::{copy_ids, first_types, TypeArena, TypeId, TypeKind, TypeShape};
use super::{param_shapes, ParamShape, SemaContext, SemaView, TemplateScopeParam};
use crate::text;

verus! {

broadcast use vstd::std_specs::hash::group_hash_axioms;

/// The context in which a symbol is declared in a scope.
pub open spec fn declaring(c: SemaView, scope: ScopeId, name: Seq<char>, kind: SymbolShape) -> SemaView {
    SemaView {
        symbols: c.symbols.with_symbol(name, scope, kind),
        scopes: c.scopes.declare(scope, name, c.symbols.next_id()),
        ..c
    }
}

/// The context in which a node opens a scope.
pub open spec fn attached(c: SemaView, t: SyntaxTree, n: usize, scope: ScopeId) -> SemaView {
    SemaView {
        node_scopes: c.node_scopes.push((t.at(n).start_byte, t.at(n).end_byte, scope)),
        ..c
    }
}

/// The context with one more scope, inside another.
pub open spec fn nested(c: SemaView, scope: ScopeId, kind: ScopeKind) -> SemaView {
    SemaView { scopes: c.scopes.with_scope(Some(scope), kind), ..c }
}

/// The context in which a scope belongs to a symbol.
pub open spec fn owning(c: SemaView, scope: ScopeId, symbol: SymbolId) -> SemaView {
    SemaView { owners: c.owners.insert(scope.0, symbol), ..c }
}

/// The scope of the first namespace among the symbols from position `k` on.
pub open spec fn namespace_among(c: SemaView, ids: Seq<SymbolId>, k: int) -> Option<ScopeId>
    decreases ids.len() - k,
{
    if k < 0 || k >= ids.len() {
        None
    } else {
        match c.symbols.kind(ids[k]) {
            Some(SymbolShape::Namespace { children }) => Some(children),
            _ => namespace_among(c, ids, k + 1),
        }
    }
}

/// The namespace of this name in a scope, opened where there is none yet.
pub open spec fn with_namespace(c: SemaView, scope: ScopeId, name: Seq<char>) -> (SemaView, ScopeId) {
    match namespace_among(c, c.scopes.named(scope, name), 0) {
        Some(s) => (c, s),
        None => {
            let children = c.scopes.next_id();
            let c1 = nested(c, scope, ScopeKind::Namespace);
            let c2 = declaring(c1, scope, name, SymbolShape::Namespace { children });
            (owning(c2, children, c1.symbols.next_id()), children)
        },
    }
}

pub open spec fn with_namespaces(c: SemaView, scope: ScopeId, names: Seq<Seq<char>>, k: int) -> (
    SemaView,
    ScopeId,
)
    decreases names.len() - k,
{
    if k < 0 || k >= names.len() {
        (c, scope)
    } else {
        let (c1, inner) = with_namespace(c, scope, names[k]);
        with_namespaces(c1, inner, names, k + 1)
    }
}

/// The name that a namespace is opened under.
pub open spec fn namespace_name(t: SyntaxTree, n: usize) -> Seq<char> {
    match t.by_field(n, FieldName::Name) {
        Some(m) => if text::trimmed(t.text(m)).len() == 0 {
            "<anonymous>"@
        } else {
            text::trimmed(t.text(m))
        },
        None => "<anonymous>"@,
    }
}

/// The template parameter that a node declares.
pub open spec fn scope_param(t: SyntaxTree, n: usize) -> Option<ParamShape> {
    let kind = t.at(n).kind;
    if kind == NodeKind::TypeParameterDeclaration || kind
        == NodeKind::OptionalTypeParameterDeclaration {
        let name = type_param_name(t, n);
        if name.len() == 0 {
            None
        } else {
            Some(ParamShape::Type { name })
        }
    } else if kind == NodeKind::ParameterDeclaration {
        let declared_type = match t.by_field(n, FieldName::Type) {
            Some(m) => clean(t.text(m)),
            None => Seq::empty(),
        };
        let name = declared_name(t, t.by_field(n, FieldName::Declarator));
        if name.len() == 0 || declared_type.len() == 0 {
            None
        } else {
            Some(ParamShape::Value { name, declared_type })
        }
    } else {
        None
    }
}

pub open spec fn scope_params_from(t: SyntaxTree, n: usize, k: int) -> Seq<ParamShape>
    decreases t.kids(n).len() - k,
{
    if k < 0 || k >= t.kids(n).len() {
        Seq::empty()
    } else {
        match scope_param(t, t.kids(n)[k]) {
            Some(p) => seq![p] + scope_params_from(t, n, k + 1),
            None => scope_params_from(t, n, k + 1),
        }
    }
}

/// The template parameters that the node around a declaration declares.
pub open spec fn scope_params(t: SyntaxTree, n: usize) -> Seq<ParamShape> {
    match t.at(n).parent {
        Some(p) => if t.at(p).kind != NodeKind::TemplateDeclaration {
            Seq::empty()
        } else {
            match t.by_field(p, FieldName::Parameters) {
                Some(l) => scope_params_from(t, l, 0),
                None => Seq::empty(),
            }
        },
        None => Seq::empty(),
    }
}

/// The context in which the template parameters from position `k` on are declared in a scope.
pub open spec fn with_params(c: SemaView, outer: ScopeId, scope: ScopeId, params: Seq<ParamShape>, k: int) -> SemaView
    decreases params.len() - k,
{
    if k < 0 || k >= params.len() {
        c
    } else {
        let next = match params[k] {
            ParamShape::Type { name } => declaring(
                knowing(c, TypeShape::Dependent(name)),
                scope,
                name,
                SymbolShape::Typedef { type_id: c.types.id_of(TypeShape::Dependent(name)) },
            ),
            ParamShape::Value { name, declared_type } => {
                let (c1, type_id) = written_type(c, outer, declared_type);
                declaring(
                    c1,
                    scope,
                    name,
                    SymbolShape::Variable { type_id, storage: Storage::Parameter },
                )
            },
        };
        with_params(next, outer, scope, params, k + 1)
    }
}

/// The scope in which a declaration with these template parameters is read.
pub open spec fn template_scope(c: SemaView, scope: ScopeId, params: Seq<ParamShape>) -> (SemaView, ScopeId) {
    if params.len() == 0 {
        (c, scope)
    } else {
        let inner = c.scopes.next_id();
        (with_params(nested(c, scope, ScopeKind::Template), scope, inner, params, 0), inner)
    }
}

pub open spec fn names_parent(kind: NodeKind) -> bool {
    kind == NodeKind::TypeIdentifier || kind == NodeKind::QualifiedIdentifier || kind
        == NodeKind::TemplateType
}

/// The classes that a base class clause names from its child `k` on.
pub open spec fn parent_types_from(c: SemaView, t: SyntaxTree, n: usize, k: int, scope: ScopeId) -> (
    SemaView,
    Seq<TypeId>,
)
    decreases t.kids(n).len() - k,
{
    if k < 0 || k >= t.kids(n).len() {
        (c, Seq::empty())
    } else if names_parent(t.at(t.kids(n)[k]).kind) {
        let (c1, first) = node_type(c, t, t.kids(n)[k], scope);
        let (c2, rest) = parent_types_from(c1, t, n, k + 1, scope);
        (c2, seq![first] + rest)
    } else {
        parent_types_from(c, t, n, k + 1, scope)
    }
}

pub open spec fn parent_types(c: SemaView, t: SyntaxTree, n: usize, scope: ScopeId) -> (SemaView, Seq<TypeId>) {
    match t.descendant(n, NodeKind::BaseClassClause) {
        Some(b) => parent_types_from(c, t, b, 0, scope),
        None => (c, Seq::empty()),
    }
}

/// The names of the namespaces around a scope, the outermost first.
pub open spec fn namespaces_around(c: SemaView, cur: Option<ScopeId>, steps: nat) -> Seq<Seq<char>>
    decreases steps,
{
    if steps == 0 {
        Seq::empty()
    } else {
        match cur {
            None => Seq::empty(),
            Some(id) => {
                let outer = namespaces_around(c, c.scopes.parent(id), (steps - 1) as nat);
                if !c.owners.contains_key(id.0) {
                    outer
                } else {
                    match c.symbols.symbol(c.owners[id.0]) {
                        Some(s) => if s.kind is Namespace {
                            outer.push(s.name)
                        } else {
                            outer
                        },
                        None => outer,
                    }
                }
            },
        }
    }
}

pub open spec fn qualified_in(c: SemaView, scope: ScopeId, name: Seq<char>) -> Seq<char> {
    text::joined(
        namespaces_around(c, Some(scope), c.scopes.scopes.len() + 1).push(name),
        "::"@,
    )
}

/// The name of an explicit specialization, with its arguments.
pub open spec fn specialized_name(t: SyntaxTree, n: usize, name: Seq<char>) -> Option<Seq<char>> {
    match t.at(n).parent {
        None => None,
        Some(p) => {
            let head = text::trimmed_start(t.text(p));
            if t.at(p).kind != NodeKind::TemplateDeclaration || !(text::starts(head, "template<>"@)
                || text::starts(head, "template <>"@)) {
                None
            } else if text::has_char(name, '<') {
                Some(name)
            } else {
                match text::find(t.text(n), name) {
                    None => None,
                    Some(i) => match template_suffix(
                        t.text(n).subrange(i + name.len(), t.text(n).len() as int),
                    ) {
                        Some(suffix) => Some(name + suffix),
                        None => None,
                    },
                }
            }
        },
    }
}

/// The name under which the class is known, and the one under which its symbol is declared.
pub open spec fn class_names(c: SemaView, t: SyntaxTree, n: usize, scope: ScopeId, name: Seq<char>) -> (
    Seq<char>,
    Seq<char>,
) {
    match specialized_name(t, n, name) {
        Some(s) => if qualified_in(c, scope, s).len() == 0 {
            (s, s)
        } else {
            (qualified_in(c, scope, s), s)
        },
        None => (name, name),
    }
}

pub open spec fn type_name_node(t: SyntaxTree, n: usize) -> Option<usize> {
    match t.by_field(n, FieldName::Name) {
        Some(m) => Some(m),
        None => direct_child_from(t, n, NodeKind::TypeIdentifier, NodeKind::Identifier, 0),
    }
}

/// The name of the class or the enum that a node declares, if it has one.
pub open spec fn declared_type_name(t: SyntaxTree, n: usize) -> Seq<char> {
    match type_name_node(t, n) {
        Some(m) => text::trimmed(t.text(m)),
        None => Seq::empty(),
    }
}

pub open spec fn declares_class(kind: NodeKind) -> bool {
    kind == NodeKind::ClassSpecifier || kind == NodeKind::StructSpecifier || kind
        == NodeKind::UnrealReflectedClassDeclaration || kind
        == NodeKind::UnrealReflectedStructDeclaration
}

pub open spec fn declares_struct(kind: NodeKind) -> bool {
    kind == NodeKind::StructSpecifier || kind == NodeKind::UnrealReflectedStructDeclaration
}

/// The context in which a class is declared, with its scope and its number.
pub open spec fn with_class_at(c: SemaView, t: SyntaxTree, n: usize, scope: ScopeId, name: Seq<char>) -> (
    SemaView,
    ScopeId,
    ClassId,
) {
    let (class_name, symbol_name) = class_names(c, t, n, scope, name);
    let params = scope_params(t, n);
    let class_id = c.symbols.class_id(class_name);
    let c1 = SemaView { symbols: c.symbols.with_class(class_name), ..c };
    let (c2, parents) = parent_types(c1, t, n, scope);
    let type_id = c2.types.id_of(TypeShape::Class(class_id));
    let c3 = knowing(c2, TypeShape::Class(class_id));
    let (c4, outer) = template_scope(c3, scope, params);
    let class_scope = c4.scopes.next_id();
    let c5 = nested(c4, outer, ScopeKind::Class);
    let c6 = SemaView {
        symbols: SymbolsView {
            class_scopes: c5.symbols.class_scopes.insert(class_id.0, class_scope),
            class_parents: c5.symbols.class_parents.insert(class_id.0, parents),
            ..c5.symbols
        },
        ..c5
    };
    let c7 = if params.len() == 0 {
        c6
    } else {
        SemaView { template_params: c6.template_params.insert(class_id.0, params), ..c6 }
    };
    let c8 = attached(c7, t, n, class_scope);
    let c9 = declaring(
        c8,
        scope,
        symbol_name,
        SymbolShape::Class { class_id, type_id, parents, is_struct: declares_struct(t.at(n).kind) },
    );
    (owning(c9, class_scope, c8.symbols.next_id()), class_scope, class_id)
}

/// The context in which an enum is declared.
pub open spec fn with_enum_at(c: SemaView, t: SyntaxTree, n: usize, scope: ScopeId) -> SemaView {
    let name = declared_type_name(t, n);
    if name.len() == 0 {
        c
    } else {
        let enum_id = c.symbols.enum_id(name);
        let c1 = SemaView { symbols: c.symbols.with_enum(name), ..c };
        declaring(
            knowing(c1, TypeShape::Enum(enum_id)),
            scope,
            name,
            SymbolShape::Enum { enum_id, type_id: c1.types.id_of(TypeShape::Enum(enum_id)) },
        )
    }
}

/// A statement without the semicolon at its end.
pub open spec fn unterminated(s: Seq<char>) -> Seq<char> {
    text::trimmed(text::trimmed_end_of(text::trimmed(s), ';'))
}

/// What a using declaration makes visible.
pub open spec fn using_target(s: Seq<char>) -> Option<Seq<char>> {
    match text::stripped(unterminated(s), "using namespace "@) {
        Some(rest) => Some("namespace "@ + text::trimmed(rest)),
        None => match text::stripped(unterminated(s), "using "@) {
            Some(rest) => if text::has_char(text::trimmed(rest), '=') || text::trimmed(rest).len()
                == 0 {
                None
            } else {
                Some(text::trimmed(rest))
            },
            None => None,
        },
    }
}

pub open spec fn with_using_at(c: SemaView, t: SyntaxTree, n: usize, scope: ScopeId) -> SemaView {
    match using_target(t.text(n)) {
        Some(target) => SemaView { scopes: c.scopes.with_using(scope, target), ..c },
        None => c,
    }
}

/// The name and the type of an alias that a text declares.
pub open spec fn alias_parts(c: SemaView, s: Seq<char>, scope: ScopeId) -> (
    SemaView,
    Option<(Seq<char>, TypeId)>,
) {
    match text::stripped(unterminated(s), "using "@) {
        None => (c, None),
        Some(behind) => {
            let rest = text::trimmed(behind);
            match text::behind_first(rest, '=') {
                None => (c, None),
                Some(target) => {
                    let (c1, id) = written_type(c, scope, text::trimmed(target));
                    (c1, Some((text::trimmed(text::first_part(rest, '=')), id)))
                },
            }
        },
    }
}

/// The name and the type of a type definition.
pub open spec fn definition_parts(c: SemaView, t: SyntaxTree, n: usize, scope: ScopeId) -> (
    SemaView,
    Option<(Seq<char>, TypeId)>,
) {
    match t.by_field(n, FieldName::Declarator) {
        None => (c, None),
        Some(d) => match name_node(t, d) {
            None => (c, None),
            Some(m) => if t.by_field(n, FieldName::Type) is None {
                (c, None)
            } else {
                let (c1, id) = declared_type_at(c, t, n, scope, Some(d));
                (c1, Some((text::trimmed(t.text(m)), id)))
            },
        },
    }
}

/// The context in which a typedef or an alias is declared.
pub open spec fn with_typedef_at(c: SemaView, t: SyntaxTree, n: usize, scope: ScopeId) -> SemaView {
    let (c1, parts) = if t.at(n).kind == NodeKind::AliasDeclaration {
        alias_parts(c, t.text(n), scope)
    } else {
        definition_parts(c, t, n, scope)
    };
    match parts {
        None => c1,
        Some((name, aliased)) => if name.len() == 0 {
            c1
        } else {
            let shape = TypeShape::Typedef { name, aliased };
            declaring(
                knowing(c1, shape),
                scope,
                name,
                SymbolShape::Typedef { type_id: c1.types.id_of(shape) },
            )
        },
    }
}

/// The node that names what a declaration declares.
pub open spec fn variable_name_node(t: SyntaxTree, n: usize) -> Option<usize> {
    let inner = match t.by_field(n, FieldName::Declarator) {
        Some(d) => name_node(t, d),
        None => None,
    };
    match inner {
        Some(m) => Some(m),
        None => name_node(t, n),
    }
}

/// The context in which the variable, field or parameter of a node is declared.
pub open spec fn with_variable_at(
    c: SemaView,
    t: SyntaxTree,
    n: usize,
    scope: ScopeId,
    class: Option<ClassId>,
    storage: Storage,
) -> SemaView {
    match variable_name_node(t, n) {
        None => c,
        Some(m) => {
            let name = text::trimmed(t.text(m));
            if name.len() == 0 {
                c
            } else {
                let (c1, type_id) = declared_type_at(
                    c,
                    t,
                    n,
                    scope,
                    t.by_field(n, FieldName::Declarator),
                );
                let kind = if t.at(n).kind == NodeKind::ParameterDeclaration {
                    SymbolShape::Variable { type_id, storage: Storage::Parameter }
                } else if class is Some && t.at(n).kind == NodeKind::FieldDeclaration {
                    SymbolShape::Field { owner: class->0, type_id, access: Access::Public }
                } else {
                    SymbolShape::Variable { type_id, storage }
                };
                declaring(using(c1, type_id), scope, name, kind)
            }
        },
    }
}

/// The types of the parameters of a list from its child `k` on.
pub open spec fn param_types_from(c: SemaView, t: SyntaxTree, n: usize, k: int, scope: ScopeId) -> (
    SemaView,
    Seq<TypeId>,
)
    decreases t.kids(n).len() - k,
{
    if k < 0 || k >= t.kids(n).len() {
        (c, Seq::empty())
    } else if t.at(t.kids(n)[k]).kind == NodeKind::ParameterDeclaration {
        let (c1, first) = declared_type_at(
            c,
            t,
            t.kids(n)[k],
            scope,
            t.by_field(t.kids(n)[k], FieldName::Declarator),
        );
        let (c2, rest) = param_types_from(c1, t, n, k + 1, scope);
        (c2, seq![first] + rest)
    } else {
        param_types_from(c, t, n, k + 1, scope)
    }
}

/// How many parameters before child `upto` of a list have no default.
pub open spec fn required_params(t: SyntaxTree, n: usize, upto: int) -> nat
    decreases upto,
{
    if upto <= 0 {
        0
    } else {
        let x = t.kids(n)[upto - 1];
        required_params(t, n, upto - 1) + if t.at(x).kind == NodeKind::ParameterDeclaration
            && t.descendant(x, NodeKind::DefaultArgument) is None {
            1nat
        } else {
            0nat
        }
    }
}

/// The types of the parameters of a function and how many of them must be given.
pub open spec fn function_params(c: SemaView, t: SyntaxTree, declarator: usize, scope: ScopeId) -> (
    SemaView,
    Seq<TypeId>,
    usize,
) {
    match t.descendant(declarator, NodeKind::ParameterList) {
        None => (c, Seq::empty(), 0),
        Some(l) => {
            let (c1, types) = param_types_from(c, t, l, 0, scope);
            (c1, types, required_params(t, l, t.kids(l).len() as int) as usize)
        },
    }
}

pub open spec fn using_all(c: SemaView, ids: Seq<TypeId>, k: int) -> SemaView
    decreases ids.len() - k,
{
    if k < 0 || k >= ids.len() {
        c
    } else {
        using_all(using(c, ids[k]), ids, k + 1)
    }
}

/// The context in which the parameters of a list from its child `k` on are declared.
pub open spec fn with_parameters_from(
    c: SemaView,
    t: SyntaxTree,
    n: usize,
    k: int,
    scope: ScopeId,
    class: Option<ClassId>,
) -> SemaView
    decreases t.kids(n).len() - k,
{
    if k < 0 || k >= t.kids(n).len() {
        c
    } else {
        let x = t.kids(n)[k];
        let next = if t.at(x).kind == NodeKind::ParameterDeclaration || t.at(x).kind
            == NodeKind::OptionalParameterDeclaration {
            with_variable_at(c, t, x, scope, class, Storage::Parameter)
        } else {
            c
        };
        with_parameters_from(next, t, n, k + 1, scope, class)
    }
}

/// The declarator of a function.
pub open spec fn declarator_of(t: SyntaxTree, n: usize) -> Option<usize> {
    match t.by_field(n, FieldName::Declarator) {
        Some(d) => Some(d),
        None => t.descendant(n, NodeKind::FunctionDeclarator),
    }
}

/// The declarator and the name of a function that has both.
pub open spec fn named_function(t: SyntaxTree, n: usize) -> Option<(usize, Seq<char>)> {
    match declarator_of(t, n) {
        None => None,
        Some(d) => match name_node(t, d) {
            None => None,
            Some(m) => if text::trimmed(t.text(m)).len() == 0 {
                None
            } else {
                Some((d, text::trimmed(t.text(m))))
            },
        },
    }
}

/// The context in which a function or method is declared, with the scope of its body.
pub open spec fn with_function_at(
    c: SemaView,
    t: SyntaxTree,
    n: usize,
    scope: ScopeId,
    class: Option<ClassId>,
    is_definition: bool,
    d: usize,
    name: Seq<char>,
) -> (SemaView, ScopeId) {
    let (c1, inner) = template_scope(c, scope, scope_params(t, n));
    let (c2, return_t) = declared_type_at(c1, t, n, inner, Some(d));
    let (c3, params, min_arity) = function_params(using(c2, return_t), t, d, inner);
    let c4 = using_all(c3, params, 0);
    let shape = TypeShape::Function {
        return_t,
        params,
        min_arity,
        is_variadic: text::has(t.text(d), "..."@),
        is_const_member: text::has(t.text(n), " const"@),
    };
    let type_id = c4.types.id_of(shape);
    let kind = match class {
        Some(owner) => SymbolShape::Method {
            owner,
            type_id,
            access: Access::Public,
            is_static: text::has(t.text(n), "static "@),
            is_virtual: text::has(t.text(n), "virtual "@),
            is_override: text::has(t.text(n), " override"@),
        },
        None => SymbolShape::Function {
            decls: seq![
                FuncOverload {
                    type_id,
                    source: SourceRef {
                        line: t.at(n).start_row as u32,
                        column: t.at(n).start_column as u32,
                    },
                    is_definition,
                },
            ],
        },
    };
    let c5 = knowing(c4, shape);
    let c6 = declaring(c5, scope, name, kind);
    let body = c6.scopes.next_id();
    let c7 = owning(
        attached(nested(c6, inner, ScopeKind::Function), t, n, body),
        body,
        c5.symbols.next_id(),
    );
    (
        match t.descendant(d, NodeKind::ParameterList) {
            Some(l) => with_parameters_from(c7, t, l, 0, body, class),
            None => c7,
        },
        body,
    )
}

pub open spec fn declares_function(t: SyntaxTree, n: usize) -> bool {
    match t.by_field(n, FieldName::Declarator) {
        Some(d) => t.descendant(d, NodeKind::FunctionDeclarator) is Some,
        None => false,
    }
}

pub open spec fn loops(kind: NodeKind) -> bool {
    kind == NodeKind::ForStatement || kind == NodeKind::ForRangeLoop || kind
        == NodeKind::RangeBasedForStatement
}

/// The context in which the declarations of a node are known.
pub open spec fn walked(c: SemaView, t: SyntaxTree, n: usize, scope: ScopeId, class: Option<ClassId>) -> SemaView
    decreases t.nodes@.len() - n, 2nat, 0nat,
    when t.has(n)
{
    let kind = t.at(n).kind;
    if kind == NodeKind::NamespaceDefinition {
        let (c1, inner) = with_namespaces(c, scope, segments(namespace_name(t, n)), 0);
        walked_from(attached(c1, t, n, inner), t, n, 0, inner, class)
    } else if declares_class(kind) && declared_type_name(t, n).len() > 0 {
        let (c1, inner, id) = with_class_at(c, t, n, scope, declared_type_name(t, n));
        walked_from(c1, t, n, 0, inner, Some(id))
    } else if kind == NodeKind::EnumSpecifier || kind == NodeKind::UnrealReflectedEnumDeclaration {
        walked_from(with_enum_at(c, t, n, scope), t, n, 0, scope, class)
    } else if kind == NodeKind::TypeDefinition || kind == NodeKind::AliasDeclaration {
        with_typedef_at(c, t, n, scope)
    } else if kind == NodeKind::UsingDeclaration || kind == NodeKind::UsingDirective {
        with_using_at(c, t, n, scope)
    } else if kind == NodeKind::FunctionDefinition || kind == NodeKind::UnrealFunctionDefinition {
        walked_function(c, t, n, scope, class, true)
    } else if kind == NodeKind::Declaration || kind == NodeKind::FieldDeclaration {
        if declares_function(t, n) {
            walked_function(c, t, n, scope, class, false)
        } else {
            walked_from(
                with_variable_at(c, t, n, scope, class, Storage::Local),
                t,
                n,
                0,
                scope,
                class,
            )
        }
    } else if kind == NodeKind::ParameterDeclaration {
        with_variable_at(c, t, n, scope, class, Storage::Parameter)
    } else if kind == NodeKind::CompoundStatement || loops(kind) {
        let inner = c.scopes.next_id();
        walked_from(attached(nested(c, scope, ScopeKind::Block), t, n, inner), t, n, 0, inner, class)
    } else if kind == NodeKind::LambdaExpression {
        let inner = c.scopes.next_id();
        walked_from(
            attached(nested(c, scope, ScopeKind::Function), t, n, inner),
            t,
            n,
            0,
            inner,
            class,
        )
    } else {
        walked_from(c, t, n, 0, scope, class)
    }
}

pub open spec fn walked_from(
    c: SemaView,
    t: SyntaxTree,
    n: usize,
    k: int,
    scope: ScopeId,
    class: Option<ClassId>,
) -> SemaView
    decreases t.nodes@.len() - n, 0nat, t.kids(n).len() - k,
    when t.has(n) && 0 <= k <= t.kids(n).len()
{
    if k >= t.kids(n).len() {
        c
    } else {
        walked_from(walked(c, t, t.kids(n)[k], scope, class), t, n, k + 1, scope, class)
    }
}

pub open spec fn walked_function(
    c: SemaView,
    t: SyntaxTree,
    n: usize,
    scope: ScopeId,
    class: Option<ClassId>,
    is_definition: bool,
) -> SemaView
    decreases t.nodes@.len() - n, 1nat, 0nat,
    when t.has(n) && t.at(n).kind != NodeKind::CompoundStatement
{
    match named_function(t, n) {
        None => walked_from(c, t, n, 0, scope, class),
        Some((d, name)) => {
            let (c1, body) = with_function_at(c, t, n, scope, class, is_definition, d, name);
            match t.descendant(n, NodeKind::CompoundStatement) {
                Some(b) => {
                    proof {
                        lemma_descendant(t, n, NodeKind::CompoundStatement);
                    }
                    walked(c1, t, b, body, class)
                },
                None => c1,
            }
        },
    }
}

/// The context before anything is declared.
pub open spec fn empty_context(source: Seq<char>, aliases: Seq<(Seq<char>, super::types::BuiltinType)>) -> SemaView {
    SemaView {
        types: first_types(),
        symbols: SymbolsView::empty(),
        scopes: ScopesView {
            scopes: seq![empty_scope(None, ScopeKind::Global)],
            global: ScopeId(0),
        },
        node_scopes: Seq::empty(),
        owners: Map::empty(),
        template_params: Map::empty(),
        aliases,
        source: Some(source),
        char_t: None,
        char_ptr_t: None,
    }
}

/// The context that the declarations under a node make.
pub open spec fn built(
    t: SyntaxTree,
    root: usize,
    source: Seq<char>,
    aliases: Seq<(Seq<char>, super::types::BuiltinType)>,
) -> SemaView {
    let c = attached(empty_context(source, aliases), t, root, ScopeId(0));
    with_helpers(walked(c, t, root, ScopeId(0), None))
}

fn add_symbol(ctx: &mut SemaContext, scope_id: ScopeId, name: String, kind: SymbolKind) -> (id: SymbolId)
    ensures
        final(ctx)@ == declaring(old(ctx)@, scope_id, name@, kind@),
        id == old(ctx)@.symbols.next_id(),
{
    let copy = text::copy_of(&name);
    let id = ctx.symbols.add_symbol(copy, scope_id, kind);
    ctx.scopes.declare(scope_id, name, id);
    id
}

fn attach_scope(ctx: &mut SemaContext, t: &SyntaxTree, n: usize, scope_id: ScopeId)
    requires
        t.has(n),
    ensures
        final(ctx)@ == attached(old(ctx)@, *t, n, scope_id),
{
    ctx.node_scopes.push((t.nodes[n].start_byte, t.nodes[n].end_byte, scope_id));
}

fn add_scope(ctx: &mut SemaContext, scope_id: ScopeId, kind: ScopeKind) -> (id: ScopeId)
    ensures
        final(ctx)@ == nested(old(ctx)@, scope_id, kind),
        id == old(ctx)@.scopes.next_id(),
{
    ctx.scopes.add_scope(Some(scope_id), kind)
}

fn own_scope(ctx: &mut SemaContext, scope_id: ScopeId, symbol_id: SymbolId)
    ensures
        final(ctx)@ == owning(old(ctx)@, scope_id, symbol_id),
{
    ctx.scope_owner_symbols.insert(scope_id.0, symbol_id);
}

fn ensure_namespace_segment(ctx: &mut SemaContext, scope_id: ScopeId, name: &str) -> (r: ScopeId)
    ensures
        (final(ctx)@, r) == with_namespace(old(ctx)@, scope_id, name@),
{
    let ids = ctx.scopes.ids_named(scope_id, name);
    let n: usize = ids.len();
    let mut i: usize = 0;
    while i < n
        invariant
            *ctx == *old(ctx),
            n == ids@.len(),
            i <= n,
            ids@ == ctx@.scopes.named(scope_id, name@),
            namespace_among(ctx@, ids@, 0) == namespace_among(ctx@, ids@, i as int),
        decreases n - i,
    {
        match ctx.symbols.get(ids[i]) {
            Some(symbol) => {
                match &symbol.kind {
                    SymbolKind::Namespace { children } => {
                        return *children;
                    },
                    _ => {},
                }
            },
            None => {},
        }
        i = i + 1;
    }
    let children = add_scope(ctx, scope_id, ScopeKind::Namespace);
    let symbol_id = add_symbol(
        ctx,
        scope_id,
        text::copy_of(name),
        SymbolKind::Namespace { children },
    );
    own_scope(ctx, children, symbol_id);
    children
}

fn ensure_namespace_scope(ctx: &mut SemaContext, scope_id: ScopeId, name: &str) -> (r: ScopeId)
    ensures
        (final(ctx)@, r) == with_namespaces(old(ctx)@, scope_id, segments(name@), 0),
{
    let names = path_segments(name);
    let ghost list = segments(name@);
    assert(list.len() == names@.len());
    let ghost whole = with_namespaces(ctx@, scope_id, list, 0);
    let mut current = scope_id;
    let n: usize = names.len();
    let mut i: usize = 0;
    while i < n
        invariant
            list == text::texts(names@),
            n == names@.len(),
            i <= n,
            whole == with_namespaces(ctx@, current, list, i as int),
        decreases n - i,
    {
        assert(list[i as int] == names@[i as int]@);
        current = ensure_namespace_segment(ctx, current, &names[i]);
        i = i + 1;
    }
    current
}

fn template_param(t: &SyntaxTree, n: usize) -> (r: Option<TemplateScopeParam>)
    requires
        t.has(n),
    ensures
        match r {
            Some(p) => scope_param(*t, n) == Some(p@),
            None => scope_param(*t, n) is None,
        },
{
    let kind = t.nodes[n].kind;
    if kind == NodeKind::TypeParameterDeclaration || kind
        == NodeKind::OptionalTypeParameterDeclaration {
        let name = type_param_name_at(t, n);
        if name.as_str().is_empty() {
            None
        } else {
            Some(TemplateScopeParam::Type { name })
        }
    } else if kind == NodeKind::ParameterDeclaration {
        let declared_type = match t.child_by_field(n, FieldName::Type) {
            Some(m) => clean_type_string(t.text_of(m)),
            None => String::new(),
        };
        let name = declared_name_at(t, t.child_by_field(n, FieldName::Declarator));
        if name.as_str().is_empty() || declared_type.as_str().is_empty() {
            None
        } else {
            Some(TemplateScopeParam::Value { name, declared_type })
        }
    } else {
        None
    }
}

fn template_params_for_parent(t: &SyntaxTree, n: usize) -> (r: Vec<TemplateScopeParam>)
    requires
        t.has(n),
    ensures
        param_shapes(r@) == scope_params(*t, n),
{
    let mut r: Vec<TemplateScopeParam> = Vec::new();
    assert(param_shapes(r@) =~= Seq::<ParamShape>::empty());
    let parent = match t.nodes[n].parent {
        Some(p) => p,
        None => {
            return r;
        },
    };
    assert(t.at(n).parent == Some(parent));
    if t.nodes[parent].kind != NodeKind::TemplateDeclaration {
        return r;
    }
    let list = match t.child_by_field(parent, FieldName::Parameters) {
        Some(l) => l,
        None => {
            return r;
        },
    };
    let c: usize = t.nodes[list].children.len();
    let mut k: usize = 0;
    let ghost whole = scope_params_from(*t, list, 0);
    while k < c
        invariant
            t.has(list),
            c == t.kids(list).len(),
            k <= c,
            whole =~= param_shapes(r@) + scope_params_from(*t, list, k as int),
        decreases c - k,
    {
        let ghost before = param_shapes(r@);
        match template_param(t, t.nodes[list].children[k]) {
            Some(p) => {
                r.push(p);
                assert(param_shapes(r@) =~= before.push(p@));
            },
            None => {},
        }
        k = k + 1;
    }
    assert(param_shapes(r@) =~= whole);
    r
}

/// Opens the scope of the template parameters; without any, the scope stays the one around.
fn register_template_param_scope(ctx: &mut SemaContext, scope_id: ScopeId, params: &Vec<TemplateScopeParam>) -> (r:
    ScopeId)
    ensures
        (final(ctx)@, r) == template_scope(old(ctx)@, scope_id, param_shapes(params@)),
{
    let ghost shapes = param_shapes(params@);
    assert(shapes.len() == params@.len());
    let n: usize = params.len();
    if n == 0 {
        return scope_id;
    }
    let inner = add_scope(ctx, scope_id, ScopeKind::Template);
    let ghost whole = with_params(ctx@, scope_id, inner, shapes, 0);
    let mut i: usize = 0;
    while i < n
        invariant
            shapes == param_shapes(params@),
            n == params@.len(),
            i <= n,
            whole == with_params(ctx@, scope_id, inner, shapes, i as int),
        decreases n - i,
    {
        assert(shapes[i as int] == params@[i as int]@);
        match &params[i] {
            TemplateScopeParam::Type { name } => {
                let type_id = know(ctx, TypeKind::Dependent(text::copy_of(name)));
                let _ = add_symbol(
                    ctx,
                    inner,
                    text::copy_of(name),
                    SymbolKind::Typedef { type_id },
                );
            },
            TemplateScopeParam::Value { name, declared_type } => {
                let type_id = resolve_type_text(ctx, scope_id, declared_type);
                let _ = add_symbol(
                    ctx,
                    inner,
                    text::copy_of(name),
                    SymbolKind::Variable { type_id, storage: Storage::Parameter },
                );
            },
        }
        i = i + 1;
    }
    inner
}

fn collect_parent_types(ctx: &mut SemaContext, t: &SyntaxTree, n: usize, scope_id: ScopeId) -> (r: Vec<TypeId>)
    requires
        t.has(n),
    ensures
        (final(ctx)@, r@) == parent_types(old(ctx)@, *t, n, scope_id),
{
    let mut r: Vec<TypeId> = Vec::new();
    let clause = match t.find_descendant(n, NodeKind::BaseClassClause) {
        Some(b) => b,
        None => {
            return r;
        },
    };
    let ghost whole = parent_types_from(ctx@, *t, clause, 0, scope_id);
    let c: usize = t.nodes[clause].children.len();
    let mut k: usize = 0;
    assert(whole.1 =~= r@ + whole.1);
    while k < c
        invariant
            t.has(clause),
            c == t.kids(clause).len(),
            k <= c,
            whole.0 == parent_types_from(ctx@, *t, clause, k as int, scope_id).0,
            whole.1 == r@ + parent_types_from(ctx@, *t, clause, k as int, scope_id).1,
        decreases c - k,
    {
        let x: usize = t.nodes[clause].children[k];
        let kind = t.nodes[x].kind;
        if kind == NodeKind::TypeIdentifier || kind == NodeKind::QualifiedIdentifier || kind
            == NodeKind::TemplateType {
            let ghost before = r@;
            let id = resolve_type_node(ctx, t, x, scope_id);
            r.push(id);
            let ghost rest = parent_types_from(ctx@, *t, clause, k + 1, scope_id).1;
            assert(before + (seq![id] + rest) =~= r@ + rest);
        }
        k = k + 1;
    }
    assert(r@ =~= whole.1);
    r
}

fn enclosing_namespaces(ctx: &SemaContext, scope_id: ScopeId) -> (r: Vec<String>)
    ensures
        text::texts(r@) == namespaces_around(
            ctx@,
            Some(scope_id),
            ctx@.scopes.scopes.len() + 1,
        ),
{
    let mut inner: Vec<SymbolId> = Vec::new();
    let mut current: Option<ScopeId> = Some(scope_id);
    let mut steps: u128 = ctx.scopes.len() as u128 + 1;
    let ghost whole = namespaces_around(ctx@, current, steps as nat);
    assert(whole =~= whole + names_back(ctx@, inner@));
    while steps > 0
        invariant
            forall|j: int|
                0 <= j < inner@.len() ==> ctx@.symbols.symbol(#[trigger] inner@[j]) is Some,
            whole == namespaces_around(ctx@, current, steps as nat) + names_back(ctx@, inner@),
        ensures
            forall|j: int|
                0 <= j < inner@.len() ==> ctx@.symbols.symbol(#[trigger] inner@[j]) is Some,
            whole == names_back(ctx@, inner@),
        decreases steps,
    {
        match current {
            None => {
                assert(Seq::<Seq<char>>::empty() + names_back(ctx@, inner@) =~= names_back(
                    ctx@,
                    inner@,
                ));
                break ;
            },
            Some(id) => {
                let ghost outer = namespaces_around(
                    ctx@,
                    ctx@.scopes.parent(id),
                    (steps - 1) as nat,
                );
                match ctx.scope_owner_symbols.get(&id.0) {
                    Some(owner) => {
                        match ctx.symbols.get(*owner) {
                            Some(symbol) => {
                                match &symbol.kind {
                                    SymbolKind::Namespace { .. } => {
                                        let ghost before = inner@;
                                        inner.push(*owner);
                                        assert(names_back(ctx@, inner@) =~= seq![
                                            ctx@.symbols.symbol(*owner)->0.name,
                                        ] + names_back(ctx@, before));
                                        assert(outer.push(ctx@.symbols.symbol(*owner)->0.name)
                                            + names_back(ctx@, before) =~= outer + names_back(
                                            ctx@,
                                            inner@,
                                        ));
                                    },
                                    _ => {},
                                }
                            },
                            None => {},
                        }
                    },
                    None => {},
                }
                current = ctx.scopes.parent_of(id);
            },
        }
        steps = steps - 1;
        assert(steps == 0 ==> namespaces_around(ctx@, current, 0) + names_back(ctx@, inner@)
            =~= names_back(ctx@, inner@));
    }
    let mut r: Vec<String> = Vec::new();
    let n: usize = inner.len();
    let mut i: usize = 0;
    while i < n
        invariant
            n == inner@.len(),
            i <= n,
            r@.len() == i,
            forall|j: int|
                0 <= j < inner@.len() ==> ctx@.symbols.symbol(#[trigger] inner@[j]) is Some,
            forall|j: int|
                0 <= j < i ==> (#[trigger] r@[j])@ == ctx@.symbols.symbol(
                    inner@[n - 1 - j],
                )->0.name,
        decreases n - i,
    {
        assert(ctx@.symbols.symbol(inner@[n - 1 - i]) is Some);
        match ctx.symbols.get(inner[n - 1 - i]) {
            Some(symbol) => {
                r.push(text::copy_of(&symbol.name));
            },
            None => {
                r.push(String::new());
            },
        }
        i = i + 1;
    }
    assert(text::texts(r@) =~= names_back(ctx@, inner@));
    r
}

/// The names of the symbols, the last first.
spec fn names_back(c: SemaView, ids: Seq<SymbolId>) -> Seq<Seq<char>> {
    Seq::new(ids.len(), |j: int| c.symbols.symbol(ids[ids.len() - 1 - j])->0.name)
}

fn qualified_name_in_scope(ctx: &SemaContext, scope_id: ScopeId, name: &str) -> (r: String)
    ensures
        r@ == qualified_in(ctx@, scope_id, name@),
{
    let mut list = enclosing_namespaces(ctx, scope_id);
    let ghost before = text::texts(list@);
    list.push(text::copy_of(name));
    assert(text::texts(list@) =~= before.push(name@));
    text::join(&list, "::")
}

fn explicit_specialization_local_name(t: &SyntaxTree, n: usize, name: &str) -> (r: Option<String>)
    requires
        t.has(n),
    ensures
        text::opt_text(r) == specialized_name(*t, n, name@),
{
    let parent = match t.nodes[n].parent {
        Some(p) => p,
        None => {
            return None;
        },
    };
    assert(t.at(n).parent == Some(parent));
    if t.nodes[parent].kind != NodeKind::TemplateDeclaration {
        return None;
    }
    let head = text::trim_start(t.text_of(parent));
    if !text::starts_with(head, "template<>") && !text::starts_with(head, "template <>") {
        return None;
    }
    if text::contains_char(name, '<') {
        return Some(text::copy_of(name));
    }
    let whole = t.text_of(n);
    proof {
        text::lemma_find_from(whole@, name@, 0);
    }
    match text::find_text(whole, name) {
        None => None,
        Some(i) => {
            let end: usize = whole.unicode_len();
            let len: usize = name.unicode_len();
            match extract_template_suffix(whole.substring_char(i + len, end)) {
                Some(suffix) => Some(text::concat2(name, &suffix)),
                None => None,
            }
        },
    }
}

fn class_registration_names(ctx: &SemaContext, t: &SyntaxTree, n: usize, scope_id: ScopeId, name: &str) -> (r: (
    String,
    String,
))
    requires
        t.has(n),
    ensures
        (r.0@, r.1@) == class_names(ctx@, *t, n, scope_id, name@),
{
    match explicit_specialization_local_name(t, n, name) {
        Some(s) => {
            let qualified = qualified_name_in_scope(ctx, scope_id, &s);
            if qualified.as_str().is_empty() {
                (text::copy_of(&s), s)
            } else {
                (qualified, s)
            }
        },
        None => (text::copy_of(name), text::copy_of(name)),
    }
}

fn class_like_name_node(t: &SyntaxTree, n: usize) -> (r: Option<usize>)
    requires
        t.has(n),
    ensures
        r == type_name_node(*t, n),
        r matches Some(m) ==> t.has(m),
{
    match t.child_by_field(n, FieldName::Name) {
        Some(m) => Some(m),
        None => find_direct_child(t, n, NodeKind::TypeIdentifier, NodeKind::Identifier),
    }
}

fn class_like_name(t: &SyntaxTree, n: usize) -> (r: String)
    requires
        t.has(n),
    ensures
        r@ == declared_type_name(*t, n),
{
    match class_like_name_node(t, n) {
        Some(m) => text::copy_of(text::trim(t.text_of(m))),
        None => String::new(),
    }
}

fn register_class(ctx: &mut SemaContext, t: &SyntaxTree, n: usize, scope_id: ScopeId, name: &str) -> (r: (
    ScopeId,
    ClassId,
))
    requires
        t.has(n),
    ensures
        (final(ctx)@, r.0, r.1) == with_class_at(old(ctx)@, *t, n, scope_id, name@),
{
    let (class_name, symbol_name) = class_registration_names(ctx, t, n, scope_id, name);
    let params = template_params_for_parent(t, n);
    assert(param_shapes(params@).len() == params@.len());
    let class_id = ctx.symbols.new_class_id(&class_name);
    let parents = collect_parent_types(ctx, t, n, scope_id);
    let type_id = know(ctx, TypeKind::Class(class_id));
    let outer = register_template_param_scope(ctx, scope_id, &params);
    let class_scope = add_scope(ctx, outer, ScopeKind::Class);
    ctx.symbols.set_class_scope(class_id, class_scope);
    ctx.symbols.set_class_parents(class_id, copy_ids(&parents));
    if params.len() > 0 {
        let ghost before = ctx@;
        ctx.class_template_params.insert(class_id.0, params);
        assert(ctx@.template_params =~= before.template_params.insert(
            class_id.0,
            param_shapes(params@),
        ));
    }
    attach_scope(ctx, t, n, class_scope);
    let kind = t.nodes[n].kind;
    let is_struct = kind == NodeKind::StructSpecifier || kind
        == NodeKind::UnrealReflectedStructDeclaration;
    let symbol_id = add_symbol(
        ctx,
        scope_id,
        symbol_name,
        SymbolKind::Class { class_id, type_id, parents, is_struct },
    );
    own_scope(ctx, class_scope, symbol_id);
    (class_scope, class_id)
}

fn register_enum(ctx: &mut SemaContext, t: &SyntaxTree, n: usize, scope_id: ScopeId)
    requires
        t.has(n),
    ensures
        final(ctx)@ == with_enum_at(old(ctx)@, *t, n, scope_id),
{
    let name = class_like_name(t, n);
    if !name.as_str().is_empty() {
        let enum_id = ctx.symbols.new_enum_id(&name);
        let type_id = know(ctx, TypeKind::Enum(enum_id));
        let _ = add_symbol(ctx, scope_id, name, SymbolKind::Enum { enum_id, type_id });
    }
}

fn without_semicolon(s: &str) -> (r: &str)
    ensures
        r@ == unterminated(s@),
{
    text::trim(text::trim_end_char(text::trim(s), ';'))
}

/// What a using declaration makes visible.
pub fn using_declaration_target(s: &str) -> (r: Option<String>)
    ensures
        text::opt_text(r) == using_target(s@),
{
    let whole = without_semicolon(s);
    match text::strip_prefix(whole, "using namespace ") {
        Some(rest) => Some(text::concat2("namespace ", text::trim(rest))),
        None => match text::strip_prefix(whole, "using ") {
            Some(rest) => {
                let candidate = text::trim(rest);
                if text::contains_char(candidate, '=') || candidate.is_empty() {
                    None
                } else {
                    Some(text::copy_of(candidate))
                }
            },
            None => None,
        },
    }
}

fn register_using_declaration(ctx: &mut SemaContext, t: &SyntaxTree, n: usize, scope_id: ScopeId)
    requires
        t.has(n),
    ensures
        final(ctx)@ == with_using_at(old(ctx)@, *t, n, scope_id),
{
    match using_declaration_target(t.text_of(n)) {
        Some(target) => {
            ctx.scopes.add_using(scope_id, target);
        },
        None => {},
    }
}

spec fn opt_pair(p: Option<(String, TypeId)>) -> Option<(Seq<char>, TypeId)> {
    match p {
        Some(x) => Some((x.0@, x.1)),
        None => None,
    }
}

fn alias_declaration_parts(ctx: &mut SemaContext, s: &str, scope_id: ScopeId) -> (r: Option<(String, TypeId)>)
    ensures
        (final(ctx)@, opt_pair(r)) == alias_parts(old(ctx)@, s@, scope_id),
{
    match text::strip_prefix(without_semicolon(s), "using ") {
        None => None,
        Some(behind) => {
            let rest = text::trim(behind);
            match text::behind_first_of(rest, '=') {
                None => None,
                Some(target) => {
                    let id = resolve_type_text(ctx, scope_id, text::trim(target));
                    Some((text::copy_of(text::trim(text::first_part_of(rest, '='))), id))
                },
            }
        },
    }
}

fn type_definition_parts(ctx: &mut SemaContext, t: &SyntaxTree, n: usize, scope_id: ScopeId) -> (r: Option<
    (String, TypeId),
>)
    requires
        t.has(n),
    ensures
        (final(ctx)@, opt_pair(r)) == definition_parts(old(ctx)@, *t, n, scope_id),
{
    match t.child_by_field(n, FieldName::Declarator) {
        None => None,
        Some(d) => match find_name_node(t, d) {
            None => None,
            Some(m) => if t.child_by_field(n, FieldName::Type).is_none() {
                None
            } else {
                let name = text::copy_of(text::trim(t.text_of(m)));
                let id = type_of_declaration(ctx, t, n, scope_id, Some(d));
                Some((name, id))
            },
        },
    }
}

fn register_typedef_like(ctx: &mut SemaContext, t: &SyntaxTree, n: usize, scope_id: ScopeId)
    requires
        t.has(n),
    ensures
        final(ctx)@ == with_typedef_at(old(ctx)@, *t, n, scope_id),
{
    let parts = if t.nodes[n].kind == NodeKind::AliasDeclaration {
        alias_declaration_parts(ctx, t.text_of(n), scope_id)
    } else {
        type_definition_parts(ctx, t, n, scope_id)
    };
    match parts {
        None => {},
        Some((name, aliased)) => {
            if !name.as_str().is_empty() {
                let copy = text::copy_of(&name);
                let type_id = know(ctx, TypeKind::Typedef { name: copy, aliased });
                let _ = add_symbol(ctx, scope_id, name, SymbolKind::Typedef { type_id });
            }
        },
    }
}

fn declared_name_node(t: &SyntaxTree, n: usize) -> (r: Option<usize>)
    requires
        t.has(n),
    ensures
        r == variable_name_node(*t, n),
        r matches Some(m) ==> t.has(m),
{
    let inner: Option<usize> = match t.child_by_field(n, FieldName::Declarator) {
        Some(d) => find_name_node(t, d),
        None => None,
    };
    match inner {
        Some(m) => Some(m),
        None => find_name_node(t, n),
    }
}

fn register_variable_like(
    ctx: &mut SemaContext,
    t: &SyntaxTree,
    n: usize,
    scope_id: ScopeId,
    current_class: Option<ClassId>,
    storage: Storage,
)
    requires
        t.has(n),
    ensures
        final(ctx)@ == with_variable_at(old(ctx)@, *t, n, scope_id, current_class, storage),
{
    let name = match declared_name_node(t, n) {
        Some(m) => text::trim(t.text_of(m)),
        None => {
            return ;
        },
    };
    if name.is_empty() {
        return ;
    }
    let declarator = t.child_by_field(n, FieldName::Declarator);
    let type_id = type_of_declaration(ctx, t, n, scope_id, declarator);
    materialize_template_instance_usage(ctx, type_id);
    let node_kind = t.nodes[n].kind;
    let kind = if node_kind == NodeKind::ParameterDeclaration {
        SymbolKind::Variable { type_id, storage: Storage::Parameter }
    } else {
        match current_class {
            Some(owner) => if node_kind == NodeKind::FieldDeclaration {
                SymbolKind::Field { owner, type_id, access: Access::Public }
            } else {
                SymbolKind::Variable { type_id, storage }
            },
            None => SymbolKind::Variable { type_id, storage },
        }
    };
    let _ = add_symbol(ctx, scope_id, text::copy_of(name), kind);
}

fn function_parameter_info(ctx: &mut SemaContext, t: &SyntaxTree, declarator: usize, scope_id: ScopeId) -> (r: (
    Vec<TypeId>,
    usize,
))
    requires
        t.has(declarator),
    ensures
        (final(ctx)@, r.0@, r.1) == function_params(old(ctx)@, *t, declarator, scope_id),
{
    let mut out: Vec<TypeId> = Vec::new();
    let mut min_arity: usize = 0;
    let list = match t.find_descendant(declarator, NodeKind::ParameterList) {
        Some(l) => l,
        None => {
            return (out, 0);
        },
    };
    let ghost whole = param_types_from(ctx@, *t, list, 0, scope_id);
    let c: usize = t.nodes[list].children.len();
    let mut k: usize = 0;
    assert(whole.1 =~= out@ + whole.1);
    while k < c
        invariant
            t.has(list),
            c == t.kids(list).len(),
            k <= c,
            min_arity == required_params(*t, list, k as int),
            min_arity <= k,
            whole.0 == param_types_from(ctx@, *t, list, k as int, scope_id).0,
            whole.1 == out@ + param_types_from(ctx@, *t, list, k as int, scope_id).1,
        decreases c - k,
    {
        let x: usize = t.nodes[list].children[k];
        if t.nodes[x].kind == NodeKind::ParameterDeclaration {
            let ghost before = out@;
            let d = t.child_by_field(x, FieldName::Declarator);
            let id = type_of_declaration(ctx, t, x, scope_id, d);
            out.push(id);
            let ghost rest = param_types_from(ctx@, *t, list, k + 1, scope_id).1;
            assert(before + (seq![id] + rest) =~= out@ + rest);
            if t.find_descendant(x, NodeKind::DefaultArgument).is_none() {
                min_arity = min_arity + 1;
            }
        }
        k = k + 1;
    }
    assert(out@ =~= whole.1);
    (out, min_arity)
}

fn materialize_all(ctx: &mut SemaContext, ids: &Vec<TypeId>)
    ensures
        final(ctx)@ == using_all(old(ctx)@, ids@, 0),
{
    let ghost whole = using_all(ctx@, ids@, 0);
    let n: usize = ids.len();
    let mut i: usize = 0;
    while i < n
        invariant
            n == ids@.len(),
            i <= n,
            whole == using_all(ctx@, ids@, i as int),
        decreases n - i,
    {
        materialize_template_instance_usage(ctx, ids[i]);
        i = i + 1;
    }
}

fn register_parameters(
    ctx: &mut SemaContext,
    t: &SyntaxTree,
    declarator: usize,
    scope_id: ScopeId,
    current_class: Option<ClassId>,
)
    requires
        t.has(declarator),
    ensures
        final(ctx)@ == match t.descendant(declarator, NodeKind::ParameterList) {
            Some(l) => with_parameters_from(old(ctx)@, *t, l, 0, scope_id, current_class),
            None => old(ctx)@,
        },
{
    let list = match t.find_descendant(declarator, NodeKind::ParameterList) {
        Some(l) => l,
        None => {
            return ;
        },
    };
    let ghost whole = with_parameters_from(ctx@, *t, list, 0, scope_id, current_class);
    let c: usize = t.nodes[list].children.len();
    let mut k: usize = 0;
    while k < c
        invariant
            t.has(list),
            c == t.kids(list).len(),
            k <= c,
            whole == with_parameters_from(ctx@, *t, list, k as int, scope_id, current_class),
        decreases c - k,
    {
        let x: usize = t.nodes[list].children[k];
        let kind = t.nodes[x].kind;
        if kind == NodeKind::ParameterDeclaration || kind
            == NodeKind::OptionalParameterDeclaration {
            register_variable_like(ctx, t, x, scope_id, current_class, Storage::Parameter);
        }
        k = k + 1;
    }
}

spec fn opt_named(p: Option<(usize, String)>) -> Option<(usize, Seq<char>)> {
    match p {
        Some(x) => Some((x.0, x.1@)),
        None => None,
    }
}

fn function_name_of(t: &SyntaxTree, n: usize) -> (r: Option<(usize, String)>)
    requires
        t.has(n),
    ensures
        opt_named(r) == named_function(*t, n),
        r matches Some(p) ==> t.has(p.0),
{
    let declarator: Option<usize> = match t.child_by_field(n, FieldName::Declarator) {
        Some(d) => Some(d),
        None => t.find_descendant(n, NodeKind::FunctionDeclarator),
    };
    match declarator {
        None => None,
        Some(d) => match find_name_node(t, d) {
            None => None,
            Some(m) => {
                let name = text::trim(t.text_of(m));
                if name.is_empty() {
                    None
                } else {
                    Some((d, text::copy_of(name)))
                }
            },
        },
    }
}

fn declare_function(
    ctx: &mut SemaContext,
    t: &SyntaxTree,
    n: usize,
    scope_id: ScopeId,
    current_class: Option<ClassId>,
    is_definition: bool,
    declarator: usize,
    name: String,
) -> (r: ScopeId)
    requires
        t.has(n),
        t.has(declarator),
    ensures
        (final(ctx)@, r) == with_function_at(
            old(ctx)@,
            *t,
            n,
            scope_id,
            current_class,
            is_definition,
            declarator,
            name@,
        ),
{
    let template_params = template_params_for_parent(t, n);
    let inner = register_template_param_scope(ctx, scope_id, &template_params);
    let return_t = type_of_declaration(ctx, t, n, inner, Some(declarator));
    materialize_template_instance_usage(ctx, return_t);
    let (params, min_arity) = function_parameter_info(ctx, t, declarator, inner);
    materialize_all(ctx, &params);
    let whole = t.text_of(n);
    let type_id = know(
        ctx,
        TypeKind::Function {
            return_t,
            params,
            min_arity,
            is_variadic: text::contains_text(t.text_of(declarator), "..."),
            is_const_member: text::contains_text(whole, " const"),
        },
    );
    let kind = match current_class {
        Some(owner) => SymbolKind::Method {
            owner,
            type_id,
            access: Access::Public,
            is_static: text::contains_text(whole, "static "),
            is_virtual: text::contains_text(whole, "virtual "),
            is_override: text::contains_text(whole, " override"),
        },
        None => {
            let mut decls: Vec<FuncOverload> = Vec::new();
            decls.push(
                FuncOverload {
                    type_id,
                    source: SourceRef {
                        line: t.nodes[n].start_row as u32,
                        column: t.nodes[n].start_column as u32,
                    },
                    is_definition,
                },
            );
            assert(decls@ =~= seq![decls@[0]]);
            SymbolKind::Function { decls }
        },
    };
    let symbol_id = add_symbol(ctx, scope_id, name, kind);
    let body = add_scope(ctx, inner, ScopeKind::Function);
    attach_scope(ctx, t, n, body);
    own_scope(ctx, body, symbol_id);
    register_parameters(ctx, t, declarator, body, current_class);
    body
}

fn register_function(
    ctx: &mut SemaContext,
    t: &SyntaxTree,
    n: usize,
    scope_id: ScopeId,
    current_class: Option<ClassId>,
    is_definition: bool,
)
    requires
        t.has(n),
        t.at(n).kind != NodeKind::CompoundStatement,
    ensures
        final(ctx)@ == walked_function(
            old(ctx)@,
            *t,
            n,
            scope_id,
            current_class,
            is_definition,
        ),
    decreases t.nodes@.len() - n, 1nat,
{
    match function_name_of(t, n) {
        None => {
            walk_children(ctx, t, n, scope_id, current_class);
        },
        Some((declarator, name)) => {
            let body = declare_function(
                ctx,
                t,
                n,
                scope_id,
                current_class,
                is_definition,
                declarator,
                name,
            );
            proof {
                lemma_descendant(*t, n, NodeKind::CompoundStatement);
            }
            match t.find_descendant(n, NodeKind::CompoundStatement) {
                Some(b) => {
                    walk(ctx, t, b, body, current_class);
                },
                None => {},
            }
        },
    }
}

fn is_function_like_declaration(t: &SyntaxTree, n: usize) -> (r: bool)
    requires
        t.has(n),
    ensures
        r == declares_function(*t, n),
{
    match t.child_by_field(n, FieldName::Declarator) {
        Some(d) => t.find_descendant(d, NodeKind::FunctionDeclarator).is_some(),
        None => false,
    }
}

fn walk_children(
    ctx: &mut SemaContext,
    t: &SyntaxTree,
    n: usize,
    scope_id: ScopeId,
    current_class: Option<ClassId>,
)
    requires
        t.has(n),
    ensures
        final(ctx)@ == walked_from(old(ctx)@, *t, n, 0, scope_id, current_class),
    decreases t.nodes@.len() - n, 0nat,
{
    let ghost whole = walked_from(ctx@, *t, n, 0, scope_id, current_class);
    let c: usize = t.nodes[n].children.len();
    let mut k: usize = 0;
    while k < c
        invariant
            t.has(n),
            c == t.kids(n).len(),
            k <= c,
            whole == walked_from(ctx@, *t, n, k as int, scope_id, current_class),
        decreases c - k,
    {
        walk(ctx, t, t.nodes[n].children[k], scope_id, current_class);
        k = k + 1;
    }
}

fn walk(ctx: &mut SemaContext, t: &SyntaxTree, n: usize, scope_id: ScopeId, current_class: Option<ClassId>)
    requires
        t.has(n),
    ensures
        final(ctx)@ == walked(old(ctx)@, *t, n, scope_id, current_class),
    decreases t.nodes@.len() - n, 2nat,
{
    let kind = t.nodes[n].kind;
    if kind == NodeKind::NamespaceDefinition {
        let name = match t.child_by_field(n, FieldName::Name) {
            Some(m) => {
                let name = text::trim(t.text_of(m));
                if name.is_empty() {
                    "<anonymous>"
                } else {
                    name
                }
            },
            None => "<anonymous>",
        };
        let inner = ensure_namespace_scope(ctx, scope_id, name);
        attach_scope(ctx, t, n, inner);
        walk_children(ctx, t, n, inner, current_class);
        return ;
    }
    if kind == NodeKind::ClassSpecifier || kind == NodeKind::StructSpecifier || kind
        == NodeKind::UnrealReflectedClassDeclaration || kind
        == NodeKind::UnrealReflectedStructDeclaration {
        let name = class_like_name(t, n);
        if !name.as_str().is_empty() {
            let (inner, class_id) = register_class(ctx, t, n, scope_id, &name);
            walk_children(ctx, t, n, inner, Some(class_id));
            return ;
        }
    } else if kind == NodeKind::EnumSpecifier || kind
        == NodeKind::UnrealReflectedEnumDeclaration {
        register_enum(ctx, t, n, scope_id);
    } else if kind == NodeKind::TypeDefinition || kind == NodeKind::AliasDeclaration {
        register_typedef_like(ctx, t, n, scope_id);
        return ;
    } else if kind == NodeKind::UsingDeclaration || kind == NodeKind::UsingDirective {
        register_using_declaration(ctx, t, n, scope_id);
        return ;
    } else if kind == NodeKind::FunctionDefinition || kind
        == NodeKind::UnrealFunctionDefinition {
        register_function(ctx, t, n, scope_id, current_class, true);
        return ;
    } else if kind == NodeKind::Declaration || kind == NodeKind::FieldDeclaration {
        if is_function_like_declaration(t, n) {
            register_function(ctx, t, n, scope_id, current_class, false);
            return ;
        }
        register_variable_like(ctx, t, n, scope_id, current_class, Storage::Local);
    } else if kind == NodeKind::ParameterDeclaration {
        register_variable_like(ctx, t, n, scope_id, current_class, Storage::Parameter);
        return ;
    } else if kind == NodeKind::CompoundStatement || kind == NodeKind::ForStatement || kind
        == NodeKind::ForRangeLoop || kind == NodeKind::RangeBasedForStatement {
        let inner = add_scope(ctx, scope_id, ScopeKind::Block);
        attach_scope(ctx, t, n, inner);
        walk_children(ctx, t, n, inner, current_class);
        return ;
    } else if kind == NodeKind::LambdaExpression {
        let inner = add_scope(ctx, scope_id, ScopeKind::Function);
        attach_scope(ctx, t, n, inner);
        walk_children(ctx, t, n, inner, current_class);
        return ;
    }
    walk_children(ctx, t, n, scope_id, current_class);
}

/// Reads the declarations under a node of a source.
pub fn build_sema(t: &SyntaxTree, root: usize, source: &str, aliases: BuiltinTypeAliases) -> (r: SemaContext)
    requires
        t.has(root),
    ensures
        r@ == built(*t, root, source@, aliases@),
{
    let mut ctx = SemaContext {
        types: TypeArena::new(),
        symbols: SymbolTable::new(),
        scopes: ScopeTree::new(),
        node_scopes: Vec::new(),
        scope_owner_symbols: HashMap::new(),
        class_template_params: HashMap::new(),
        aliases,
        source: Some(text::copy_of(source)),
        cached_char_t: None,
        cached_char_ptr_t: None,
    };
    assert(ctx@.template_params =~= Map::<u32, Seq<ParamShape>>::empty());
    assert(ctx@ =~= empty_context(source@, aliases@));
    let global = ctx.scopes.global;
    attach_scope(&mut ctx, t, root, global);
    walk(&mut ctx, t, root, global, None);
    attach_builtin_helpers(&mut ctx);
    ctx
}

} // verus!
