//! The types of expressions.
use vstd::prelude::*;

use super::lookup::{found, found_for_call, found_qualified};
use super::members::{
    first_type, member_signature, member_type, members_of_type, returned, scope_of,
    type_of_symbol,
};
use super::names::{path_segments, segments};
use super::overload::{
    callee_shapes, resolve_call_with_args, resolve_call_with_signatures, resolved, resolved_among,
    CallResult, CallShape, Callee,
};
use super::resolve::{char_pointer_type, char_type, existing_type_at, source_text};
use super::symbol::SymbolId;
use super::syntax::{
    lemma_by_field, lemma_descendant, lemma_named, next_declarator, next_declarator_node,
    FieldName, NodeKind, SyntaxTree,
};
use super::template::{call_return, callee_node, callee_of, collected, TemplateIndex};
use super::types::{compat_rank, rank_of, BuiltinType, Compat, CvQual, TypeId, TypeKind, TypeShape};
use super::{
    array_of, compat, pointer_to, reference_to, SemaContext, SemaView, SignatureView,
};
use crate::text;

verus! {

pub open spec fn text_of(c: SemaView, t: SyntaxTree, n: usize) -> Option<Seq<char>> {
    source_text(c, t, n)
}

/// A child by its field, or else by its position.
pub open spec fn field_or_child(t: SyntaxTree, n: usize, f: FieldName, k: int) -> Option<usize> {
    match t.by_field(n, f) {
        Some(m) => Some(m),
        None => t.child_at(n, k),
    }
}

pub fn child_or(t: &SyntaxTree, n: usize, f: FieldName, k: usize) -> (r: Option<usize>)
    requires
        t.has(n),
    ensures
        r == field_or_child(*t, n, f, k as int),
        r matches Some(m) ==> t.has(m) && m > n,
{
    match t.child_by_field(n, f) {
        Some(m) => Some(m),
        None => t.child(n, k),
    }
}

/// The parts of a qualified name; nothing where a part is blank.
pub open spec fn name_parts(c: SemaView, t: SyntaxTree, n: usize) -> Option<Seq<Seq<char>>>
    decreases t.nodes@.len() - n,
    when t.has(n)
{
    if t.at(n).kind != NodeKind::QualifiedIdentifier {
        match text_of(c, t, n) {
            None => None,
            Some(s) => if text::trimmed(s).len() == 0 {
                None
            } else {
                Some(segments(text::trimmed(s)))
            },
        }
    } else {
        proof {
            lemma_by_field(t, n, FieldName::Scope);
            lemma_by_field(t, n, FieldName::Name);
        }
        let head = match t.by_field(n, FieldName::Scope) {
            Some(m) => name_parts(c, t, m),
            None => Some(Seq::empty()),
        };
        let tail = match t.by_field(n, FieldName::Name) {
            None => None,
            Some(m) => if t.at(m).kind == NodeKind::QualifiedIdentifier {
                name_parts(c, t, m)
            } else {
                match text_of(c, t, m) {
                    None => None,
                    Some(s) => if text::trimmed(s).len() == 0 {
                        None
                    } else {
                        Some(seq![text::trimmed(s)])
                    },
                }
            },
        };
        match (head, tail) {
            (Some(a), Some(b)) => Some(a + b),
            _ => None,
        }
    }
}

/// The type of the elements that a subscript picks from.
pub open spec fn element_type(c: SemaView, id: TypeId, depth: nat) -> Option<TypeId>
    decreases depth,
{
    if depth == 0 {
        None
    } else {
        match c.kind(id) {
            Some(TypeShape::Array { elem, .. }) => Some(elem),
            Some(TypeShape::Pointer { pointee, .. }) => Some(pointee),
            Some(TypeShape::Reference { referent, .. }) => element_type(
                c,
                referent,
                (depth - 1) as nat,
            ),
            Some(TypeShape::Typedef { aliased, .. }) => element_type(
                c,
                aliased,
                (depth - 1) as nat,
            ),
            _ => None,
        }
    }
}

/// The type that a pointer points to.
pub open spec fn pointee_of(c: SemaView, id: TypeId, depth: nat) -> Option<TypeId>
    decreases depth,
{
    if depth == 0 {
        None
    } else {
        match c.kind(id) {
            Some(TypeShape::Pointer { pointee, .. }) => Some(pointee),
            Some(TypeShape::Reference { referent, .. }) => pointee_of(
                c,
                referent,
                (depth - 1) as nat,
            ),
            Some(TypeShape::Typedef { aliased, .. }) => pointee_of(c, aliased, (depth - 1) as nat),
            _ => None,
        }
    }
}

/// The type that values of both types fit.
pub open spec fn common_type(c: SemaView, left: Option<TypeId>, right: Option<TypeId>) -> Option<TypeId> {
    match (left, right) {
        (Some(l), Some(r)) => if l == r {
            Some(l)
        } else {
            let lr = compat(c, l, r);
            let rl = compat(c, r, l);
            if lr == Compat::Incompatible && rl == Compat::Incompatible {
                None
            } else if lr == Compat::Incompatible {
                Some(l)
            } else if rl == Compat::Incompatible {
                Some(r)
            } else if rank_of(lr) >= rank_of(rl) {
                Some(r)
            } else {
                Some(l)
            }
        },
        (Some(l), None) => Some(l),
        (None, r) => r,
    }
}

/// A type with the pointers, references and arrays that a declarator puts around it.
pub open spec fn declared_as(c: SemaView, id: TypeId, t: SyntaxTree, cur: Option<usize>) -> TypeId
    decreases super::pattern::place(t, cur),
    when cur matches Some(n) ==> t.has(n)
{
    match cur {
        None => id,
        Some(n) => {
            proof {
                super::syntax::lemma_next_declarator(t, n);
            }
            let kind = t.at(n).kind;
            let around = if kind == NodeKind::PointerDeclarator {
                or_unknown_type(c, pointer_to(c, id))
            } else if kind == NodeKind::ReferenceDeclarator {
                or_unknown_type(c, reference_to(c, id))
            } else if kind == NodeKind::ArrayDeclarator {
                or_unknown_type(c, array_of(c, id))
            } else {
                id
            };
            declared_as(c, around, t, next_declarator(t, n))
        },
    }
}

pub open spec fn or_unknown_type(c: SemaView, id: Option<TypeId>) -> TypeId {
    match id {
        Some(t) => t,
        None => c.types.unknown_t,
    }
}

/// The types of the parameters that a list declares from position `k` on.
pub open spec fn param_types(c: SemaView, t: SyntaxTree, n: usize, k: int) -> Seq<TypeId>
    decreases t.kids(n).len() - k,
{
    if k < 0 || k >= t.kids(n).len() {
        Seq::empty()
    } else {
        let child = t.kids(n)[k];
        let rest = param_types(c, t, n, k + 1);
        if t.at(child).kind != NodeKind::ParameterDeclaration {
            rest
        } else {
            match t.by_field(child, FieldName::Type) {
                None => rest,
                Some(m) => match existing_type_at(c, t, m) {
                    None => rest,
                    Some(id) => seq![
                        declared_as(c, id, t, t.by_field(child, FieldName::Declarator)),
                    ] + rest,
                },
            }
        }
    }
}

/// The type of a lambda.
pub open spec fn lambda_type(c: SemaView, t: SyntaxTree, n: usize) -> TypeId {
    let (return_t, params) = match t.by_field(n, FieldName::Declarator) {
        None => (c.types.void_t, Seq::empty()),
        Some(d) => (
            match t.descendant(d, NodeKind::TrailingReturnType) {
                None => c.types.void_t,
                Some(tr) => match t.named_at(tr, 0) {
                    None => c.types.void_t,
                    Some(m) => match existing_type_at(c, t, m) {
                        Some(id) => id,
                        None => c.types.void_t,
                    },
                },
            },
            match t.descendant(d, NodeKind::ParameterList) {
                Some(l) => param_types(c, t, l, 0),
                None => Seq::empty(),
            },
        ),
    };
    or_unknown_type(
        c,
        c.types.find(
            TypeShape::Function {
                return_t,
                params,
                min_arity: params.len() as usize,
                is_variadic: false,
                is_const_member: false,
            },
        ),
    )
}

/// Whether a callee is one of the named casts.
pub open spec fn is_cast(c: SemaView, t: SyntaxTree, n: usize) -> bool {
    match text_of(c, t, n) {
        None => false,
        Some(s) => {
            let name = text::first_part(text::trimmed(s), '<');
            name == "static_cast"@ || name == "dynamic_cast"@ || name == "reinterpret_cast"@ || name
                == "const_cast"@
        },
    }
}

/// The first named child from position `k` on.
pub open spec fn first_named(t: SyntaxTree, n: usize, k: int) -> Option<usize>
    decreases t.kids(n).len() - k,
{
    if k < 0 || k >= t.kids(n).len() {
        None
    } else if t.at(t.kids(n)[k]).named {
        Some(t.kids(n)[k])
    } else {
        first_named(t, n, k + 1)
    }
}

/// The type that a named cast casts to.
pub open spec fn cast_target(c: SemaView, t: SyntaxTree, call: usize) -> Option<TypeId> {
    match callee_of(t, call) {
        None => None,
        Some(callee) => match t.descendant(callee, NodeKind::TemplateArgumentList) {
            None => None,
            Some(l) => match first_named(t, l, 0) {
                None => None,
                Some(m) => existing_type_at(c, t, m),
            },
        },
    }
}

pub open spec fn is_template_name(kind: NodeKind) -> bool {
    kind == NodeKind::TemplateFunction || kind == NodeKind::TemplateMethod
}

pub open spec fn names_template(t: SyntaxTree, n: usize) -> bool {
    is_template_name(t.at(n).kind) || (t.at(n).kind == NodeKind::FieldExpression
        && match t.by_field(n, FieldName::Field) {
        Some(f) => is_template_name(t.at(f).kind),
        None => false,
    })
}

/// The root of the tree in which a node stands.
pub open spec fn root_of(t: SyntaxTree, n: usize) -> usize
    decreases n,
    when t.has(n)
{
    match t.at(n).parent {
        Some(p) => root_of(t, p),
        None => n,
    }
}

/// The type of what is found under the name of a member, on a receiver.
pub open spec fn first_member_type(c: SemaView, receiver: TypeId, ids: Seq<SymbolId>, k: int) -> Option<
    TypeId,
>
    decreases ids.len() - k,
{
    if k < 0 || k >= ids.len() {
        None
    } else {
        match member_type(c, receiver, ids[k]) {
            Some(id) => Some(id),
            None => first_member_type(c, receiver, ids, k + 1),
        }
    }
}

/// The members that can be called, with their signatures on a receiver.
pub open spec fn callable_members(c: SemaView, receiver: TypeId, ids: Seq<SymbolId>, k: int) -> Seq<
    (SymbolId, SignatureView),
>
    decreases ids.len() - k,
{
    if k < 0 || k >= ids.len() {
        Seq::empty()
    } else {
        match member_signature(c, receiver, ids[k]) {
            Some(s) => seq![(ids[k], s)] + callable_members(c, receiver, ids, k + 1),
            None => callable_members(c, receiver, ids, k + 1),
        }
    }
}

/// The type that the first candidate with this id returns.
pub open spec fn return_of(list: Seq<(SymbolId, SignatureView)>, id: SymbolId, k: int) -> Option<TypeId>
    decreases list.len() - k,
{
    if k < 0 || k >= list.len() {
        None
    } else if list[k].0 == id {
        Some(list[k].1.return_t)
    } else {
        return_of(list, id, k + 1)
    }
}

/// The type of a call that means this symbol: what it returns if it is a function.
pub open spec fn called_type(c: SemaView, id: SymbolId) -> Option<TypeId> {
    match type_of_symbol(c, id) {
        None => None,
        Some(f) => match c.kind(f) {
            None => None,
            Some(TypeShape::Function { return_t, .. }) => Some(return_t),
            Some(_) => Some(f),
        },
    }
}

/// The type of a call by name.
pub open spec fn named_call_type(c: SemaView, symbols: Seq<SymbolId>, args: Seq<TypeId>) -> Option<TypeId> {
    match resolved_among(c, symbols, args) {
        CallShape::Match(id) => called_type(c, id),
        CallShape::NoMatch { .. } => if symbols.len() == 1 {
            called_type(c, symbols[0])
        } else {
            None
        },
        CallShape::Ambiguous(_) => None,
    }
}

/// The type of a call of a member.
pub open spec fn member_call_type(c: SemaView, list: Seq<(SymbolId, SignatureView)>, args: Seq<TypeId>) -> Option<
    TypeId,
> {
    match resolved(c, list, args) {
        CallShape::Match(id) => return_of(list, id, 0),
        CallShape::NoMatch { .. } => if list.len() == 1 {
            Some(list[0].1.return_t)
        } else {
            None
        },
        CallShape::Ambiguous(_) => None,
    }
}

/// The type of a comparison or of arithmetic.
pub open spec fn binary_type(c: SemaView, s: Seq<char>, left: TypeId, right: TypeId) -> Option<TypeId> {
    if text::has(s, "=="@) || text::has(s, "!="@) || text::has_char(s, '<') || text::has_char(s, '>') {
        Some(c.types.bool_t)
    } else {
        match (c.kind(left), c.kind(right)) {
            (Some(l), Some(r)) => {
                let double = TypeShape::Builtin(BuiltinType::Double);
                let float = TypeShape::Builtin(BuiltinType::Float);
                let int32 = TypeShape::Builtin(BuiltinType::Int32);
                if l == double || r == double {
                    Some(c.types.double_t)
                } else if l == float || r == float {
                    Some(c.types.float_t)
                } else if l == int32 || r == int32 {
                    Some(c.types.int32_t)
                } else {
                    Some(left)
                }
            },
            _ => None,
        }
    }
}

pub open spec fn unary_type(c: SemaView, s: Seq<char>, operand: TypeId) -> TypeId {
    if text::starts(s, "!"@) {
        c.types.bool_t
    } else if text::starts(s, "*"@) {
        match pointee_of(c, operand, c.types.kinds.len()) {
            Some(p) => p,
            None => operand,
        }
    } else {
        operand
    }
}

/// The operand of a unary expression.
pub open spec fn operand_of(t: SyntaxTree, n: usize) -> Option<usize> {
    match field_or_child(t, n, FieldName::Argument, 1) {
        Some(m) => Some(m),
        None => t.named_at(n, 0),
    }
}

pub open spec fn number_type(c: SemaView, s: Seq<char>) -> TypeId {
    if text::has_char(s, '.') || text::ends(s, "f"@) || text::ends(s, "F"@) {
        c.types.float_t
    } else {
        c.types.int32_t
    }
}

/// The list in which a template call writes its arguments.
pub open spec fn template_arg_list(t: SyntaxTree, call: usize) -> Option<usize> {
    match t.by_field(call, FieldName::Arguments) {
        Some(l) => Some(l),
        None => t.descendant(call, NodeKind::ArgumentList),
    }
}

pub proof fn lemma_template_arg_list(t: SyntaxTree, call: usize)
    requires
        t.has(call),
    ensures
        template_arg_list(t, call) matches Some(l) ==> t.has(l) && l >= call,
{
    lemma_by_field(t, call, FieldName::Arguments);
    lemma_descendant(t, call, NodeKind::ArgumentList);
}

/// The type of an expression.
pub open spec fn type_of(c: SemaView, t: SyntaxTree, n: usize) -> Option<TypeId>
    decreases t.nodes@.len() - n, 2nat, 0nat,
    when t.has(n)
{
    let kind = t.at(n).kind;
    if kind == NodeKind::NumberLiteral {
        match text_of(c, t, n) {
            Some(s) => Some(number_type(c, s)),
            None => None,
        }
    } else if kind == NodeKind::NullLiteral {
        Some(c.types.nullptr_t)
    } else if kind == NodeKind::StringLiteral {
        Some(char_pointer_type(c))
    } else if kind == NodeKind::CharLiteral {
        Some(char_type(c))
    } else if kind == NodeKind::TrueLiteral || kind == NodeKind::FalseLiteral {
        Some(c.types.bool_t)
    } else if kind == NodeKind::Identifier || kind == NodeKind::FieldIdentifier {
        match text_of(c, t, n) {
            None => None,
            Some(s) => if text::trimmed(s).len() == 0 {
                None
            } else {
                first_type(c, found(c, scope_of(c, t, n), text::trimmed(s)), 0)
            },
        }
    } else if kind == NodeKind::QualifiedIdentifier {
        match name_parts(c, t, n) {
            None => None,
            Some(parts) => if parts.len() == 0 {
                None
            } else {
                first_type(c, found_qualified(c, scope_of(c, t, n), parts), 0)
            },
        }
    } else if kind == NodeKind::FieldExpression {
        proof {
            lemma_by_field(t, n, FieldName::Argument);
        }
        match (field_or_child(t, n, FieldName::Argument, 0), t.by_field(n, FieldName::Field)) {
            (Some(receiver), Some(field)) => match (type_of(c, t, receiver), text_of(c, t, field)) {
                (Some(r), Some(s)) => if text::trimmed(s).len() == 0 {
                    None
                } else {
                    first_member_type(c, r, members_of_type(c, r, text::trimmed(s)), 0)
                },
                _ => None,
            },
            _ => None,
        }
    } else if kind == NodeKind::ParenthesizedExpression {
        proof {
            lemma_named(t, n, 0);
        }
        match t.named_at(n, 0) {
            Some(m) => type_of(c, t, m),
            None => None,
        }
    } else if kind == NodeKind::SubscriptExpression {
        proof {
            lemma_by_field(t, n, FieldName::Argument);
        }
        match field_or_child(t, n, FieldName::Argument, 0) {
            None => None,
            Some(m) => match type_of(c, t, m) {
                None => None,
                Some(r) => element_type(c, r, c.types.kinds.len()),
            },
        }
    } else if kind == NodeKind::ConditionalExpression {
        proof {
            lemma_by_field(t, n, FieldName::Consequence);
            lemma_by_field(t, n, FieldName::Alternative);
        }
        match t.by_field(n, FieldName::Alternative) {
            None => None,
            Some(alternative) => common_type(
                c,
                match t.by_field(n, FieldName::Consequence) {
                    Some(m) => type_of(c, t, m),
                    None => None,
                },
                type_of(c, t, alternative),
            ),
        }
    } else if kind == NodeKind::CastExpression {
        match t.by_field(n, FieldName::Type) {
            Some(m) => existing_type_at(c, t, m),
            None => None,
        }
    } else if kind == NodeKind::NewExpression {
        match t.by_field(n, FieldName::Type) {
            Some(m) => match existing_type_at(c, t, m) {
                Some(p) => Some(or_unknown_type(c, pointer_to(c, p))),
                None => None,
            },
            None => None,
        }
    } else if kind == NodeKind::LambdaExpression {
        Some(lambda_type(c, t, n))
    } else if kind == NodeKind::AssignmentExpression {
        proof {
            lemma_by_field(t, n, FieldName::Left);
        }
        match field_or_child(t, n, FieldName::Left, 0) {
            Some(m) => type_of(c, t, m),
            None => None,
        }
    } else if kind == NodeKind::BinaryExpression {
        proof {
            lemma_by_field(t, n, FieldName::Left);
            lemma_by_field(t, n, FieldName::Right);
        }
        match (field_or_child(t, n, FieldName::Left, 0), field_or_child(t, n, FieldName::Right, 2)) {
            (Some(l), Some(r)) => match (type_of(c, t, l), type_of(c, t, r), text_of(c, t, n)) {
                (Some(lt), Some(rt), Some(s)) => binary_type(c, s, lt, rt),
                _ => None,
            },
            _ => None,
        }
    } else if kind == NodeKind::UnaryExpression || kind == NodeKind::PointerExpression {
        proof {
            lemma_by_field(t, n, FieldName::Argument);
            lemma_named(t, n, 0);
        }
        match operand_of(t, n) {
            None => None,
            Some(m) => match (type_of(c, t, m), text_of(c, t, n)) {
                (Some(id), Some(s)) => Some(unary_type(c, s, id)),
                _ => None,
            },
        }
    } else if kind == NodeKind::CallExpression {
        call_type(c, t, n)
    } else {
        None
    }
}

/// The type of a call.
pub open spec fn call_type(c: SemaView, t: SyntaxTree, n: usize) -> Option<TypeId>
    decreases t.nodes@.len() - n, 1nat, 0nat,
    when t.has(n)
{
    match callee_of(t, n) {
        None => None,
        Some(callee) => {
            proof {
                lemma_by_field(t, n, FieldName::Function);
                lemma_descendant(t, n, NodeKind::ArgumentList);
                lemma_template_arg_list(t, n);
            }
            let cast = if is_cast(c, t, callee) {
                cast_target(c, t, n)
            } else {
                None
            };
            let template_args = match template_arg_list(t, n) {
                Some(l) => types_of(c, t, l, 0),
                None => Seq::empty(),
            };
            let by_template = call_return(
                c,
                collected(c, t, root_of(t, n)),
                t,
                n,
                template_args,
            );
            let args = match t.descendant(n, NodeKind::ArgumentList) {
                Some(l) => types_of(c, t, l, 0),
                None => Seq::empty(),
            };
            match cast {
                Some(id) => Some(id),
                None => if names_template(t, callee) {
                    by_template
                } else {
                    match by_template {
                        Some(id) => Some(id),
                        None => {
                            let kind = t.at(callee).kind;
                            if kind == NodeKind::Identifier {
                                match text_of(c, t, callee) {
                                    None => None,
                                    Some(s) => named_call_type(
                                        c,
                                        found_for_call(
                                            c,
                                            scope_of(c, t, callee),
                                            text::trimmed(s),
                                            args,
                                        ),
                                        args,
                                    ),
                                }
                            } else if kind == NodeKind::QualifiedIdentifier {
                                match name_parts(c, t, callee) {
                                    None => None,
                                    Some(parts) => if parts.len() == 0 {
                                        None
                                    } else {
                                        named_call_type(
                                            c,
                                            found_qualified(c, scope_of(c, t, callee), parts),
                                            args,
                                        )
                                    },
                                }
                            } else if kind == NodeKind::FieldExpression {
                                proof {
                                    lemma_by_field(t, callee, FieldName::Argument);
                                }
                                match (
                                    t.by_field(callee, FieldName::Field),
                                    field_or_child(t, callee, FieldName::Argument, 0),
                                ) {
                                    (Some(field), Some(receiver)) => match (
                                        type_of(c, t, receiver),
                                        text_of(c, t, field),
                                    ) {
                                        (Some(r), Some(s)) => member_call_type(
                                            c,
                                            callable_members(
                                                c,
                                                r,
                                                members_of_type(c, r, text::trimmed(s)),
                                                0,
                                            ),
                                            args,
                                        ),
                                        _ => None,
                                    },
                                    _ => None,
                                }
                            } else {
                                match type_of(c, t, callee) {
                                    None => None,
                                    Some(id) => returned(c, id),
                                }
                            }
                        },
                    }
                },
            }
        },
    }
}

/// The types of the named children of a list from position `k` on that have one.
pub open spec fn types_of(c: SemaView, t: SyntaxTree, n: usize, k: int) -> Seq<TypeId>
    decreases t.nodes@.len() - n, 0nat, t.kids(n).len() - k,
    when t.has(n) && 0 <= k <= t.kids(n).len()
{
    if k >= t.kids(n).len() {
        Seq::empty()
    } else {
        let child = t.kids(n)[k];
        let rest = types_of(c, t, n, k + 1);
        if !t.at(child).named {
            rest
        } else {
            match type_of(c, t, child) {
                Some(id) => seq![id] + rest,
                None => rest,
            }
        }
    }
}

/// The types of the arguments of a template call.
pub open spec fn template_arg_types(c: SemaView, t: SyntaxTree, call: usize) -> Seq<TypeId> {
    match template_arg_list(t, call) {
        Some(l) => types_of(c, t, l, 0),
        None => Seq::empty(),
    }
}


fn qualified_identifier_segments(ctx: &SemaContext, t: &SyntaxTree, n: usize) -> (r: Option<Vec<String>>)
    requires
        t.has(n),
    ensures
        match r {
            Some(v) => name_parts(ctx@, *t, n) == Some(text::texts(v@)),
            None => name_parts(ctx@, *t, n) is None,
        },
    decreases t.nodes@.len() - n,
{
    if t.nodes[n].kind != NodeKind::QualifiedIdentifier {
        return match ctx.node_text(t, n) {
            None => None,
            Some(s) => {
                let trimmed = text::trim(s);
                if trimmed.is_empty() {
                    None
                } else {
                    Some(path_segments(trimmed))
                }
            },
        };
    }
    let mut head: Vec<String> = match t.child_by_field(n, FieldName::Scope) {
        Some(m) => match qualified_identifier_segments(ctx, t, m) {
            Some(v) => v,
            None => {
                return None;
            },
        },
        None => {
            let v: Vec<String> = Vec::new();
            assert(text::texts(v@) =~= Seq::<Seq<char>>::empty());
            v
        },
    };
    let ghost a = text::texts(head@);
    let m = match t.child_by_field(n, FieldName::Name) {
        Some(m) => m,
        None => {
            return None;
        },
    };
    if t.nodes[m].kind == NodeKind::QualifiedIdentifier {
        match qualified_identifier_segments(ctx, t, m) {
            Some(v) => {
                let mut tail = v;
                let ghost b = text::texts(tail@);
                head.append(&mut tail);
                assert(text::texts(head@) =~= a + b);
                Some(head)
            },
            None => None,
        }
    } else {
        match ctx.node_text(t, m) {
            None => None,
            Some(s) => {
                let name = text::trim(s);
                if name.is_empty() {
                    None
                } else {
                    head.push(text::copy_of(name));
                    assert(text::texts(head@) =~= a + seq![name@]);
                    Some(head)
                }
            },
        }
    }
}

fn element_type_for_subscript(ctx: &SemaContext, type_id: TypeId, depth: usize) -> (r: Option<TypeId>)
    ensures
        r == element_type(ctx@, type_id, depth as nat),
    decreases depth,
{
    if depth == 0 {
        return None;
    }
    match ctx.types.get(type_id) {
        Some(TypeKind::Array { elem, .. }) => Some(*elem),
        Some(TypeKind::Pointer { pointee, .. }) => Some(*pointee),
        Some(TypeKind::Reference { referent, .. }) => element_type_for_subscript(
            ctx,
            *referent,
            depth - 1,
        ),
        Some(TypeKind::Typedef { aliased, .. }) => element_type_for_subscript(
            ctx,
            *aliased,
            depth - 1,
        ),
        _ => None,
    }
}

fn pointee_type(ctx: &SemaContext, type_id: TypeId, depth: usize) -> (r: Option<TypeId>)
    ensures
        r == pointee_of(ctx@, type_id, depth as nat),
    decreases depth,
{
    if depth == 0 {
        return None;
    }
    match ctx.types.get(type_id) {
        Some(TypeKind::Pointer { pointee, .. }) => Some(*pointee),
        Some(TypeKind::Reference { referent, .. }) => pointee_type(ctx, *referent, depth - 1),
        Some(TypeKind::Typedef { aliased, .. }) => pointee_type(ctx, *aliased, depth - 1),
        _ => None,
    }
}

fn choose_common_type(ctx: &SemaContext, left: Option<TypeId>, right: Option<TypeId>) -> (r: Option<TypeId>)
    ensures
        r == common_type(ctx@, left, right),
{
    match (left, right) {
        (Some(l), Some(r)) => {
            if l == r {
                return Some(l);
            }
            let lr = ctx.check_compat(l, r);
            let rl = ctx.check_compat(r, l);
            if lr == Compat::Incompatible && rl == Compat::Incompatible {
                None
            } else if lr == Compat::Incompatible {
                Some(l)
            } else if rl == Compat::Incompatible {
                Some(r)
            } else if compat_rank(lr) >= compat_rank(rl) {
                Some(r)
            } else {
                Some(l)
            }
        },
        (Some(l), None) => Some(l),
        (None, r) => r,
    }
}

fn known_or_unknown(ctx: &SemaContext, id: Option<TypeId>) -> (r: TypeId)
    ensures
        r == or_unknown_type(ctx@, id),
{
    match id {
        Some(t) => t,
        None => ctx.types.unknown_t,
    }
}

fn wrap_in_declarators(ctx: &SemaContext, start: TypeId, t: &SyntaxTree, declarator: Option<usize>) -> (r:
    TypeId)
    requires
        declarator matches Some(n) ==> t.has(n),
    ensures
        r == declared_as(ctx@, start, *t, declarator),
{
    let mut id = start;
    let mut cursor: Option<usize> = declarator;
    loop
        invariant
            cursor matches Some(n) ==> t.has(n),
            declared_as(ctx@, start, *t, declarator) == declared_as(ctx@, id, *t, cursor),
        decreases super::pattern::place(*t, cursor),
    {
        match cursor {
            None => {
                return id;
            },
            Some(n) => {
                let kind = t.nodes[n].kind;
                if kind == NodeKind::PointerDeclarator {
                    id = known_or_unknown(ctx, ctx.find_pointer_type(id));
                } else if kind == NodeKind::ReferenceDeclarator {
                    id = known_or_unknown(ctx, ctx.find_reference_type(id));
                } else if kind == NodeKind::ArrayDeclarator {
                    id = known_or_unknown(ctx, ctx.find_array_type(id));
                }
                cursor = next_declarator_node(t, n);
            },
        }
    }
}

fn parameter_types(ctx: &SemaContext, t: &SyntaxTree, n: usize) -> (r: Vec<TypeId>)
    requires
        t.has(n),
    ensures
        r@ == param_types(ctx@, *t, n, 0),
{
    let mut out: Vec<TypeId> = Vec::new();
    let c: usize = t.nodes[n].children.len();
    let mut k: usize = 0;
    while k < c
        invariant
            t.has(n),
            c == t.kids(n).len(),
            k <= c,
            param_types(ctx@, *t, n, 0) =~= out@ + param_types(ctx@, *t, n, k as int),
        decreases c - k,
    {
        let child: usize = t.nodes[n].children[k];
        assert(child == t.kids(n)[k as int]);
        if t.nodes[child].kind == NodeKind::ParameterDeclaration {
            match t.child_by_field(child, FieldName::Type) {
                Some(m) => {
                    match ctx.resolve_existing_type_node(t, m) {
                        Some(id) => {
                            out.push(
                                wrap_in_declarators(
                                    ctx,
                                    id,
                                    t,
                                    t.child_by_field(child, FieldName::Declarator),
                                ),
                            );
                        },
                        None => {},
                    }
                },
                None => {},
            }
        }
        k = k + 1;
    }
    out
}

fn type_of_lambda_expression(ctx: &SemaContext, t: &SyntaxTree, n: usize) -> (r: TypeId)
    requires
        t.has(n),
    ensures
        r == lambda_type(ctx@, *t, n),
{
    let mut return_t = ctx.types.void_t;
    let mut params: Vec<TypeId> = Vec::new();
    match t.child_by_field(n, FieldName::Declarator) {
        None => {},
        Some(d) => {
            match t.find_descendant(d, NodeKind::TrailingReturnType) {
                None => {},
                Some(tr) => {
                    match t.named_child(tr, 0) {
                        None => {},
                        Some(m) => {
                            match ctx.resolve_existing_type_node(t, m) {
                                Some(id) => {
                                    return_t = id;
                                },
                                None => {},
                            }
                        },
                    }
                },
            }
            match t.find_descendant(d, NodeKind::ParameterList) {
                Some(l) => {
                    params = parameter_types(ctx, t, l);
                },
                None => {},
            }
        },
    }
    let min_arity: usize = params.len();
    known_or_unknown(ctx, ctx.find_function_type(return_t, params, min_arity, false, false))
}

pub fn is_named_cast_callee(ctx: &SemaContext, t: &SyntaxTree, callee: usize) -> (r: bool)
    requires
        t.has(callee),
    ensures
        r == is_cast(ctx@, *t, callee),
{
    match ctx.node_text(t, callee) {
        None => false,
        Some(s) => {
            let name = text::first_part_of(text::trim(s), '<');
            text::same(name, "static_cast") || text::same(name, "dynamic_cast") || text::same(
                name,
                "reinterpret_cast",
            ) || text::same(name, "const_cast")
        },
    }
}

pub fn named_cast_target_type(ctx: &SemaContext, t: &SyntaxTree, call: usize) -> (r: Option<TypeId>)
    requires
        t.has(call),
    ensures
        r == cast_target(ctx@, *t, call),
{
    let callee = match callee_node(t, call) {
        Some(m) => m,
        None => {
            return None;
        },
    };
    let list = match t.find_descendant(callee, NodeKind::TemplateArgumentList) {
        Some(l) => l,
        None => {
            return None;
        },
    };
    let c: usize = t.nodes[list].children.len();
    let mut k: usize = 0;
    while k < c
        invariant
            t.has(list),
            c == t.kids(list).len(),
            k <= c,
            cast_target(ctx@, *t, call) == (match first_named(*t, list, k as int) {
                None => None,
                Some(m) => existing_type_at(ctx@, *t, m),
            }),
        decreases c - k,
    {
        let child: usize = t.nodes[list].children[k];
        assert(child == t.kids(list)[k as int]);
        if t.nodes[child].named {
            return ctx.resolve_existing_type_node(t, child);
        }
        k = k + 1;
    }
    None
}

fn is_template_callee(t: &SyntaxTree, callee: usize) -> (r: bool)
    requires
        t.has(callee),
    ensures
        r == names_template(*t, callee),
{
    match t.nodes[callee].kind {
        NodeKind::TemplateFunction | NodeKind::TemplateMethod => true,
        NodeKind::FieldExpression => match t.child_by_field(callee, FieldName::Field) {
            Some(f) => matches!(
                t.nodes[f].kind,
                NodeKind::TemplateFunction | NodeKind::TemplateMethod
            ),
            None => false,
        },
        _ => false,
    }
}

fn root_node(t: &SyntaxTree, n: usize) -> (r: usize)
    requires
        t.has(n),
    ensures
        r == root_of(*t, n),
        t.has(r),
    decreases n,
{
    assert(t.at(n).parent == t.nodes@[n as int].parent);
    match t.nodes[n].parent {
        Some(p) => root_node(t, p),
        None => n,
    }
}

fn member_type_among(ctx: &SemaContext, receiver: TypeId, ids: &Vec<SymbolId>) -> (r: Option<TypeId>)
    ensures
        r == first_member_type(ctx@, receiver, ids@, 0),
{
    let n: usize = ids.len();
    let mut i: usize = 0;
    while i < n
        invariant
            n == ids@.len(),
            i <= n,
            first_member_type(ctx@, receiver, ids@, 0) == first_member_type(
                ctx@,
                receiver,
                ids@,
                i as int,
            ),
        decreases n - i,
    {
        match ctx.member_symbol_type(receiver, ids[i]) {
            Some(id) => {
                return Some(id);
            },
            None => {},
        }
        i = i + 1;
    }
    None
}

fn members_to_call(ctx: &SemaContext, receiver: TypeId, ids: &Vec<SymbolId>) -> (r: Vec<Callee>)
    ensures
        callee_shapes(r@) == callable_members(ctx@, receiver, ids@, 0),
{
    let mut r: Vec<Callee> = Vec::new();
    let n: usize = ids.len();
    let mut i: usize = 0;
    assert(callee_shapes(r@) =~= Seq::<(SymbolId, SignatureView)>::empty());
    while i < n
        invariant
            n == ids@.len(),
            i <= n,
            callable_members(ctx@, receiver, ids@, 0) =~= callee_shapes(r@) + callable_members(
                ctx@,
                receiver,
                ids@,
                i as int,
            ),
        decreases n - i,
    {
        let ghost before = callee_shapes(r@);
        match ctx.member_callable_signature(receiver, ids[i]) {
            Some(s) => {
                let ghost item = (ids@[i as int], s@);
                r.push((ids[i], s));
                assert(callee_shapes(r@) =~= before.push(item));
            },
            None => {},
        }
        i = i + 1;
    }
    assert(callee_shapes(r@) =~= callable_members(ctx@, receiver, ids@, 0));
    r
}

fn type_of_called_symbol(ctx: &SemaContext, id: SymbolId) -> (r: Option<TypeId>)
    ensures
        r == called_type(ctx@, id),
{
    match ctx.symbol_type(id) {
        None => None,
        Some(f) => match ctx.types.get(f) {
            None => None,
            Some(TypeKind::Function { return_t, .. }) => Some(*return_t),
            Some(_) => Some(f),
        },
    }
}

fn type_of_named_call(ctx: &SemaContext, symbols: &Vec<SymbolId>, args: &Vec<TypeId>) -> (r: Option<TypeId>)
    ensures
        r == named_call_type(ctx@, symbols@, args@),
{
    match resolve_call_with_args(ctx, symbols.as_slice(), args.as_slice()) {
        CallResult::Match(id) => type_of_called_symbol(ctx, id),
        CallResult::NoMatch { .. } => {
            if symbols.len() == 1 {
                type_of_called_symbol(ctx, symbols[0])
            } else {
                None
            }
        },
        CallResult::Ambiguous(_) => None,
    }
}

fn type_of_member_call(ctx: &SemaContext, callable: &Vec<Callee>, args: &Vec<TypeId>) -> (r: Option<TypeId>)
    ensures
        r == member_call_type(ctx@, callee_shapes(callable@), args@),
{
    let ghost list = callee_shapes(callable@);
    assert(list.len() == callable@.len());
    match resolve_call_with_signatures(ctx, callable.as_slice(), args.as_slice()) {
        CallResult::Match(id) => {
            let n: usize = callable.len();
            let mut i: usize = 0;
            while i < n
                invariant
                    list == callee_shapes(callable@),
                    n == callable@.len(),
                    i <= n,
                    member_call_type(ctx@, list, args@) == return_of(list, id, i as int),
                decreases n - i,
            {
                assert(list[i as int] == (callable@[i as int].0, callable@[i as int].1@));
                if callable[i].0 == id {
                    return Some(callable[i].1.return_t);
                }
                i = i + 1;
            }
            None
        },
        CallResult::NoMatch { .. } => {
            if callable.len() == 1 {
                assert(list[0] == (callable@[0].0, callable@[0].1@));
                Some(callable[0].1.return_t)
            } else {
                None
            }
        },
        CallResult::Ambiguous(_) => None,
    }
}

fn type_of_arithmetic(ctx: &SemaContext, s: &str, left: TypeId, right: TypeId) -> (r: Option<TypeId>)
    ensures
        r == binary_type(ctx@, s@, left, right),
{
    if text::contains_text(s, "==") || text::contains_text(s, "!=") || text::contains_char(s, '<')
        || text::contains_char(s, '>') {
        return Some(ctx.types.bool_t);
    }
    match (ctx.types.get(left), ctx.types.get(right)) {
        (Some(l), Some(r)) => {
            if matches!(l, TypeKind::Builtin(BuiltinType::Double)) || matches!(
                r,
                TypeKind::Builtin(BuiltinType::Double)
            ) {
                Some(ctx.types.double_t)
            } else if matches!(l, TypeKind::Builtin(BuiltinType::Float)) || matches!(
                r,
                TypeKind::Builtin(BuiltinType::Float)
            ) {
                Some(ctx.types.float_t)
            } else if matches!(l, TypeKind::Builtin(BuiltinType::Int32)) || matches!(
                r,
                TypeKind::Builtin(BuiltinType::Int32)
            ) {
                Some(ctx.types.int32_t)
            } else {
                Some(left)
            }
        },
        _ => None,
    }
}

fn type_of_operation(ctx: &SemaContext, s: &str, operand: TypeId) -> (r: TypeId)
    ensures
        r == unary_type(ctx@, s@, operand),
{
    if text::starts_with(s, "!") {
        return ctx.types.bool_t;
    }
    if text::starts_with(s, "*") {
        let n: usize = ctx.types.len();
        return match pointee_type(ctx, operand, n) {
            Some(p) => p,
            None => operand,
        };
    }
    operand
}

pub fn type_of_expression(ctx: &SemaContext, t: &SyntaxTree, n: usize) -> (r: Option<TypeId>)
    requires
        t.has(n),
    ensures
        r == type_of(ctx@, *t, n),
    decreases t.nodes@.len() - n, 3nat,
{
    match t.nodes[n].kind {
        NodeKind::NumberLiteral => match ctx.node_text(t, n) {
            None => None,
            Some(s) => {
                if text::contains_char(s, '.') || text::ends_with(s, "f") || text::ends_with(s, "F") {
                    Some(ctx.types.float_t)
                } else {
                    Some(ctx.types.int32_t)
                }
            },
        },
        NodeKind::NullLiteral => Some(ctx.types.nullptr_t),
        NodeKind::StringLiteral => Some(ctx.types_pointer_to_char()),
        NodeKind::CharLiteral => Some(ctx.types_char()),
        NodeKind::TrueLiteral | NodeKind::FalseLiteral => Some(ctx.types.bool_t),
        NodeKind::Identifier | NodeKind::FieldIdentifier => match ctx.node_text(t, n) {
            None => None,
            Some(s) => {
                let name = text::trim(s);
                if name.is_empty() {
                    None
                } else {
                    ctx.type_of_identifier_at_node(t, n, name)
                }
            },
        },
        NodeKind::QualifiedIdentifier => match qualified_identifier_segments(ctx, t, n) {
            None => None,
            Some(parts) => {
                assert(text::texts(parts@).len() == parts@.len());
                if parts.len() == 0 {
                    None
                } else {
                    let ids = ctx.lookup_segments_at_node(t, n, &parts);
                    ctx.first_symbol_type(&ids)
                }
            },
        },
        NodeKind::FieldExpression => type_of_field_expression(ctx, t, n),
        NodeKind::ParenthesizedExpression => match t.named_child(n, 0) {
            Some(m) => type_of_expression(ctx, t, m),
            None => None,
        },
        NodeKind::SubscriptExpression => match child_or(t, n, FieldName::Argument, 0) {
            None => None,
            Some(m) => match type_of_expression(ctx, t, m) {
                None => None,
                Some(r) => {
                    let depth: usize = ctx.types.len();
                    element_type_for_subscript(ctx, r, depth)
                },
            },
        },
        NodeKind::ConditionalExpression => match t.child_by_field(n, FieldName::Alternative) {
            None => None,
            Some(alternative) => {
                let left = match t.child_by_field(n, FieldName::Consequence) {
                    Some(m) => type_of_expression(ctx, t, m),
                    None => None,
                };
                let right = type_of_expression(ctx, t, alternative);
                choose_common_type(ctx, left, right)
            },
        },
        NodeKind::CastExpression => match t.child_by_field(n, FieldName::Type) {
            Some(m) => ctx.resolve_existing_type_node(t, m),
            None => None,
        },
        NodeKind::NewExpression => match t.child_by_field(n, FieldName::Type) {
            Some(m) => match ctx.resolve_existing_type_node(t, m) {
                Some(p) => Some(known_or_unknown(ctx, ctx.find_pointer_type(p))),
                None => None,
            },
            None => None,
        },
        NodeKind::LambdaExpression => Some(type_of_lambda_expression(ctx, t, n)),
        NodeKind::AssignmentExpression => match child_or(t, n, FieldName::Left, 0) {
            Some(m) => type_of_expression(ctx, t, m),
            None => None,
        },
        NodeKind::BinaryExpression => {
            match (child_or(t, n, FieldName::Left, 0), child_or(t, n, FieldName::Right, 2)) {
                (Some(l), Some(r)) => {
                    let left = type_of_expression(ctx, t, l);
                    let right = type_of_expression(ctx, t, r);
                    match (left, right, ctx.node_text(t, n)) {
                        (Some(lt), Some(rt), Some(s)) => type_of_arithmetic(ctx, s, lt, rt),
                        _ => None,
                    }
                },
                _ => None,
            }
        },
        NodeKind::UnaryExpression | NodeKind::PointerExpression => {
            let operand = match child_or(t, n, FieldName::Argument, 1) {
                Some(m) => Some(m),
                None => t.named_child(n, 0),
            };
            match operand {
                None => None,
                Some(m) => match (type_of_expression(ctx, t, m), ctx.node_text(t, n)) {
                    (Some(id), Some(s)) => Some(type_of_operation(ctx, s, id)),
                    _ => None,
                },
            }
        },
        NodeKind::CallExpression => type_of_call_expression(ctx, t, n),
        _ => None,
    }
}

fn type_of_field_expression(ctx: &SemaContext, t: &SyntaxTree, n: usize) -> (r: Option<TypeId>)
    requires
        t.has(n),
        t.at(n).kind == NodeKind::FieldExpression,
    ensures
        r == type_of(ctx@, *t, n),
    decreases t.nodes@.len() - n, 2nat,
{
    match (child_or(t, n, FieldName::Argument, 0), t.child_by_field(n, FieldName::Field)) {
        (Some(receiver), Some(field)) => {
            match (type_of_expression(ctx, t, receiver), ctx.node_text(t, field)) {
                (Some(r), Some(s)) => {
                    let name = text::trim(s);
                    if name.is_empty() {
                        None
                    } else {
                        let ids = ctx.lookup_class_member_symbols(r, name);
                        member_type_among(ctx, r, &ids)
                    }
                },
                _ => None,
            }
        },
        _ => None,
    }
}

fn type_of_call_expression(ctx: &SemaContext, t: &SyntaxTree, n: usize) -> (r: Option<TypeId>)
    requires
        t.has(n),
    ensures
        r == call_type(ctx@, *t, n),
    decreases t.nodes@.len() - n, 2nat,
{
    let callee = match callee_node(t, n) {
        Some(m) => m,
        None => {
            return None;
        },
    };
    if is_named_cast_callee(ctx, t, callee) {
        match named_cast_target_type(ctx, t, n) {
            Some(id) => {
                return Some(id);
            },
            None => {},
        }
    }
    let root = root_node(t, n);
    let index = TemplateIndex::collect(t, root, ctx);
    proof {
        lemma_template_arg_list(*t, n);
        lemma_descendant(*t, n, NodeKind::ArgumentList);
    }
    let template_args = template_argument_types(ctx, t, n);
    let by_template = index.infer_with_types(t, n, ctx, &template_args);
    if is_template_callee(t, callee) {
        return by_template;
    }
    match by_template {
        Some(id) => {
            return Some(id);
        },
        None => {},
    }
    let args = match t.find_descendant(n, NodeKind::ArgumentList) {
        Some(l) => argument_types(ctx, t, l),
        None => Vec::new(),
    };
    match t.nodes[callee].kind {
        NodeKind::Identifier => match ctx.node_text(t, callee) {
            None => None,
            Some(s) => {
                let symbols = ctx.lookup_call_name_at_node(
                    t,
                    callee,
                    text::trim(s),
                    args.as_slice(),
                );
                type_of_named_call(ctx, &symbols, &args)
            },
        },
        NodeKind::QualifiedIdentifier => match qualified_identifier_segments(ctx, t, callee) {
            None => None,
            Some(parts) => {
                assert(text::texts(parts@).len() == parts@.len());
                if parts.len() == 0 {
                    None
                } else {
                    let symbols = ctx.lookup_segments_at_node(t, callee, &parts);
                    type_of_named_call(ctx, &symbols, &args)
                }
            },
        },
        NodeKind::FieldExpression => {
            match (
                t.child_by_field(callee, FieldName::Field),
                child_or(t, callee, FieldName::Argument, 0),
            ) {
                (Some(field), Some(receiver)) => {
                    match (type_of_expression(ctx, t, receiver), ctx.node_text(t, field)) {
                        (Some(r), Some(s)) => {
                            let symbols = ctx.lookup_class_member_symbols(r, text::trim(s));
                            let callable = members_to_call(ctx, r, &symbols);
                            type_of_member_call(ctx, &callable, &args)
                        },
                        _ => None,
                    }
                },
                _ => None,
            }
        },
        _ => match type_of_expression(ctx, t, callee) {
            None => None,
            Some(id) => ctx.return_type_of(id),
        },
    }
}

fn argument_types(ctx: &SemaContext, t: &SyntaxTree, n: usize) -> (r: Vec<TypeId>)
    requires
        t.has(n),
    ensures
        r@ == types_of(ctx@, *t, n, 0),
    decreases t.nodes@.len() - n, 0nat,
{
    let mut out: Vec<TypeId> = Vec::new();
    let c: usize = t.nodes[n].children.len();
    let mut k: usize = 0;
    while k < c
        invariant
            t.has(n),
            c == t.kids(n).len(),
            k <= c,
            types_of(ctx@, *t, n, 0) =~= out@ + types_of(ctx@, *t, n, k as int),
        decreases c - k,
    {
        let child: usize = t.nodes[n].children[k];
        assert(child == t.kids(n)[k as int]);
        if t.nodes[child].named {
            match type_of_expression(ctx, t, child) {
                Some(id) => {
                    out.push(id);
                },
                None => {},
            }
        }
        k = k + 1;
    }
    out
}

pub fn template_argument_types(ctx: &SemaContext, t: &SyntaxTree, call: usize) -> (r: Vec<TypeId>)
    requires
        t.has(call),
    ensures
        r@ == template_arg_types(ctx@, *t, call),
    decreases t.nodes@.len() - call, 1nat,
{
    let list = match t.child_by_field(call, FieldName::Arguments) {
        Some(l) => Some(l),
        None => t.find_descendant(call, NodeKind::ArgumentList),
    };
    match list {
        Some(l) => argument_types(ctx, t, l),
        None => Vec::new(),
    }
}

pub open spec fn with_helpers(c: SemaView) -> SemaView {
    let char_shape = TypeShape::Builtin(BuiltinType::Char);
    let with_char = c.types.with(char_shape);
    let char_t = c.types.id_of(char_shape);
    let ptr_shape = TypeShape::Pointer { pointee: char_t, cv: super::types::no_cv() };
    SemaView {
        types: with_char.with(ptr_shape),
        char_t: Some(char_t),
        char_ptr_t: Some(with_char.id_of(ptr_shape)),
        ..c
    }
}

/// Makes the character type and the pointer to it known.
pub fn attach_builtin_helpers(ctx: &mut SemaContext)
    ensures
        final(ctx)@ == with_helpers(old(ctx)@),
{
    let char_t = ctx.types.intern(TypeKind::Builtin(BuiltinType::Char));
    let char_ptr = ctx.types.intern(TypeKind::Pointer { pointee: char_t, cv: CvQual::default() });
    ctx.cached_char_t = Some(char_t);
    ctx.cached_char_ptr_t = Some(char_ptr);
}

} // verus!
