//! What holds of the types of expressions.
use vstd::prelude::*;

use super::expr::{
    binary_type, called_type, common_type, element_type, field_or_child, member_call_type,
    named_call_type, number_type, operand_of, pointee_of, text_of, type_of, types_of, unary_type,
};
use super::members::type_of_symbol;
use super::overload::{resolved, resolved_among, CallShape};
use super::overload_laws::{calls_mean_what_accepts_them, closer_conversions_rank_higher, meant};
use super::resolve::existing_type_at;
use super::symbol::SymbolId;
use super::syntax::{lemma_by_field, lemma_named, FieldName, NodeKind, SyntaxTree};
use super::types::{rank_of, BuiltinType, Compat, TypeId, TypeShape};
use super::{compat, SemaView, SignatureView};
use crate::text;

verus! {

/// A type is this builtin one.
pub open spec fn is_builtin(c: SemaView, id: TypeId, b: BuiltinType) -> bool {
    c.kind(id) == Some(TypeShape::Builtin(b))
}

/// The text of an expression compares.
pub open spec fn compares(s: Seq<char>) -> bool {
    text::has(s, "=="@) || text::has(s, "!="@) || text::has_char(s, '<') || text::has_char(s, '>')
}

/// Arithmetic on a double gives a double. On a float, but no double, it gives a float, and on a
/// whole number, but neither of these, a whole number. Other arithmetic gives the type of its left
/// side, and a comparison a truth value.
pub proof fn arithmetic_gives_the_wider_number(
    c: SemaView,
    s: Seq<char>,
    left: TypeId,
    right: TypeId,
)
    requires
        c.kind(left) is Some,
        c.kind(right) is Some,
    ensures
        ({
            let either = |b: BuiltinType| is_builtin(c, left, b) || is_builtin(c, right, b);
            let r = binary_type(c, s, left, right);
            &&& compares(s) ==> r == Some(c.types.bool_t)
            &&& !compares(s) && either(BuiltinType::Double) ==> r == Some(c.types.double_t)
            &&& !compares(s) && either(BuiltinType::Float) && !either(BuiltinType::Double) ==> r
                == Some(c.types.float_t)
            &&& !compares(s) && either(BuiltinType::Int32) && !either(BuiltinType::Double)
                && !either(BuiltinType::Float) ==> r == Some(c.types.int32_t)
            &&& !compares(s) && !either(BuiltinType::Int32) && !either(BuiltinType::Double)
                && !either(BuiltinType::Float) ==> r == Some(left)
        }),
{
}

/// Arithmetic gives the same type the other way round, where one side is a number.
pub proof fn arithmetic_may_be_swapped(
    c: SemaView,
    s: Seq<char>,
    left: TypeId,
    right: TypeId,
    b: BuiltinType,
)
    requires
        b == BuiltinType::Double || b == BuiltinType::Float || b == BuiltinType::Int32,
        is_builtin(c, left, b) || is_builtin(c, right, b),
    ensures
        binary_type(c, s, left, right) == binary_type(c, s, right, left),
{
}

/// The type of an expression of two sides is that of the arithmetic on the types of its sides.
pub proof fn two_sides_give_their_arithmetic(c: SemaView, t: SyntaxTree, n: usize, l: usize, r: usize)
    requires
        t.has(n),
        t.at(n).kind == NodeKind::BinaryExpression,
        field_or_child(t, n, FieldName::Left, 0) == Some(l),
        field_or_child(t, n, FieldName::Right, 2) == Some(r),
        text_of(c, t, n) is Some,
    ensures
        type_of(c, t, n) is Some ==> type_of(c, t, l) is Some && type_of(c, t, r) is Some,
        type_of(c, t, l) is Some && type_of(c, t, r) is Some ==> type_of(c, t, n) == binary_type(
            c,
            text_of(c, t, n)->0,
            type_of(c, t, l)->0,
            type_of(c, t, r)->0,
        ),
{
    lemma_by_field(t, n, FieldName::Left);
    lemma_by_field(t, n, FieldName::Right);
}

/// What is written as a literal has the type of its kind. A number with a point or an f at its end
/// is a float, and any other a whole number.
pub proof fn literals_have_their_types(c: SemaView, t: SyntaxTree, n: usize)
    requires
        t.has(n),
    ensures
        t.at(n).kind == NodeKind::TrueLiteral || t.at(n).kind == NodeKind::FalseLiteral ==> type_of(
            c,
            t,
            n,
        ) == Some(c.types.bool_t),
        t.at(n).kind == NodeKind::NullLiteral ==> type_of(c, t, n) == Some(c.types.nullptr_t),
        t.at(n).kind == NodeKind::StringLiteral && c.char_ptr_t is Some ==> type_of(c, t, n)
            == c.char_ptr_t,
        t.at(n).kind == NodeKind::CharLiteral && c.char_t is Some ==> type_of(c, t, n) == c.char_t,
        t.at(n).kind == NodeKind::NumberLiteral ==> (text_of(c, t, n) matches Some(s) ==> {
            let fraction = text::has_char(s, '.') || text::ends(s, "f"@) || text::ends(s, "F"@);
            type_of(c, t, n) == Some(
                if fraction {
                    c.types.float_t
                } else {
                    c.types.int32_t
                },
            )
        }),
{
}

/// Brackets do not change a type, and an assignment has the type of what is assigned to.
pub proof fn brackets_and_assignments_keep_types(c: SemaView, t: SyntaxTree, n: usize, m: usize)
    requires
        t.has(n),
    ensures
        t.at(n).kind == NodeKind::ParenthesizedExpression && t.named_at(n, 0) == Some(m) ==> type_of(
            c,
            t,
            n,
        ) == type_of(c, t, m),
        t.at(n).kind == NodeKind::AssignmentExpression && field_or_child(t, n, FieldName::Left, 0)
            == Some(m) ==> type_of(c, t, n) == type_of(c, t, m),
{
    lemma_by_field(t, n, FieldName::Left);
    lemma_named(t, n, 0);
}

/// A cast has the type that is written in it.
pub proof fn casts_have_the_written_type(c: SemaView, t: SyntaxTree, n: usize, m: usize)
    requires
        t.has(n),
        t.at(n).kind == NodeKind::CastExpression,
        t.by_field(n, FieldName::Type) == Some(m),
    ensures
        type_of(c, t, n) == existing_type_at(c, t, m),
{
}

/// A negation is a truth value, a star gives what a pointer points to, and every other sign keeps
/// the type of its operand.
pub proof fn signs_have_their_types(c: SemaView, t: SyntaxTree, n: usize, m: usize)
    requires
        t.has(n),
        t.at(n).kind == NodeKind::UnaryExpression || t.at(n).kind == NodeKind::PointerExpression,
        operand_of(t, n) == Some(m),
        type_of(c, t, m) is Some,
        text_of(c, t, n) is Some,
    ensures
        ({
            let s = text_of(c, t, n)->0;
            let inner = type_of(c, t, m)->0;
            &&& text::starts(s, "!"@) ==> type_of(c, t, n) == Some(c.types.bool_t)
            &&& text::starts(s, "*"@) ==> (c.kind(inner) matches Some(
                TypeShape::Pointer { pointee, .. },
            ) ==> type_of(c, t, n) == Some(pointee))
            &&& !text::starts(s, "!"@) && !text::starts(s, "*"@) ==> type_of(c, t, n) == Some(inner)
        }),
{
    reveal_strlit("!");
    reveal_strlit("*");
    lemma_by_field(t, n, FieldName::Argument);
    lemma_named(t, n, 0);
    let s = text_of(c, t, n)->0;
    if text::starts(s, "!"@) && text::starts(s, "*"@) {
        assert(s.subrange(0, 1)[0] == '!');
    }
}

/// A subscript picks an element of an array, or what a pointer points to.
pub proof fn subscripts_pick_elements(c: SemaView, t: SyntaxTree, n: usize, m: usize)
    requires
        t.has(n),
        t.at(n).kind == NodeKind::SubscriptExpression,
        field_or_child(t, n, FieldName::Argument, 0) == Some(m),
    ensures
        type_of(c, t, m) is None ==> type_of(c, t, n) is None,
        type_of(c, t, m) matches Some(id) ==> {
            &&& c.kind(id) matches Some(TypeShape::Array { elem, .. }) ==> type_of(c, t, n) == Some(
                elem,
            )
            &&& c.kind(id) matches Some(TypeShape::Pointer { pointee, .. }) ==> type_of(c, t, n)
                == Some(pointee)
            &&& c.kind(id) matches Some(TypeShape::Class(_)) ==> type_of(c, t, n) is None
            &&& c.kind(id) matches Some(TypeShape::Builtin(_)) ==> type_of(c, t, n) is None
        },
{
    lemma_by_field(t, n, FieldName::Argument);
}

/// What a pointer points to, and what a subscript picks, is seen through references and typedefs.
pub proof fn pointers_are_seen_through(c: SemaView, id: TypeId, depth: nat)
    requires
        depth > 0,
    ensures
        c.kind(id) matches Some(TypeShape::Reference { referent, .. }) ==> pointee_of(c, id, depth)
            == pointee_of(c, referent, (depth - 1) as nat) && element_type(c, id, depth)
            == element_type(c, referent, (depth - 1) as nat),
        c.kind(id) matches Some(TypeShape::Typedef { aliased, .. }) ==> pointee_of(c, id, depth)
            == pointee_of(c, aliased, (depth - 1) as nat) && element_type(c, id, depth)
            == element_type(c, aliased, (depth - 1) as nat),
        c.kind(id) matches Some(TypeShape::Pointer { pointee, .. }) ==> pointee_of(c, id, depth)
            == Some(pointee) && element_type(c, id, depth) == Some(pointee),
        c.kind(id) matches Some(TypeShape::Array { elem, .. }) ==> pointee_of(c, id, depth) is None
            && element_type(c, id, depth) == Some(elem),
{
}

/// The type that two types have in common is one of them, and values of the other fit it at least
/// as well as the other way round. Two types of which neither fits the other have none; a type has
/// itself in common with itself and with nothing.
pub proof fn common_types_take_both(c: SemaView, l: TypeId, r: TypeId)
    ensures
        common_type(c, Some(l), Some(l)) == Some(l),
        common_type(c, Some(l), None) == Some(l),
        common_type(c, None, Some(r)) == Some(r),
        l != r && compat(c, l, r) == Compat::Incompatible && compat(c, r, l)
            == Compat::Incompatible ==> common_type(c, Some(l), Some(r)) is None,
        common_type(c, Some(l), Some(r)) matches Some(x) ==> {
            let y = if x == l {
                r
            } else {
                l
            };
            &&& x == l || x == r
            &&& x == y || compat(c, y, x) != Compat::Incompatible
            &&& x == y || rank_of(compat(c, y, x)) >= rank_of(compat(c, x, y))
        },
        compat(c, l, r) != Compat::Incompatible || compat(c, r, l) != Compat::Incompatible
            ==> common_type(c, Some(l), Some(r)) is Some,
{
    closer_conversions_rank_higher();
}

/// A choice between two expressions has the type that both have in common.
pub proof fn choices_have_the_common_type(
    c: SemaView,
    t: SyntaxTree,
    n: usize,
    yes: usize,
    no: usize,
)
    requires
        t.has(n),
        t.at(n).kind == NodeKind::ConditionalExpression,
        t.by_field(n, FieldName::Consequence) == Some(yes),
        t.by_field(n, FieldName::Alternative) == Some(no),
    ensures
        type_of(c, t, n) == common_type(c, type_of(c, t, yes), type_of(c, t, no)),
{
    lemma_by_field(t, n, FieldName::Consequence);
    lemma_by_field(t, n, FieldName::Alternative);
}

/// A call that means one function has the type that this function returns; one that may mean
/// several has none.
pub proof fn calls_have_the_type_returned(
    c: SemaView,
    symbols: Seq<SymbolId>,
    args: Seq<TypeId>,
    id: SymbolId,
)
    ensures
        resolved_among(c, symbols, args) == CallShape::Match(id) ==> (type_of_symbol(c, id) matches Some(
            f,
        ) ==> (c.kind(f) matches Some(TypeShape::Function { return_t, .. }) ==> named_call_type(
            c,
            symbols,
            args,
        ) == Some(return_t))),
        resolved_among(c, symbols, args) is Ambiguous ==> named_call_type(c, symbols, args) is None,
        resolved_among(c, symbols, args) is NoMatch && symbols.len() != 1 ==> named_call_type(
            c,
            symbols,
            args,
        ) is None,
{
}

/// A call of a member has the type that the member that is meant returns on its receiver.
pub proof fn member_calls_have_the_type_returned(
    c: SemaView,
    list: Seq<(SymbolId, SignatureView)>,
    args: Seq<TypeId>,
)
    requires
        forall|j: int, k: int|
            0 <= j < k < list.len() ==> (#[trigger] list[j]).0 != (#[trigger] list[k]).0,
    ensures
        resolved(c, list, args) is Ambiguous ==> member_call_type(c, list, args) is None,
        resolved(c, list, args) is NoMatch && list.len() != 1 ==> member_call_type(
            c,
            list,
            args,
        ) is None,
        resolved(c, list, args) is NoMatch && list.len() == 1 ==> member_call_type(c, list, args)
            == Some(list[0].1.return_t),
        forall|k: int|
            0 <= k < list.len() && resolved(c, list, args) == CallShape::Match((#[trigger] list[k]).0)
                ==> member_call_type(c, list, args) == Some(list[k].1.return_t),
{
    assert forall|k: int|
        0 <= k < list.len() && resolved(c, list, args) == CallShape::Match(
            (#[trigger] list[k]).0,
        ) implies member_call_type(c, list, args) == Some(list[k].1.return_t) by {
        lemma_return_of(list, k, 0);
    }
}

proof fn lemma_return_of(list: Seq<(SymbolId, SignatureView)>, k: int, from: int)
    requires
        0 <= from <= k < list.len(),
        forall|i: int, j: int|
            0 <= i < j < list.len() ==> (#[trigger] list[i]).0 != (#[trigger] list[j]).0,
    ensures
        super::expr::return_of(list, list[k].0, from) == Some(list[k].1.return_t),
    decreases k - from,
{
    if from < k {
        assert(list[from].0 != list[k].0);
        lemma_return_of(list, k, from + 1);
    }
}

/// The types of arguments stand in the order of the arguments: each is that of a named child.
pub proof fn argument_types_are_those_of_the_children(
    c: SemaView,
    t: SyntaxTree,
    n: usize,
    k: int,
)
    requires
        t.has(n),
        0 <= k <= t.kids(n).len(),
        forall|i: int|
            k <= i < t.kids(n).len() && t.at(#[trigger] t.kids(n)[i]).named ==> type_of(
                c,
                t,
                t.kids(n)[i],
            ) is Some,
    ensures
        types_of(c, t, n, k).len() == named_count(t, n, k),
        forall|i: int|
            k <= i < t.kids(n).len() && t.at(#[trigger] t.kids(n)[i]).named ==> type_of(
                c,
                t,
                t.kids(n)[i],
            ) == Some(types_of(c, t, n, k)[named_count(t, n, k) - named_count(t, n, i)]),
    decreases t.kids(n).len() - k,
{
    if k < t.kids(n).len() {
        argument_types_are_those_of_the_children(c, t, n, k + 1);
        let rest = types_of(c, t, n, k + 1);
        let all = types_of(c, t, n, k);
        assert forall|i: int|
            k <= i < t.kids(n).len() && t.at(#[trigger] t.kids(n)[i]).named implies type_of(
            c,
            t,
            t.kids(n)[i],
        ) == Some(all[named_count(t, n, k) - named_count(t, n, i)]) by {
            if i > k {
                lemma_named_count(t, n, k + 1, i);
                let at = named_count(t, n, k + 1) - named_count(t, n, i);
                assert(type_of(c, t, t.kids(n)[i]) == Some(rest[at]));
                if t.at(t.kids(n)[k]).named {
                    assert(all[at + 1] == rest[at]);
                }
            }
        }
    }
}

/// How many named children stand from position `k` on.
pub open spec fn named_count(t: SyntaxTree, n: usize, k: int) -> int
    decreases t.kids(n).len() - k,
{
    if k < 0 || k >= t.kids(n).len() {
        0
    } else {
        named_count(t, n, k + 1) + if t.at(t.kids(n)[k]).named {
            1int
        } else {
            0
        }
    }
}

proof fn lemma_named_count(t: SyntaxTree, n: usize, a: int, b: int)
    requires
        0 <= a <= b < t.kids(n).len(),
        t.at(t.kids(n)[b]).named,
    ensures
        0 < named_count(t, n, b) <= named_count(t, n, a),
    decreases b - a,
{
    lemma_named_count_positive(t, n, b + 1);
    if a < b {
        lemma_named_count(t, n, a + 1, b);
    }
}

proof fn lemma_named_count_positive(t: SyntaxTree, n: usize, k: int)
    ensures
        0 <= named_count(t, n, k),
    decreases t.kids(n).len() - k,
{
    if 0 <= k < t.kids(n).len() {
        lemma_named_count_positive(t, n, k + 1);
    }
}

} // verus!
