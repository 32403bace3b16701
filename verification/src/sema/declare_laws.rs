//! What the declaration of a template says.
use vstd::prelude::*;

use super::declare::{
    clause_state, constraint_from, declaration, enable_if_state, without_args, without_space,
    written_arg, written_args, ConstraintState, DeclView,
};
use super::pattern::{
    kind_among, named_pattern, param_at, param_kind, params_from, wrapped, ArgText, PatternShape,
    TemplateParamView,
};
use super::resolve::existing_type;
use super::syntax::{next_declarator, NodeKind, SyntaxTree};
use super::template::{collected, collected_from};
use super::SemaView;
use crate::text;
use crate::text_laws::first_and_last_parts;

verus! {

// ---------------------------------------------------------------------------
// Parameters
// ---------------------------------------------------------------------------
/// The parameter bears this name.
pub open spec fn called(p: TemplateParamView, name: Seq<char>) -> bool {
    match p {
        TemplateParamView::TypeParam { name: n, .. } => n == name,
        TemplateParamView::NonTypeParam { name: n, .. } => n == name,
    }
}

proof fn lemma_kind_among(params: Seq<TemplateParamView>, name: Seq<char>, upto: int)
    requires
        0 <= upto <= params.len(),
    ensures
        match kind_among(params, name, upto) {
            None => forall|i: int| 0 <= i < upto ==> !called(#[trigger] params[i], name),
            Some(is_type) => exists|i: int|
                0 <= i < upto && called(#[trigger] params[i], name) && is_type == (
                params[i] is TypeParam) && forall|j: int|
                    i < j < upto ==> !called(#[trigger] params[j], name),
        },
    decreases upto,
{
    if upto > 0 {
        if called(params[upto - 1], name) {
            assert(kind_among(params, name, upto) == Some(params[upto - 1] is TypeParam));
        } else {
            lemma_kind_among(params, name, upto - 1);
            if let Some(is_type) = kind_among(params, name, upto - 1) {
                let i = choose|i: int|
                    0 <= i < upto - 1 && called(#[trigger] params[i], name) && is_type == (
                    params[i] is TypeParam) && forall|j: int|
                        i < j < upto - 1 ==> !called(#[trigger] params[j], name);
                assert(called(params[i], name));
            }
        }
    }
}

/// In the pattern of a type, the name of a parameter for types stands for that, the name of one for
/// values for that, and any other name for itself; of two parameters of one name the last counts.
pub proof fn names_stand_for_parameters(params: Seq<TemplateParamView>, name: Seq<char>, i: int)
    requires
        forall|j: int| i < j < params.len() ==> !called(#[trigger] params[j], name),
    ensures
        0 <= i < params.len() && called(params[i], name) && params[i] is TypeParam ==> named_pattern(
            name,
            params,
        ) == PatternShape::TemplateParam(name),
        0 <= i < params.len() && called(params[i], name) && params[i] is NonTypeParam
            ==> named_pattern(name, params) == PatternShape::NonTypeParam(name),
        i == -1 ==> named_pattern(name, params) == PatternShape::Concrete(name),
{
    lemma_kind_among(params, name, params.len() as int);
    if let Some(is_type) = param_kind(params, name) {
        let k = choose|k: int|
            0 <= k < params.len() && called(#[trigger] params[k], name) && is_type == (
            params[k] is TypeParam) && forall|j: int|
                k < j < params.len() ==> !called(#[trigger] params[j], name);
        if 0 <= i < params.len() && called(params[i], name) {
            if k < i {
                assert(!called(params[i], name));
            }
            assert(k == i);
        }
        if i == -1 {
            assert(!called(params[k], name));
        }
    } else if 0 <= i < params.len() {
        assert(!called(params[i], name));
    }
}

proof fn lemma_params(t: SyntaxTree, n: usize, k: int, p: TemplateParamView)
    requires
        0 <= k <= t.kids(n).len(),
    ensures
        params_from(t, n, k).contains(p) <==> exists|i: int|
            k <= i < t.kids(n).len() && param_at(t, #[trigger] t.kids(n)[i]) == Some(p),
    decreases t.kids(n).len() - k,
{
    if k < t.kids(n).len() {
        lemma_params(t, n, k + 1, p);
        let rest = params_from(t, n, k + 1);
        let all = params_from(t, n, k);
        if let Some(x) = param_at(t, t.kids(n)[k]) {
            assert(all == seq![x] + rest);
            if x == p {
                assert(all[0] == p);
            }
            if rest.contains(p) {
                let i = choose|i: int| 0 <= i < rest.len() && rest[i] == p;
                assert(all[i + 1] == p);
            }
            if all.contains(p) {
                let i = choose|i: int| 0 <= i < all.len() && all[i] == p;
                if i > 0 {
                    assert(rest[i - 1] == p);
                } else {
                    assert(param_at(t, t.kids(n)[k]) == Some(p));
                }
            }
        }
    }
}

/// The parameters of a template are those that the children of the list declare: one for types where
/// `typename` or `class` declares it, one for values where a type stands before its name. None of
/// them is without a name.
pub proof fn parameters_are_the_declared_ones(t: SyntaxTree, n: usize, p: TemplateParamView)
    ensures
        params_from(t, n, 0).contains(p) <==> exists|i: int|
            0 <= i < t.kids(n).len() && param_at(t, #[trigger] t.kids(n)[i]) == Some(p),
        params_from(t, n, 0).contains(p) ==> !called(p, Seq::empty()),
        params_from(t, n, 0).contains(p) && p is TypeParam ==> exists|i: int|
            0 <= i < t.kids(n).len() && (t.at(#[trigger] t.kids(n)[i]).kind
                == NodeKind::TypeParameterDeclaration || t.at(t.kids(n)[i]).kind
                == NodeKind::OptionalTypeParameterDeclaration),
        params_from(t, n, 0).contains(p) && p is NonTypeParam ==> exists|i: int|
            0 <= i < t.kids(n).len() && t.at(#[trigger] t.kids(n)[i]).kind
                == NodeKind::ParameterDeclaration,
{
    lemma_params(t, n, 0, p);
    if params_from(t, n, 0).contains(p) {
        let i = choose|i: int|
            0 <= i < t.kids(n).len() && param_at(t, #[trigger] t.kids(n)[i]) == Some(p);
        assert(param_at(t, t.kids(n)[i]) == Some(p));
    }
}

/// A star in a declarator makes a pointer of the type before it, an ampersand a reference, and
/// nothing else changes it.
pub proof fn stars_make_pointers(p: PatternShape, t: SyntaxTree, n: usize)
    requires
        t.has(n),
        next_declarator(t, n) is None,
    ensures
        t.at(n).kind == NodeKind::PointerDeclarator ==> wrapped(p, t, Some(n))
            == PatternShape::Pointer(Box::new(p)),
        t.at(n).kind == NodeKind::ReferenceDeclarator ==> wrapped(p, t, Some(n))
            == PatternShape::Reference(Box::new(p)),
        t.at(n).kind != NodeKind::PointerDeclarator && t.at(n).kind != NodeKind::ReferenceDeclarator
            ==> wrapped(p, t, Some(n)) == p,
        wrapped(p, t, None) == p,
{
    reveal_with_fuel(wrapped, 2);
}

// ---------------------------------------------------------------------------
// Arguments
// ---------------------------------------------------------------------------
proof fn lemma_written_args(c: SemaView, t: SyntaxTree, n: usize, k: int, a: ArgText)
    requires
        0 <= k <= t.kids(n).len(),
    ensures
        written_args(c, t, n, k).contains(a) <==> exists|i: int|
            k <= i < t.kids(n).len() && written_arg(c, t, #[trigger] t.kids(n)[i]) == Some(a),
        written_args(c, t, n, k).len() <= t.kids(n).len() - k,
    decreases t.kids(n).len() - k,
{
    if k < t.kids(n).len() {
        lemma_written_args(c, t, n, k + 1, a);
        let rest = written_args(c, t, n, k + 1);
        let all = written_args(c, t, n, k);
        if let Some(x) = written_arg(c, t, t.kids(n)[k]) {
            assert(all == seq![x] + rest);
            if x == a {
                assert(all[0] == a);
            }
            if rest.contains(a) {
                let i = choose|i: int| 0 <= i < rest.len() && rest[i] == a;
                assert(all[i + 1] == a);
            }
            if all.contains(a) {
                let i = choose|i: int| 0 <= i < all.len() && all[i] == a;
                if i > 0 {
                    assert(rest[i - 1] == a);
                } else {
                    assert(written_arg(c, t, t.kids(n)[k]) == Some(a));
                }
            }
        }
    }
}

/// The arguments of a template are what the children of the list write: a literal writes a value, a
/// name a type where it is that of a known type and a value where it is not.
pub proof fn arguments_are_types_or_values(c: SemaView, t: SyntaxTree, n: usize, a: ArgText, m: usize)
    ensures
        written_args(c, t, n, 0).contains(a) <==> exists|i: int|
            0 <= i < t.kids(n).len() && written_arg(c, t, #[trigger] t.kids(n)[i]) == Some(a),
        written_args(c, t, n, 0).len() <= t.kids(n).len(),
        ({
            let kind = t.at(m).kind;
            let name = text::trimmed(t.text(m));
            &&& kind == NodeKind::NumberLiteral || kind == NodeKind::TrueLiteral || kind
                == NodeKind::FalseLiteral || kind == NodeKind::CharLiteral ==> (name.len() > 0
                ==> written_arg(c, t, m) == Some(ArgText::Value(name)))
            &&& kind == NodeKind::Identifier && name.len() > 0 && existing_type(c, name) is Some
                ==> written_arg(c, t, m) == Some(ArgText::Type(name))
            &&& kind == NodeKind::Identifier && name.len() > 0 && existing_type(c, name) is None
                ==> written_arg(c, t, m) == Some(ArgText::Value(name))
            &&& kind == NodeKind::PrimitiveType || kind == NodeKind::TypeIdentifier || kind
                == NodeKind::TemplateType ==> !(written_arg(c, t, m) matches Some(ArgText::Value(_)))
        }),
{
    lemma_written_args(c, t, n, 0, a);
}

/// The name of a template is what stands before its arguments.
pub proof fn arguments_are_cut_off(name: Seq<char>, rest: Seq<char>)
    requires
        !name.contains('<'),
    ensures
        without_args(name + seq!['<'] + rest) == text::trimmed(name),
        without_args(name) == text::trimmed(name),
{
    first_and_last_parts(name, '<', rest);
}

/// Of a text without its white space nothing is white space, and nothing else is missing.
pub proof fn white_space_is_taken_out(a: Seq<char>, b: Seq<char>)
    ensures
        without_space(a + b) == without_space(a) + without_space(b),
        forall|i: int|
            0 <= i < without_space(a).len() ==> !text::white_space(#[trigger] without_space(a)[i]),
        (forall|i: int| 0 <= i < a.len() ==> !text::white_space(#[trigger] a[i])) ==> without_space(
            a,
        ) == a,
        (forall|i: int| 0 <= i < a.len() ==> text::white_space(#[trigger] a[i])) ==> without_space(
            a,
        ).len() == 0,
    decreases a.len() + b.len(),
{
    if b.len() > 0 {
        let s = a + b;
        assert(s.drop_last() =~= a + b.drop_last());
        assert(s.last() == b.last());
        white_space_is_taken_out(a, b.drop_last());
        assert(without_space(s) =~= without_space(a) + without_space(b));
    } else {
        assert(a + b =~= a);
        assert(without_space(a) + without_space(b) =~= without_space(a));
        if a.len() > 0 {
            white_space_is_taken_out(a.drop_last(), Seq::empty());
            assert(a.drop_last().push(a.last()) =~= a);
            let d = a.drop_last();
            assert forall|i: int| 0 <= i < d.len() implies #[trigger] d[i] == a[i] by {}
        }
    }
}

// ---------------------------------------------------------------------------
// Conditions
// ---------------------------------------------------------------------------
/// What the instance of a template in a parameter demands.
pub open spec fn demanded(t: SyntaxTree, n: usize, i: int) -> Option<ConstraintState> {
    match t.descendant(t.kids(n)[i], NodeKind::TemplateType) {
        Some(m) => enable_if_state(t, m),
        None => None,
    }
}

proof fn lemma_constraint(t: SyntaxTree, n: usize, k: int, state: ConstraintState)
    requires
        0 <= k <= t.kids(n).len(),
        state != ConstraintState::AlwaysReject,
    ensures
        constraint_from(t, n, k, state) == ConstraintState::AlwaysReject <==> exists|i: int|
            k <= i < t.kids(n).len() && #[trigger] demanded(t, n, i) == Some(
                ConstraintState::AlwaysReject,
            ),
        constraint_from(t, n, k, state) == ConstraintState::Unconstrained <==> state
            == ConstraintState::Unconstrained && forall|i: int|
            k <= i < t.kids(n).len() ==> !((#[trigger] demanded(t, n, i)) is Some),
    decreases t.kids(n).len() - k,
{
    if k < t.kids(n).len() {
        let here = demanded(t, n, k);
        lemma_demands(t, n, k);
        if here is None {
            lemma_constraint(t, n, k + 1, state);
        } else if here != Some(ConstraintState::AlwaysReject) {
            lemma_constraint(t, n, k + 1, ConstraintState::Guarded);
        }
    }
}

proof fn lemma_demands(t: SyntaxTree, n: usize, i: int)
    ensures
        demanded(t, n, i) != Some(ConstraintState::Unconstrained),
{
}

/// A template is guarded where one of its parameters demands something, and never meant where one
/// demands what never holds.
pub proof fn demands_guard_a_template(t: SyntaxTree, n: usize)
    ensures
        ({
            let state = constraint_from(t, n, 0, ConstraintState::Unconstrained);
            &&& state == ConstraintState::AlwaysReject <==> exists|i: int|
                0 <= i < t.kids(n).len() && #[trigger] demanded(t, n, i) == Some(
                    ConstraintState::AlwaysReject,
                )
            &&& state == ConstraintState::Unconstrained <==> forall|i: int|
                0 <= i < t.kids(n).len() ==> !((#[trigger] demanded(t, n, i)) is Some)
        }),
{
    lemma_constraint(t, n, 0, ConstraintState::Unconstrained);
}

/// A clause that demands something never leaves a template without a condition.
pub proof fn clauses_guard_a_template(s: Seq<char>)
    ensures
        clause_state(s) != ConstraintState::Unconstrained,
{
}

/// The guards that a declaration shows are those of its conditions: what always rejects guards, too.
pub proof fn rejecting_templates_are_guarded(c: SemaView, t: SyntaxTree, n: usize, d: DeclView)
    requires
        declaration(c, t, n) == Some(d),
    ensures
        d.sfinae_always_rejects ==> d.is_sfinae_guarded,
        d.name.len() > 0,
        d.source.line == t.at(n).start_row as u32 && d.source.column == t.at(n).start_column as u32,
        d.end_source.line == t.at(n).end_row as u32 && d.end_source.column == t.at(n).end_column
            as u32,
{
}

/// Whether a declaration is an explicit specialization is told by its empty parameter list.
pub proof fn empty_lists_specialize(c: SemaView, t: SyntaxTree, n: usize, d: DeclView, rest: Seq<char>)
    requires
        declaration(c, t, n) == Some(d),
    ensures
        t.text_opt(n) == Some("template<>"@ + rest) ==> d.is_explicit_specialization,
        t.text_opt(n) == Some("template <>"@ + rest) ==> d.is_explicit_specialization,
        t.text_opt(n) == Some("template<t"@ + rest) || t.text_opt(n) == Some("template <t"@ + rest)
            || t.text_opt(n) == Some("template<c"@ + rest) || t.text_opt(n) == Some(
            "template <c"@ + rest,
        ) ==> !d.is_explicit_specialization,
{
    reveal_strlit("template<>");
    reveal_strlit("template <>");
    reveal_strlit("template<t");
    reveal_strlit("template <t");
    reveal_strlit("template<c");
    reveal_strlit("template <c");
    if t.text_opt(n) is Some {
        let s = t.text_opt(n)->0;
        if s.len() >= 11 || s == "template<>"@ + rest || s == "template<t"@ + rest || s
            == "template<c"@ + rest {
            if s[0] == 't' {
                assert(text::trimmed_start(s) == s);
                assert(s.subrange(0, 10)[8] == s[8]);
                assert(s.subrange(0, 10)[9] == s[9]);
                if s == "template<>"@ + rest {
                    assert(s.subrange(0, 10) =~= "template<>"@);
                }
                if s.len() >= 11 {
                    assert(s.subrange(0, 11)[8] == s[8]);
                    assert(s.subrange(0, 11)[9] == s[9]);
                    assert(s.subrange(0, 11)[10] == s[10]);
                    if s == "template <>"@ + rest {
                        assert(s.subrange(0, 11) =~= "template <>"@);
                    }
                }
            }
        }
    }
}

// ---------------------------------------------------------------------------
// Collecting
// ---------------------------------------------------------------------------
/// The template is declared at a node.
pub open spec fn declared_at_node(c: SemaView, t: SyntaxTree, d: DeclView, m: usize) -> bool {
    t.has(m) && t.at(m).kind == NodeKind::TemplateDeclaration && declaration(c, t, m) == Some(d)
}

proof fn lemma_collected(c: SemaView, t: SyntaxTree, n: usize, d: DeclView)
    requires
        t.has(n),
        collected(c, t, n).contains(d),
    ensures
        exists|m: usize| declared_at_node(c, t, d, m),
    decreases t.nodes@.len() - n, t.kids(n).len() + 1,
{
    let own = super::template::declared_at(c, t, n);
    let below = collected_from(c, t, n, 0);
    let all = collected(c, t, n);
    let i = choose|i: int| 0 <= i < all.len() && all[i] == d;
    if i < own.len() {
        assert(own[i] == d);
        assert(declared_at_node(c, t, d, n));
    } else {
        assert(below[i - own.len()] == d);
        lemma_collected_from(c, t, n, 0, d);
    }
}

proof fn lemma_collected_from(c: SemaView, t: SyntaxTree, n: usize, k: int, d: DeclView)
    requires
        t.has(n),
        0 <= k <= t.kids(n).len(),
        collected_from(c, t, n, k).contains(d),
    ensures
        exists|m: usize| declared_at_node(c, t, d, m),
    decreases t.nodes@.len() - n, t.kids(n).len() - k,
{
    if k < t.kids(n).len() {
        let first = collected(c, t, t.kids(n)[k]);
        let rest = collected_from(c, t, n, k + 1);
        let all = collected_from(c, t, n, k);
        let i = choose|i: int| 0 <= i < all.len() && all[i] == d;
        if i < first.len() {
            assert(first[i] == d);
            lemma_collected(c, t, t.kids(n)[k], d);
        } else {
            assert(rest[i - first.len()] == d);
            lemma_collected_from(c, t, n, k + 1, d);
        }
    }
}

proof fn lemma_kid_collected(c: SemaView, t: SyntaxTree, n: usize, k: int, i: int, d: DeclView)
    requires
        t.has(n),
        0 <= k <= i < t.kids(n).len(),
        collected(c, t, t.kids(n)[i]).contains(d),
    ensures
        collected_from(c, t, n, k).contains(d),
    decreases i - k,
{
    let first = collected(c, t, t.kids(n)[k]);
    let rest = collected_from(c, t, n, k + 1);
    let all = collected_from(c, t, n, k);
    assert(all == first + rest);
    if k == i {
        let j = choose|j: int| 0 <= j < first.len() && first[j] == d;
        assert(all[j] == d);
    } else {
        lemma_kid_collected(c, t, n, k + 1, i, d);
        let j = choose|j: int| 0 <= j < rest.len() && rest[j] == d;
        assert(all[first.len() + j] == d);
    }
}

/// The templates of a piece of source are those that are declared in it: nothing else is taken for
/// one, the one that a node declares is among them, and so are those of all its children.
pub proof fn declared_templates_are_collected(
    c: SemaView,
    t: SyntaxTree,
    n: usize,
    i: int,
    d: DeclView,
)
    requires
        t.has(n),
    ensures
        collected(c, t, n).contains(d) ==> exists|m: usize| declared_at_node(c, t, d, m),
        declared_at_node(c, t, d, n) ==> collected(c, t, n).contains(d),
        0 <= i < t.kids(n).len() && collected(c, t, t.kids(n)[i]).contains(d) ==> collected(
            c,
            t,
            n,
        ).contains(d),
{
    let own = super::template::declared_at(c, t, n);
    let below = collected_from(c, t, n, 0);
    let all = collected(c, t, n);
    assert(all == own + below);
    if all.contains(d) {
        lemma_collected(c, t, n, d);
    }
    if declared_at_node(c, t, d, n) {
        assert(own[0] == d);
        assert(all[0] == d);
    }
    if 0 <= i < t.kids(n).len() && collected(c, t, t.kids(n)[i]).contains(d) {
        lemma_kid_collected(c, t, n, 0, i, d);
        let j = choose|j: int| 0 <= j < below.len() && below[j] == d;
        assert(all[own.len() + j] == d);
    }
}

} // verus!
