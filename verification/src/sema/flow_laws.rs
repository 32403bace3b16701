//! What holds of the flow of data: issues stay, and control ends where a return is guaranteed.
use vstd::prelude::*;

use super::cfg::{flow, flow_list, BlockId, BlockView, Flow, Targets};
use super::dataflow::{
    after_children, after_condition, after_declaration, after_identifier, after_initializer,
    after_node, after_parameter, after_target, guarantees_return,
    some_guarantees_return, Env, IssueView, Known,
};
use super::expr::field_or_child;
use super::syntax::{lemma_by_field, lemma_named, FieldName, NodeKind, SyntaxTree};

verus! {

/// An else holds one statement.
pub open spec fn else_holds_one(t: SyntaxTree) -> bool {
    forall|n: usize|
        t.has(n) && #[trigger] t.at(n).kind == NodeKind::ElseClause ==> t.named_kids(n).len() <= 1
}

/// Where a return is guaranteed, control does not go on behind the statement.
pub proof fn control_ends_at_guaranteed_returns(
    t: SyntaxTree,
    n: usize,
    bs: Seq<BlockView>,
    preds: Seq<BlockId>,
    to: Targets,
)
    requires
        t.has(n),
        else_holds_one(t),
        guarantees_return(t, n),
    ensures
        flow(t, n, bs, preds, to).open.len() == 0,
    decreases t.nodes@.len() - n, 2nat, 0nat,
{
    let kind = t.at(n).kind;
    lemma_named(t, n, 0);
    lemma_by_field(t, n, FieldName::Consequence);
    lemma_by_field(t, n, FieldName::Alternative);
    reveal_with_fuel(guarantees_return, 2);
    reveal_with_fuel(some_guarantees_return, 2);
    reveal_with_fuel(flow, 2);
    if kind == NodeKind::CompoundStatement {
        assert(some_guarantees_return(t, n, 0));
        lemma_list_ends(t, n, 0, Flow { blocks: bs, open: preds }, to);
    } else if kind == NodeKind::ElseClause {
        assert(t.named_kids(n).len() <= 1);
        assert(some_guarantees_return(t, n, 0));
        if t.named_kids(n).len() == 1 {
            assert(!some_guarantees_return(t, n, 1));
            assert(guarantees_return(t, t.named_kids(n)[0]));
            control_ends_at_guaranteed_returns(t, t.named_kids(n)[0], bs, preds, to);
        }
    } else if kind == NodeKind::IfStatement {
        let own = super::cfg::next_block(bs);
        let here = super::cfg::entered(t, n, bs, preds);
        let a = t.by_field(n, FieldName::Consequence)->0;
        let b = t.by_field(n, FieldName::Alternative)->0;
        let first = flow(t, a, here, seq![own], to);
        control_ends_at_guaranteed_returns(t, a, here, seq![own], to);
        control_ends_at_guaranteed_returns(t, b, first.blocks, seq![own], to);
    }
}

proof fn lemma_list_ends(t: SyntaxTree, n: usize, k: int, f: Flow, to: Targets)
    requires
        t.has(n),
        else_holds_one(t),
        0 <= k <= t.named_kids(n).len(),
        some_guarantees_return(t, n, k),
    ensures
        flow_list(t, n, k, f, to).open.len() == 0,
    decreases t.nodes@.len() - n, 1nat, t.named_kids(n).len() - k,
{
    if k < t.named_kids(n).len() {
        lemma_named(t, n, 0);
        let child = t.named_kids(n)[k];
        reveal_with_fuel(guarantees_return, 2);
        reveal_with_fuel(some_guarantees_return, 2);
        reveal_with_fuel(flow_list, 2);
        assert(guarantees_return(t, child) || some_guarantees_return(t, n, k + 1));
        if !super::cfg::statement_like(t.at(child).kind) {
            assert(!guarantees_return(t, child));
            lemma_list_ends(t, n, k + 1, f, to);
        } else if guarantees_return(t, child) {
            control_ends_at_guaranteed_returns(t, child, f.blocks, f.open, to);
        } else {
            let next = flow(t, child, f.blocks, f.open, to);
            if next.open.len() > 0 {
                lemma_list_ends(t, n, k + 1, next, to);
            }
        }
    }
}

/// What was found out stays: no issue is taken back, and no variable is forgotten.
pub open spec fn learns(before: Known, after: Known) -> bool {
    &&& before.issues.len() <= after.issues.len()
    &&& after.issues.take(before.issues.len() as int) == before.issues
    &&& before.vars.dom().subset_of(after.vars.dom())
}

proof fn lemma_learns_on(a: Known, b: Known, c: Known)
    requires
        learns(a, b),
        learns(b, c),
    ensures
        learns(a, c),
{
    assert(c.issues.take(a.issues.len() as int) =~= b.issues.take(a.issues.len() as int));
}

proof fn lemma_learns_same(k: Known)
    ensures
        learns(k, k),
{
    assert(k.issues.take(k.issues.len() as int) =~= k.issues);
}

proof fn lemma_learns_issue(k: Known, i: IssueView)
    ensures
        learns(k, super::dataflow::with_issue(k, i)),
{
    let after = super::dataflow::with_issue(k, i);
    assert(after.issues.take(k.issues.len() as int) =~= k.issues);
}

proof fn lemma_steps_learn(e: Env, n: usize, k: Known)
    ensures
        learns(k, after_declaration(e, n, k)),
        learns(k, after_parameter(e, n, k)),
        learns(k, after_identifier(e, n, k)),
        learns(k, after_target(e, n, k)),
        learns(k, after_condition(e, n, k)),
{
    lemma_learns_same(k);
    assert forall|i: IssueView| learns(k, #[trigger] super::dataflow::with_issue(k, i)) by {
        lemma_learns_issue(k, i);
    }
}

/// Reading a piece of a function takes back no issue and forgets no variable.
pub proof fn issues_are_kept(e: Env, n: usize, k: Known)
    requires
        e.has(n),
    ensures
        learns(k, after_node(e, n, k)),
    decreases e.t.nodes@.len() - n, 1nat, 0nat,
{
    let kind = e.t.at(n).kind;
    lemma_steps_learn(e, n, k);
    lemma_learns_same(k);
    if kind == NodeKind::Declaration {
        lemma_by_field(e.t, n, FieldName::Declarator);
        let declared = after_declaration(e, n, k);
        if let Some(d) = e.t.by_field(n, FieldName::Declarator) {
            lemma_initializer_learns(e, d, 0, declared);
            lemma_learns_on(k, declared, after_initializer(e, d, 0, declared));
        }
    } else if kind == NodeKind::AssignmentExpression {
        lemma_by_field(e.t, n, FieldName::Left);
        lemma_by_field(e.t, n, FieldName::Right);
        let right = match field_or_child(e.t, n, FieldName::Right, 2) {
            Some(r) => after_node(e, r, k),
            None => k,
        };
        if let Some(r) = field_or_child(e.t, n, FieldName::Right, 2) {
            issues_are_kept(e, r, k);
        }
        if let Some(l) = field_or_child(e.t, n, FieldName::Left, 0) {
            if e.t.at(l).kind == NodeKind::Identifier {
                lemma_steps_learn(e, l, right);
                lemma_learns_on(k, right, after_target(e, l, right));
            } else {
                issues_are_kept(e, l, right);
                lemma_learns_on(k, right, after_node(e, l, right));
            }
        }
    } else if kind == NodeKind::IfStatement || kind == NodeKind::WhileStatement || kind
        == NodeKind::ForStatement || kind == NodeKind::DoStatement {
        let noted = after_condition(e, n, k);
        lemma_children_learn(e, n, 0, noted);
        lemma_learns_on(k, noted, after_children(e, n, 0, noted));
    } else if kind != NodeKind::ParameterDeclaration && kind != NodeKind::Identifier {
        lemma_children_learn(e, n, 0, k);
    }
}

proof fn lemma_children_learn(e: Env, n: usize, i: int, k: Known)
    requires
        e.has(n),
        0 <= i <= e.t.kids(n).len(),
    ensures
        learns(k, after_children(e, n, i, k)),
    decreases e.t.nodes@.len() - n, 0nat, e.t.kids(n).len() - i,
{
    lemma_learns_same(k);
    if i < e.t.kids(n).len() {
        let next = after_node(e, e.t.kids(n)[i], k);
        issues_are_kept(e, e.t.kids(n)[i], k);
        lemma_children_learn(e, n, i + 1, next);
        lemma_learns_on(k, next, after_children(e, n, i + 1, next));
    }
}

proof fn lemma_initializer_learns(e: Env, n: usize, i: int, k: Known)
    requires
        e.has(n),
        0 <= i <= e.t.kids(n).len(),
    ensures
        learns(k, after_initializer(e, n, i, k)),
    decreases e.t.nodes@.len() - n, 0nat, e.t.kids(n).len() - i,
{
    lemma_learns_same(k);
    if i < e.t.kids(n).len() {
        let child = e.t.kids(n)[i];
        if e.t.at(child).kind == NodeKind::Identifier || e.t.at(child).kind
            == NodeKind::FieldIdentifier {
            lemma_initializer_learns(e, n, i + 1, k);
        } else {
            let next = after_node(e, child, k);
            issues_are_kept(e, child, k);
            lemma_initializer_learns(e, n, i + 1, next);
            lemma_learns_on(k, next, after_initializer(e, n, i + 1, next));
        }
    }
}

} // verus!
