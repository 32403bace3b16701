//! What holds of the edges of a control flow graph.
use vstd::prelude::*;

use super::cfg::{
    all_linked, empty_block, entered, flow, flow_cases, flow_list, flow_switch, function_blocks,
    lemma_loop_body, linked, loop_body, next_block, or_exit, statement_like, with_stmt, BlockId, BlockView,
    Flow, Targets,
};
use super::syntax::{lemma_by_field, lemma_named, FieldName, NodeKind, SyntaxTree};

verus! {

/// No block and no edge is lost.
pub open spec fn edges_kept(before: Seq<BlockView>, after: Seq<BlockView>) -> bool {
    &&& before.len() <= after.len()
    &&& forall|i: int, x: BlockId|
        0 <= i < before.len() && #[trigger] leads(before, i, x) ==> leads(after, i, x)
}

/// An edge leads from the block at position `i` to block `x`.
pub open spec fn leads(blocks: Seq<BlockView>, i: int, x: BlockId) -> bool {
    0 <= i < blocks.len() && blocks[i].succ.contains(x)
}

proof fn lemma_kept_on(a: Seq<BlockView>, b: Seq<BlockView>, c: Seq<BlockView>)
    requires
        edges_kept(a, b),
        edges_kept(b, c),
    ensures
        edges_kept(a, c),
{
    assert forall|i: int, x: BlockId| 0 <= i < a.len() && #[trigger] leads(a, i, x) implies leads(
        c,
        i,
        x,
    ) by {
        assert(leads(b, i, x));
    }
}

proof fn lemma_linked(bs: Seq<BlockView>, from: BlockId, to: BlockId)
    ensures
        edges_kept(bs, linked(bs, from, to)),
        linked(bs, from, to).len() == bs.len(),
        from.0 < bs.len() ==> leads(linked(bs, from, to), from.0 as int, to),
{
    let r = linked(bs, from, to);
    if from.0 < bs.len() && !bs[from.0 as int].succ.contains(to) {
        let old_succ = bs[from.0 as int].succ;
        let new_succ = r[from.0 as int].succ;
        assert(new_succ == old_succ.push(to));
        assert(new_succ[old_succ.len() as int] == to);
        assert forall|i: int, x: BlockId|
            0 <= i < bs.len() && #[trigger] leads(bs, i, x) implies leads(r, i, x) by {
            if i == from.0 {
                let k = choose|k: int| 0 <= k < old_succ.len() && old_succ[k] == x;
                assert(new_succ[k] == x);
            }
        }
    }
}

proof fn lemma_all_linked(bs: Seq<BlockView>, froms: Seq<BlockId>, k: int, to: BlockId)
    requires
        0 <= k,
    ensures
        edges_kept(bs, all_linked(bs, froms, k, to)),
        all_linked(bs, froms, k, to).len() == bs.len(),
        forall|j: int|
            k <= j < froms.len() && (#[trigger] froms[j]).0 < bs.len() ==> leads(
                all_linked(bs, froms, k, to),
                froms[j].0 as int,
                to,
            ),
    decreases froms.len() - k,
{
    if k < froms.len() {
        let next = linked(bs, froms[k], to);
        lemma_linked(bs, froms[k], to);
        lemma_all_linked(next, froms, k + 1, to);
        lemma_kept_on(bs, next, all_linked(next, froms, k + 1, to));
        if froms[k].0 < bs.len() {
            assert(leads(next, froms[k].0 as int, to));
        }
    }
}

proof fn lemma_with_stmt(bs: Seq<BlockView>, t: SyntaxTree, n: usize)
    ensures
        edges_kept(bs, with_stmt(bs, t, n)),
        with_stmt(bs, t, n).len() == bs.len() + 1,
{
    let r = with_stmt(bs, t, n);
    assert forall|i: int, x: BlockId| 0 <= i < bs.len() && #[trigger] leads(bs, i, x) implies leads(
        r,
        i,
        x,
    ) by {
        assert(r[i].succ == bs[i].succ);
    }
}

proof fn lemma_entered(t: SyntaxTree, n: usize, bs: Seq<BlockView>, preds: Seq<BlockId>)
    ensures
        edges_kept(bs, entered(t, n, bs, preds)),
        entered(t, n, bs, preds).len() == bs.len() + 1,
        all_lead(entered(t, n, bs, preds), preds, bs.len(), next_block(bs)),
{
    let stmt = with_stmt(bs, t, n);
    lemma_with_stmt(bs, t, n);
    lemma_all_linked(stmt, preds, 0, next_block(bs));
    lemma_kept_on(bs, stmt, entered(t, n, bs, preds));
}

/// Every one of the blocks, among the first `count`, leads to block `x`.
pub open spec fn all_lead(blocks: Seq<BlockView>, froms: Seq<BlockId>, count: nat, x: BlockId) -> bool {
    forall|j: int|
        0 <= j < froms.len() && (#[trigger] froms[j]).0 < count ==> leads(
            blocks,
            froms[j].0 as int,
            x,
        )
}

proof fn lemma_all_lead_on(
    a: Seq<BlockView>,
    b: Seq<BlockView>,
    froms: Seq<BlockId>,
    count: nat,
    x: BlockId,
)
    requires
        edges_kept(a, b),
        all_lead(a, froms, count, x),
        count <= a.len(),
    ensures
        all_lead(b, froms, count, x),
{
    assert forall|j: int| 0 <= j < froms.len() && (#[trigger] froms[j]).0 < count implies leads(
        b,
        froms[j].0 as int,
        x,
    ) by {
        assert(leads(a, froms[j].0 as int, x));
    }
}

/// The head of a loop or a switch: its own block, entered from those before it, and the block
/// behind it.
pub open spec fn head_of(t: SyntaxTree, n: usize, bs: Seq<BlockView>, preds: Seq<BlockId>) -> Seq<
    BlockView,
> {
    let stmt = with_stmt(bs, t, n);
    linked(
        all_linked(stmt.push(empty_block()), preds, 0, next_block(bs)),
        next_block(bs),
        next_block(stmt),
    )
}

proof fn lemma_head(t: SyntaxTree, n: usize, bs: Seq<BlockView>, preds: Seq<BlockId>)
    ensures
        edges_kept(bs, head_of(t, n, bs, preds)),
        head_of(t, n, bs, preds).len() == bs.len() + 2,
        all_lead(head_of(t, n, bs, preds), preds, bs.len(), next_block(bs)),
        bs.len() < u32::MAX ==> leads(
            head_of(t, n, bs, preds),
            bs.len() as int,
            next_block(with_stmt(bs, t, n)),
        ),
{
    let own = next_block(bs);
    let stmt = with_stmt(bs, t, n);
    let more = stmt.push(empty_block());
    let all = all_linked(more, preds, 0, own);
    lemma_with_stmt(bs, t, n);
    assert forall|i: int, x: BlockId|
        0 <= i < stmt.len() && #[trigger] leads(stmt, i, x) implies leads(more, i, x) by {
        assert(more[i] == stmt[i]);
    }
    lemma_kept_on(bs, stmt, more);
    lemma_all_linked(more, preds, 0, own);
    lemma_kept_on(bs, more, all);
    lemma_linked(all, own, next_block(stmt));
    lemma_kept_on(bs, all, head_of(t, n, bs, preds));
    assert(all_lead(all, preds, bs.len(), own));
    lemma_all_lead_on(all, head_of(t, n, bs, preds), preds, bs.len(), own);
}

/// A statement loses no edge. It either makes no block, and control goes on as before, or control
/// enters its first block from all blocks before it.
proof fn lemma_flow(t: SyntaxTree, n: usize, bs: Seq<BlockView>, preds: Seq<BlockId>, to: Targets)
    requires
        t.has(n),
    ensures
        edges_kept(bs, flow(t, n, bs, preds, to).blocks),
        goes_in(bs, preds, flow(t, n, bs, preds, to)),
    decreases t.nodes@.len() - n, 2nat, 0nat,
{
    let kind = t.at(n).kind;
    let own = next_block(bs);
    let here = entered(t, n, bs, preds);
    let stmt = with_stmt(bs, t, n);
    let after = next_block(stmt);
    let head = head_of(t, n, bs, preds);
    lemma_named(t, n, 0);
    lemma_by_field(t, n, FieldName::Consequence);
    lemma_by_field(t, n, FieldName::Alternative);
    lemma_loop_body(t, n);
    lemma_entered(t, n, bs, preds);
    lemma_head(t, n, bs, preds);
    let f = flow(t, n, bs, preds, to);
    if kind == NodeKind::CompoundStatement {
        lemma_flow_list(t, n, 0, Flow { blocks: bs, open: preds }, to);
    } else if kind == NodeKind::ElseClause {
        if t.named_kids(n).len() > 0 {
            lemma_flow(t, t.named_kids(n)[0], bs, preds, to);
        } else {
            assert(edges_kept(bs, bs));
        }
    } else if kind == NodeKind::ReturnStatement || kind == NodeKind::CoReturnStatement || kind
        == NodeKind::ThrowStatement {
        lemma_linked(here, own, to.exit);
        lemma_in_on(bs, preds, here, f);
    } else if kind == NodeKind::BreakStatement {
        lemma_linked(here, own, super::cfg::or_exit(to.on_break, to.exit));
        lemma_in_on(bs, preds, here, f);
    } else if kind == NodeKind::ContinueStatement {
        lemma_linked(here, own, super::cfg::or_exit(to.on_continue, to.exit));
        lemma_in_on(bs, preds, here, f);
    } else if kind == NodeKind::IfStatement {
        if let Some(consequence) = t.by_field(n, FieldName::Consequence) {
            let first = flow(t, consequence, here, seq![own], to);
            lemma_flow(t, consequence, here, seq![own], to);
            if let Some(alternative) = t.by_field(n, FieldName::Alternative) {
                lemma_flow(t, alternative, first.blocks, seq![own], to);
                lemma_kept_on(here, first.blocks, f.blocks);
            }
            lemma_in_on(bs, preds, here, f);
        }
    } else if kind == NodeKind::WhileStatement || kind == NodeKind::ForStatement || kind
        == NodeKind::DoStatement {
        if let Some(b) = loop_body(t, n) {
            let within = Targets { exit: to.exit, on_break: Some(after), on_continue: Some(own) };
            let body = flow(t, b, head, seq![own], within);
            lemma_flow(t, b, head, seq![own], within);
            lemma_all_linked(body.blocks, body.open, 0, own);
            lemma_kept_on(head, body.blocks, f.blocks);
            lemma_in_on(bs, preds, head, f);
        }
    } else if kind == NodeKind::SwitchStatement {
        let start = Flow { blocks: head, open: Seq::empty() };
        let body = flow_switch(t, n, 0, start, own, after, to.exit);
        lemma_flow_switch(t, n, 0, start, own, after, to.exit);
        lemma_all_linked(body.blocks, body.open, 0, after);
        lemma_kept_on(head, body.blocks, f.blocks);
        lemma_in_on(bs, preds, head, f);
    }
}

/// Control goes into a statement: it makes no block and goes on as before, or it enters the first
/// block that the statement makes.
pub open spec fn goes_in(bs: Seq<BlockView>, preds: Seq<BlockId>, f: Flow) -> bool {
    f == (Flow { blocks: bs, open: preds }) || (f.blocks.len() > bs.len() && all_lead(
        f.blocks,
        preds,
        bs.len(),
        next_block(bs),
    ))
}

proof fn lemma_in_on(bs: Seq<BlockView>, preds: Seq<BlockId>, mid: Seq<BlockView>, f: Flow)
    requires
        edges_kept(bs, mid),
        mid.len() > bs.len(),
        all_lead(mid, preds, bs.len(), next_block(bs)),
        edges_kept(mid, f.blocks),
    ensures
        edges_kept(bs, f.blocks),
        goes_in(bs, preds, f),
{
    lemma_kept_on(bs, mid, f.blocks);
    lemma_all_lead_on(mid, f.blocks, preds, bs.len(), next_block(bs));
}

proof fn lemma_flow_list(t: SyntaxTree, n: usize, k: int, f: Flow, to: Targets)
    requires
        t.has(n),
        0 <= k <= t.named_kids(n).len(),
    ensures
        edges_kept(f.blocks, flow_list(t, n, k, f, to).blocks),
        goes_in(f.blocks, f.open, flow_list(t, n, k, f, to)),
    decreases t.nodes@.len() - n, 1nat, t.named_kids(n).len() - k,
{
    if k < t.named_kids(n).len() {
        lemma_named(t, n, 0);
        let child = t.named_kids(n)[k];
        if !statement_like(t.at(child).kind) {
            lemma_flow_list(t, n, k + 1, f, to);
        } else {
            let next = flow(t, child, f.blocks, f.open, to);
            lemma_flow(t, child, f.blocks, f.open, to);
            if next.open.len() > 0 {
                lemma_flow_list(t, n, k + 1, next, to);
                let last = flow_list(t, n, k + 1, next, to);
                lemma_kept_on(f.blocks, next.blocks, last.blocks);
                if next.blocks.len() > f.blocks.len() {
                    lemma_in_on(f.blocks, f.open, next.blocks, last);
                }
            }
        }
    }
}

proof fn lemma_flow_switch(
    t: SyntaxTree,
    n: usize,
    k: int,
    f: Flow,
    dispatch: BlockId,
    after: BlockId,
    exit: BlockId,
)
    requires
        t.has(n),
        0 <= k <= t.named_kids(n).len(),
    ensures
        edges_kept(f.blocks, flow_switch(t, n, k, f, dispatch, after, exit).blocks),
    decreases t.nodes@.len() - n, 1nat, t.named_kids(n).len() - k,
{
    if k < t.named_kids(n).len() {
        lemma_named(t, n, 0);
        let child = t.named_kids(n)[k];
        let next = if t.at(child).kind == NodeKind::CompoundStatement {
            flow_cases(t, child, 0, f, dispatch, after, exit)
        } else {
            f
        };
        if t.at(child).kind == NodeKind::CompoundStatement {
            lemma_flow_cases(t, child, 0, f, dispatch, after, exit);
        }
        lemma_flow_switch(t, n, k + 1, next, dispatch, after, exit);
        lemma_kept_on(
            f.blocks,
            next.blocks,
            flow_switch(t, n, k + 1, next, dispatch, after, exit).blocks,
        );
    }
}

proof fn lemma_flow_cases(
    t: SyntaxTree,
    n: usize,
    k: int,
    f: Flow,
    dispatch: BlockId,
    after: BlockId,
    exit: BlockId,
)
    requires
        t.has(n),
        0 <= k <= t.named_kids(n).len(),
    ensures
        edges_kept(f.blocks, flow_cases(t, n, k, f, dispatch, after, exit).blocks),
    decreases t.nodes@.len() - n, 0nat, t.named_kids(n).len() - k,
{
    if k < t.named_kids(n).len() {
        lemma_named(t, n, 0);
        let child = t.named_kids(n)[k];
        let to = Targets { exit, on_break: Some(after), on_continue: None };
        let is_case = t.at(child).kind == NodeKind::CaseStatement || t.at(child).kind
            == NodeKind::DefaultStatement;
        let next = if is_case {
            let body = flow(t, child, f.blocks, seq![dispatch], to);
            Flow { blocks: body.blocks, open: f.open + body.open }
        } else {
            f
        };
        if is_case {
            lemma_flow(t, child, f.blocks, seq![dispatch], to);
        }
        lemma_flow_cases(t, n, k + 1, next, dispatch, after, exit);
        lemma_kept_on(
            f.blocks,
            next.blocks,
            flow_cases(t, n, k + 1, next, dispatch, after, exit).blocks,
        );
    }
}

/// What is drawn stays drawn: a statement takes no edge away. It either makes no block, and control
/// goes on as before, or control enters its first block from all blocks before it.
pub proof fn statements_keep_edges(
    t: SyntaxTree,
    n: usize,
    bs: Seq<BlockView>,
    preds: Seq<BlockId>,
    to: Targets,
)
    requires
        t.has(n),
    ensures
        edges_kept(bs, flow(t, n, bs, preds, to).blocks),
        goes_in(bs, preds, flow(t, n, bs, preds, to)),
{
    lemma_flow(t, n, bs, preds, to);
}

/// A statement that leaves the function leads to the exit, and control does not go on behind it.
pub proof fn leaving_statements_lead_to_the_exit(
    t: SyntaxTree,
    n: usize,
    bs: Seq<BlockView>,
    preds: Seq<BlockId>,
    to: Targets,
)
    requires
        t.has(n),
        bs.len() <= u32::MAX,
        t.at(n).kind == NodeKind::ReturnStatement || t.at(n).kind == NodeKind::CoReturnStatement
            || t.at(n).kind == NodeKind::ThrowStatement,
    ensures
        flow(t, n, bs, preds, to).open.len() == 0,
        leads(flow(t, n, bs, preds, to).blocks, bs.len() as int, to.exit),
        all_lead(flow(t, n, bs, preds, to).blocks, preds, bs.len(), next_block(bs)),
{
    lemma_flow(t, n, bs, preds, to);
    let here = entered(t, n, bs, preds);
    lemma_entered(t, n, bs, preds);
    lemma_linked(here, next_block(bs), to.exit);
}

/// A loop leads back: from every end of its body control goes on to its head, and from the head to
/// the block behind the loop.
pub proof fn loops_lead_back(
    t: SyntaxTree,
    n: usize,
    bs: Seq<BlockView>,
    preds: Seq<BlockId>,
    to: Targets,
)
    requires
        t.has(n),
        bs.len() < u32::MAX,
        t.at(n).kind == NodeKind::WhileStatement || t.at(n).kind == NodeKind::ForStatement || t.at(
            n,
        ).kind == NodeKind::DoStatement,
    ensures
        ({
            let own = next_block(bs);
            let after = next_block(with_stmt(bs, t, n));
            let f = flow(t, n, bs, preds, to);
            &&& f.open == seq![after]
            &&& leads(f.blocks, bs.len() as int, after)
            &&& all_lead(f.blocks, preds, bs.len(), own)
            &&& loop_body(t, n) matches Some(b) ==> {
                let body = flow(
                    t,
                    b,
                    head_of(t, n, bs, preds),
                    seq![own],
                    Targets { exit: to.exit, on_break: Some(after), on_continue: Some(own) },
                );
                all_lead(f.blocks, body.open, body.blocks.len(), own)
            }
        }),
{
    let own = next_block(bs);
    let after = next_block(with_stmt(bs, t, n));
    let f = flow(t, n, bs, preds, to);
    let head = head_of(t, n, bs, preds);
    lemma_head(t, n, bs, preds);
    lemma_loop_body(t, n);
    if let Some(b) = loop_body(t, n) {
        let within = Targets { exit: to.exit, on_break: Some(after), on_continue: Some(own) };
        let body = flow(t, b, head, seq![own], within);
        lemma_flow(t, b, head, seq![own], within);
        lemma_all_linked(body.blocks, body.open, 0, own);
        lemma_kept_on(head, body.blocks, f.blocks);
        assert(leads(head, bs.len() as int, after));
        lemma_all_lead_on(head, f.blocks, preds, bs.len(), own);
    }
}

/// A condition leads both ways: into the first block of what follows where it holds, and into the
/// first block of the alternative; where there is no alternative, control goes on from it.
pub proof fn conditions_lead_both_ways(
    t: SyntaxTree,
    n: usize,
    bs: Seq<BlockView>,
    preds: Seq<BlockId>,
    to: Targets,
    consequence: usize,
)
    requires
        t.has(n),
        bs.len() <= u32::MAX,
        t.at(n).kind == NodeKind::IfStatement,
        t.by_field(n, FieldName::Consequence) == Some(consequence),
    ensures
        ({
            let own = next_block(bs);
            let here = entered(t, n, bs, preds);
            let f = flow(t, n, bs, preds, to);
            let first = flow(t, consequence, here, seq![own], to);
            &&& first.blocks.len() > here.len() ==> leads(
                f.blocks,
                bs.len() as int,
                next_block(here),
            )
            &&& match t.by_field(n, FieldName::Alternative) {
                Some(alternative) => flow(
                    t,
                    alternative,
                    first.blocks,
                    seq![own],
                    to,
                ).blocks.len() > first.blocks.len() ==> leads(
                    f.blocks,
                    bs.len() as int,
                    next_block(first.blocks),
                ),
                None => f.open.contains(own),
            }
        }),
{
    let own = next_block(bs);
    let here = entered(t, n, bs, preds);
    let f = flow(t, n, bs, preds, to);
    lemma_by_field(t, n, FieldName::Consequence);
    lemma_by_field(t, n, FieldName::Alternative);
    lemma_entered(t, n, bs, preds);
    let first = flow(t, consequence, here, seq![own], to);
    lemma_flow(t, consequence, here, seq![own], to);
    let preds1 = seq![own];
    assert(preds1[0] == own);
    match t.by_field(n, FieldName::Alternative) {
        Some(alternative) => {
            lemma_flow(t, alternative, first.blocks, seq![own], to);
            let second = flow(t, alternative, first.blocks, seq![own], to);
            if first.blocks.len() > here.len() {
                assert(leads(first.blocks, own.0 as int, next_block(here)));
                assert(leads(f.blocks, own.0 as int, next_block(here)));
            }
            if second.blocks.len() > first.blocks.len() {
                assert(leads(second.blocks, own.0 as int, next_block(first.blocks)));
            }
        },
        None => {
            assert(f.open[f.open.len() - 1] == own);
            if first.blocks.len() > here.len() {
                assert(leads(first.blocks, own.0 as int, next_block(here)));
            }
        },
    }
}

/// Control that reaches the end of a function goes on to its exit.
pub proof fn functions_end_at_their_exit(t: SyntaxTree, n: usize, body: usize)
    requires
        t.has(n),
        t.descendant(n, NodeKind::CompoundStatement) == Some(body),
    ensures
        ({
            let start = seq![empty_block(), empty_block()];
            let to = Targets { exit: BlockId(1), on_break: None, on_continue: None };
            let inner = flow(t, body, start, seq![BlockId(0)], to);
            all_lead(function_blocks(t, n), inner.open, inner.blocks.len(), BlockId(1))
        }),
{
    let start = seq![empty_block(), empty_block()];
    let to = Targets { exit: BlockId(1), on_break: None, on_continue: None };
    let inner = flow(t, body, start, seq![BlockId(0)], to);
    lemma_all_linked(inner.blocks, inner.open, 0, BlockId(1));
}

/// A break leads behind what it leaves, and a continue to the head of its loop; where there is none,
/// they lead to the exit. Control does not go on behind either.
pub proof fn jumps_lead_to_their_targets(
    t: SyntaxTree,
    n: usize,
    bs: Seq<BlockView>,
    preds: Seq<BlockId>,
    to: Targets,
)
    requires
        t.has(n),
        bs.len() <= u32::MAX,
        t.at(n).kind == NodeKind::BreakStatement || t.at(n).kind == NodeKind::ContinueStatement,
    ensures
        ({
            let f = flow(t, n, bs, preds, to);
            &&& f.open.len() == 0
            &&& all_lead(f.blocks, preds, bs.len(), next_block(bs))
            &&& t.at(n).kind == NodeKind::BreakStatement ==> (to.on_break matches Some(x) ==> leads(
                f.blocks,
                bs.len() as int,
                x,
            )) && (to.on_break is None ==> leads(f.blocks, bs.len() as int, to.exit))
            &&& t.at(n).kind == NodeKind::ContinueStatement ==> (to.on_continue matches Some(x)
                ==> leads(f.blocks, bs.len() as int, x)) && (to.on_continue is None ==> leads(
                f.blocks,
                bs.len() as int,
                to.exit,
            ))
        }),
{
    lemma_flow(t, n, bs, preds, to);
    let here = entered(t, n, bs, preds);
    lemma_entered(t, n, bs, preds);
    lemma_linked(here, next_block(bs), or_exit(to.on_break, to.exit));
    lemma_linked(here, next_block(bs), or_exit(to.on_continue, to.exit));
}

/// In a loop, a break as its body leads to the block behind the loop, and a continue to its head.
pub proof fn jumps_in_loops_stay_with_the_loop(
    t: SyntaxTree,
    n: usize,
    bs: Seq<BlockView>,
    preds: Seq<BlockId>,
    to: Targets,
    b: usize,
)
    requires
        t.has(n),
        bs.len() + 2 <= u32::MAX,
        t.at(n).kind == NodeKind::WhileStatement || t.at(n).kind == NodeKind::ForStatement || t.at(
            n,
        ).kind == NodeKind::DoStatement,
        loop_body(t, n) == Some(b),
    ensures
        ({
            let f = flow(t, n, bs, preds, to);
            let head = bs.len() as int;
            let inside = head + 2;
            &&& t.at(b).kind == NodeKind::BreakStatement ==> leads(
                f.blocks,
                inside,
                BlockId((head + 1) as u32),
            )
            &&& t.at(b).kind == NodeKind::ContinueStatement ==> leads(
                f.blocks,
                inside,
                BlockId(head as u32),
            )
        }),
{
    let own = next_block(bs);
    let after = next_block(with_stmt(bs, t, n));
    let head = head_of(t, n, bs, preds);
    lemma_head(t, n, bs, preds);
    lemma_loop_body(t, n);
    lemma_with_stmt(bs, t, n);
    let within = Targets { exit: to.exit, on_break: Some(after), on_continue: Some(own) };
    let body = flow(t, b, head, seq![own], within);
    if t.at(b).kind == NodeKind::BreakStatement || t.at(b).kind == NodeKind::ContinueStatement {
        jumps_lead_to_their_targets(t, b, head, seq![own], within);
        lemma_all_linked(body.blocks, body.open, 0, own);
    }
}

/// Control that comes to a switch may pass it by, and goes on behind it; it does not go on from
/// anywhere else.
pub proof fn switches_may_be_passed_by(
    t: SyntaxTree,
    n: usize,
    bs: Seq<BlockView>,
    preds: Seq<BlockId>,
    to: Targets,
)
    requires
        t.has(n),
        bs.len() < u32::MAX,
        t.at(n).kind == NodeKind::SwitchStatement,
    ensures
        ({
            let after = BlockId((bs.len() + 1) as u32);
            let f = flow(t, n, bs, preds, to);
            &&& f.open == seq![after]
            &&& leads(f.blocks, bs.len() as int, after)
            &&& all_lead(f.blocks, preds, bs.len(), next_block(bs))
        }),
{
    let own = next_block(bs);
    let after = next_block(with_stmt(bs, t, n));
    lemma_with_stmt(bs, t, n);
    let head = head_of(t, n, bs, preds);
    lemma_head(t, n, bs, preds);
    let f = flow(t, n, bs, preds, to);
    let inner = flow_switch(
        t,
        n,
        0,
        Flow { blocks: head, open: Seq::empty() },
        own,
        after,
        to.exit,
    );
    lemma_flow_switch(t, n, 0, Flow { blocks: head, open: Seq::empty() }, own, after, to.exit);
    lemma_all_linked(inner.blocks, inner.open, 0, after);
    lemma_kept_on(head, inner.blocks, f.blocks);
    assert(leads(head, bs.len() as int, after));
    lemma_all_lead_on(head, f.blocks, preds, bs.len(), own);
}

/// Every case of a switch is entered from where the switch decides, and control goes on behind the
/// case.
pub proof fn cases_are_entered_from_the_switch(
    t: SyntaxTree,
    n: usize,
    k: int,
    f: Flow,
    dispatch: BlockId,
    after: BlockId,
    exit: BlockId,
)
    requires
        t.has(n),
        0 <= k < t.named_kids(n).len(),
        dispatch.0 < f.blocks.len() < u32::MAX,
        t.at(t.named_kids(n)[k]).kind == NodeKind::CaseStatement || t.at(t.named_kids(n)[k]).kind
            == NodeKind::DefaultStatement,
    ensures
        leads(
            flow_cases(t, n, k, f, dispatch, after, exit).blocks,
            dispatch.0 as int,
            next_block(f.blocks),
        ),
        flow_cases(t, n, k, f, dispatch, after, exit).open.contains(next_block(f.blocks)),
{
    lemma_named(t, n, 0);
    let child = t.named_kids(n)[k];
    let to = Targets { exit, on_break: Some(after), on_continue: None };
    let inner = flow(t, child, f.blocks, seq![dispatch], to);
    let own = next_block(f.blocks);
    lemma_entered(t, child, f.blocks, seq![dispatch]);
    assert(inner == Flow { blocks: entered(t, child, f.blocks, seq![dispatch]), open: seq![own] });
    assert(seq![dispatch][0] == dispatch);
    assert(leads(inner.blocks, dispatch.0 as int, own));
    let next = Flow { blocks: inner.blocks, open: f.open + inner.open };
    lemma_flow_cases(t, n, k + 1, next, dispatch, after, exit);
    assert(next.open[f.open.len() as int] == own);
    lemma_cases_stay_open(t, n, k + 1, next, dispatch, after, exit, f.open.len() as int);
}

proof fn lemma_cases_stay_open(
    t: SyntaxTree,
    n: usize,
    k: int,
    f: Flow,
    dispatch: BlockId,
    after: BlockId,
    exit: BlockId,
    i: int,
)
    requires
        t.has(n),
        0 <= k <= t.named_kids(n).len(),
        0 <= i < f.open.len(),
    ensures
        flow_cases(t, n, k, f, dispatch, after, exit).open.contains(f.open[i]),
    decreases t.named_kids(n).len() - k,
{
    if k < t.named_kids(n).len() {
        lemma_named(t, n, 0);
        let child = t.named_kids(n)[k];
        let next = if t.at(child).kind == NodeKind::CaseStatement || t.at(child).kind
            == NodeKind::DefaultStatement {
            let inner = flow(
                t,
                child,
                f.blocks,
                seq![dispatch],
                Targets { exit, on_break: Some(after), on_continue: None },
            );
            Flow { blocks: inner.blocks, open: f.open + inner.open }
        } else {
            f
        };
        assert(next.open[i] == f.open[i]);
        lemma_cases_stay_open(t, n, k + 1, next, dispatch, after, exit, i);
    } else {
        assert(f.open.contains(f.open[i]));
    }
}

} // verus!
