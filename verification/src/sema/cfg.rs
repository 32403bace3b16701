//! The control flow graph of a function.
use vstd::prelude::*;

use super::syntax::{lemma_by_field, lemma_named, FieldName, NodeKind, SyntaxTree};

verus! {

#[derive(Clone, Copy, PartialEq, Eq, Structural, Hash, Debug, Default)]
pub struct BlockId(pub u32);

#[derive(Debug)]
pub struct BasicBlock {
    pub stmts: Vec<(usize, usize)>,
    pub succ: Vec<BlockId>,
}

#[derive(Debug)]
pub struct Cfg {
    pub blocks: Vec<BasicBlock>,
    pub entry: BlockId,
    pub exit: BlockId,
}

/// A block as a mathematical value.
#[verifier::ext_equal]
pub struct BlockView {
    pub stmts: Seq<(usize, usize)>,
    pub succ: Seq<BlockId>,
}

impl View for BasicBlock {
    type V = BlockView;

    open spec fn view(&self) -> BlockView {
        BlockView { stmts: self.stmts@, succ: self.succ@ }
    }
}

pub open spec fn block_views(blocks: Seq<BasicBlock>) -> Seq<BlockView> {
    blocks.map_values(|b: BasicBlock| b@)
}

pub open spec fn empty_block() -> BlockView {
    BlockView { stmts: Seq::empty(), succ: Seq::empty() }
}

pub open spec fn next_block(bs: Seq<BlockView>) -> BlockId {
    BlockId(bs.len() as u32)
}

/// The blocks with a new one that holds the statement of the node.
pub open spec fn with_stmt(bs: Seq<BlockView>, t: SyntaxTree, n: usize) -> Seq<BlockView> {
    let id = next_block(bs);
    let more = bs.push(empty_block());
    more.update(
        id.0 as int,
        BlockView {
            stmts: more[id.0 as int].stmts.push((t.at(n).start_byte, t.at(n).end_byte)),
            ..more[id.0 as int]
        },
    )
}

/// The blocks with an edge, which is drawn once.
pub open spec fn linked(bs: Seq<BlockView>, from: BlockId, to: BlockId) -> Seq<BlockView> {
    if from.0 >= bs.len() || bs[from.0 as int].succ.contains(to) {
        bs
    } else {
        bs.update(
            from.0 as int,
            BlockView { succ: bs[from.0 as int].succ.push(to), ..bs[from.0 as int] },
        )
    }
}

/// The blocks with an edge from each of those from position `k` on.
pub open spec fn all_linked(bs: Seq<BlockView>, froms: Seq<BlockId>, k: int, to: BlockId) -> Seq<BlockView>
    decreases froms.len() - k,
{
    if k < 0 || k >= froms.len() {
        bs
    } else {
        all_linked(linked(bs, froms[k], to), froms, k + 1, to)
    }
}

/// The blocks and those among them from which control goes on.
#[verifier::ext_equal]
pub struct Flow {
    pub blocks: Seq<BlockView>,
    pub open: Seq<BlockId>,
}

/// Where control goes on a return, a break and a continue.
pub struct Targets {
    pub exit: BlockId,
    pub on_break: Option<BlockId>,
    pub on_continue: Option<BlockId>,
}

pub open spec fn or_exit(target: Option<BlockId>, exit: BlockId) -> BlockId {
    match target {
        Some(b) => b,
        None => exit,
    }
}

pub open spec fn statement_like(kind: NodeKind) -> bool {
    matches!(
        kind,
        NodeKind::Declaration | NodeKind::ExpressionStatement | NodeKind::ReturnStatement
            | NodeKind::CoReturnStatement | NodeKind::ThrowStatement | NodeKind::BreakStatement
            | NodeKind::ContinueStatement | NodeKind::IfStatement | NodeKind::ForStatement
            | NodeKind::WhileStatement | NodeKind::DoStatement | NodeKind::SwitchStatement
            | NodeKind::CaseStatement | NodeKind::DefaultStatement | NodeKind::CompoundStatement
            | NodeKind::ElseClause
    )
}

/// The first body-like named child from position `k` on.
pub open spec fn body_from(t: SyntaxTree, n: usize, k: int) -> Option<usize>
    decreases t.kids(n).len() - k,
{
    if k < 0 || k >= t.kids(n).len() {
        None
    } else if t.at(t.kids(n)[k]).named && (t.at(t.kids(n)[k]).kind == NodeKind::CompoundStatement
        || t.at(t.kids(n)[k]).kind == NodeKind::ExpressionStatement) {
        Some(t.kids(n)[k])
    } else {
        body_from(t, n, k + 1)
    }
}

pub open spec fn loop_body(t: SyntaxTree, n: usize) -> Option<usize> {
    match t.by_field(n, FieldName::Body) {
        Some(b) => Some(b),
        None => body_from(t, n, 0),
    }
}

pub proof fn lemma_loop_body(t: SyntaxTree, n: usize)
    requires
        t.has(n),
    ensures
        loop_body(t, n) matches Some(b) ==> t.has(b) && b > n,
{
    lemma_by_field(t, n, FieldName::Body);
    lemma_body_from(t, n, 0);
}

proof fn lemma_body_from(t: SyntaxTree, n: usize, k: int)
    requires
        t.has(n),
    ensures
        body_from(t, n, k) matches Some(b) ==> t.has(b) && b > n,
    decreases t.kids(n).len() - k,
{
    if 0 <= k < t.kids(n).len() {
        lemma_body_from(t, n, k + 1);
    }
}

/// A block for the node, entered from those in `preds`.
pub open spec fn entered(t: SyntaxTree, n: usize, bs: Seq<BlockView>, preds: Seq<BlockId>) -> Seq<BlockView> {
    all_linked(with_stmt(bs, t, n), preds, 0, next_block(bs))
}

/// The blocks of a statement that is entered from those in `preds`.
pub open spec fn flow(t: SyntaxTree, n: usize, bs: Seq<BlockView>, preds: Seq<BlockId>, to: Targets) -> Flow
    decreases t.nodes@.len() - n, 2nat, 0nat,
    when t.has(n)
{
    let kind = t.at(n).kind;
    let own = next_block(bs);
    let here = entered(t, n, bs, preds);
    if kind == NodeKind::CompoundStatement {
        flow_list(t, n, 0, Flow { blocks: bs, open: preds }, to)
    } else if kind == NodeKind::ElseClause {
        proof {
            lemma_named(t, n, 0);
        }
        if t.named_kids(n).len() == 0 {
            Flow { blocks: bs, open: preds }
        } else {
            flow(t, t.named_kids(n)[0], bs, preds, to)
        }
    } else if kind == NodeKind::ReturnStatement || kind == NodeKind::CoReturnStatement || kind
        == NodeKind::ThrowStatement {
        Flow { blocks: linked(here, own, to.exit), open: Seq::empty() }
    } else if kind == NodeKind::BreakStatement {
        Flow { blocks: linked(here, own, or_exit(to.on_break, to.exit)), open: Seq::empty() }
    } else if kind == NodeKind::ContinueStatement {
        Flow { blocks: linked(here, own, or_exit(to.on_continue, to.exit)), open: Seq::empty() }
    } else if kind == NodeKind::IfStatement {
        proof {
            lemma_by_field(t, n, FieldName::Consequence);
            lemma_by_field(t, n, FieldName::Alternative);
        }
        match t.by_field(n, FieldName::Consequence) {
            None => Flow { blocks: here, open: seq![own] },
            Some(consequence) => {
                let first = flow(t, consequence, here, seq![own], to);
                match t.by_field(n, FieldName::Alternative) {
                    Some(alternative) => {
                        let second = flow(t, alternative, first.blocks, seq![own], to);
                        Flow { blocks: second.blocks, open: first.open + second.open }
                    },
                    None => Flow { blocks: first.blocks, open: first.open.push(own) },
                }
            },
        }
    } else if kind == NodeKind::WhileStatement || kind == NodeKind::ForStatement || kind
        == NodeKind::DoStatement {
        let stmt = with_stmt(bs, t, n);
        let after = next_block(stmt);
        let head = linked(
            all_linked(stmt.push(empty_block()), preds, 0, own),
            own,
            after,
        );
        proof {
            lemma_loop_body(t, n);
        }
        let body = match loop_body(t, n) {
            Some(b) => {
                let inner = flow(
                    t,
                    b,
                    head,
                    seq![own],
                    Targets { exit: to.exit, on_break: Some(after), on_continue: Some(own) },
                );
                all_linked(inner.blocks, inner.open, 0, own)
            },
            None => head,
        };
        Flow { blocks: body, open: seq![after] }
    } else if kind == NodeKind::SwitchStatement {
        let stmt = with_stmt(bs, t, n);
        let after = next_block(stmt);
        let head = linked(
            all_linked(stmt.push(empty_block()), preds, 0, own),
            own,
            after,
        );
        let inner = flow_switch(t, n, 0, Flow { blocks: head, open: Seq::empty() }, own, after, to.exit);
        Flow { blocks: all_linked(inner.blocks, inner.open, 0, after), open: seq![after] }
    } else {
        Flow { blocks: here, open: seq![own] }
    }
}

/// The statements of a block from position `k` on, one after the other until control ends.
pub open spec fn flow_list(t: SyntaxTree, n: usize, k: int, f: Flow, to: Targets) -> Flow
    decreases t.nodes@.len() - n, 1nat, t.named_kids(n).len() - k,
    when t.has(n) && 0 <= k <= t.named_kids(n).len()
{
    if k >= t.named_kids(n).len() {
        f
    } else {
        proof {
            lemma_named(t, n, 0);
        }
        let child = t.named_kids(n)[k];
        if !statement_like(t.at(child).kind) {
            flow_list(t, n, k + 1, f, to)
        } else {
            let next = flow(t, child, f.blocks, f.open, to);
            if next.open.len() == 0 {
                next
            } else {
                flow_list(t, n, k + 1, next, to)
            }
        }
    }
}

/// The cases in the blocks of a switch from position `k` on.
pub open spec fn flow_switch(
    t: SyntaxTree,
    n: usize,
    k: int,
    f: Flow,
    dispatch: BlockId,
    after: BlockId,
    exit: BlockId,
) -> Flow
    decreases t.nodes@.len() - n, 1nat, t.named_kids(n).len() - k,
    when t.has(n) && 0 <= k <= t.named_kids(n).len()
{
    if k >= t.named_kids(n).len() {
        f
    } else {
        proof {
            lemma_named(t, n, 0);
        }
        let child = t.named_kids(n)[k];
        let next = if t.at(child).kind == NodeKind::CompoundStatement {
            flow_cases(t, child, 0, f, dispatch, after, exit)
        } else {
            f
        };
        flow_switch(t, n, k + 1, next, dispatch, after, exit)
    }
}

pub open spec fn flow_cases(
    t: SyntaxTree,
    n: usize,
    k: int,
    f: Flow,
    dispatch: BlockId,
    after: BlockId,
    exit: BlockId,
) -> Flow
    decreases t.nodes@.len() - n, 0nat, t.named_kids(n).len() - k,
    when t.has(n) && 0 <= k <= t.named_kids(n).len()
{
    if k >= t.named_kids(n).len() {
        f
    } else {
        proof {
            lemma_named(t, n, 0);
        }
        let child = t.named_kids(n)[k];
        let next = if t.at(child).kind == NodeKind::CaseStatement || t.at(child).kind
            == NodeKind::DefaultStatement {
            let inner = flow(
                t,
                child,
                f.blocks,
                seq![dispatch],
                Targets { exit, on_break: Some(after), on_continue: None },
            );
            Flow { blocks: inner.blocks, open: f.open + inner.open }
        } else {
            f
        };
        flow_cases(t, n, k + 1, next, dispatch, after, exit)
    }
}

/// The graph of a function.
pub open spec fn function_blocks(t: SyntaxTree, n: usize) -> Seq<BlockView> {
    let start = seq![empty_block(), empty_block()];
    match t.descendant(n, NodeKind::CompoundStatement) {
        Some(body) => {
            let inner = flow(
                t,
                body,
                start,
                seq![BlockId(0)],
                Targets { exit: BlockId(1), on_break: None, on_continue: None },
            );
            all_linked(inner.blocks, inner.open, 0, BlockId(1))
        },
        None => linked(start, BlockId(0), BlockId(1)),
    }
}

fn is_statement_like(kind: NodeKind) -> (r: bool)
    ensures
        r == statement_like(kind),
{
    matches!(
        kind,
        NodeKind::Declaration | NodeKind::ExpressionStatement | NodeKind::ReturnStatement
            | NodeKind::CoReturnStatement | NodeKind::ThrowStatement | NodeKind::BreakStatement
            | NodeKind::ContinueStatement | NodeKind::IfStatement | NodeKind::ForStatement
            | NodeKind::WhileStatement | NodeKind::DoStatement | NodeKind::SwitchStatement
            | NodeKind::CaseStatement | NodeKind::DefaultStatement | NodeKind::CompoundStatement
            | NodeKind::ElseClause
    )
}

fn loop_body_node(t: &SyntaxTree, n: usize) -> (r: Option<usize>)
    requires
        t.has(n),
    ensures
        r == loop_body(*t, n),
        r matches Some(b) ==> t.has(b) && b > n,
{
    match t.child_by_field(n, FieldName::Body) {
        Some(b) => {
            return Some(b);
        },
        None => {},
    }
    let c: usize = t.nodes[n].children.len();
    let mut k: usize = 0;
    while k < c
        invariant
            t.has(n),
            c == t.kids(n).len(),
            k <= c,
            loop_body(*t, n) == body_from(*t, n, k as int),
        decreases c - k,
    {
        let child: usize = t.nodes[n].children[k];
        assert(child == t.kids(n)[k as int]);
        if t.nodes[child].named && (t.nodes[child].kind == NodeKind::CompoundStatement
            || t.nodes[child].kind == NodeKind::ExpressionStatement) {
            return Some(child);
        }
        k = k + 1;
    }
    None
}

struct CfgBuilder {
    blocks: Vec<BasicBlock>,
}

fn one(id: BlockId) -> (r: Vec<BlockId>)
    ensures
        r@ == seq![id],
{
    let mut r: Vec<BlockId> = Vec::new();
    r.push(id);
    assert(r@ =~= seq![id]);
    r
}

impl CfgBuilder {
    spec fn view(&self) -> Seq<BlockView> {
        block_views(self.blocks@)
    }

    fn new() -> (r: Self)
        ensures
            r.view() == seq![empty_block(), empty_block()],
    {
        let mut blocks: Vec<BasicBlock> = Vec::new();
        blocks.push(BasicBlock { stmts: Vec::new(), succ: Vec::new() });
        blocks.push(BasicBlock { stmts: Vec::new(), succ: Vec::new() });
        let r = CfgBuilder { blocks };
        assert(r.view()[0] =~= empty_block());
        assert(r.view()[1] =~= empty_block());
        assert(r.view() =~= seq![empty_block(), empty_block()]);
        r
    }

    fn new_block(&mut self) -> (id: BlockId)
        ensures
            final(self).view() == old(self).view().push(empty_block()),
            id == next_block(old(self).view()),
    {
        let n: usize = self.blocks.len();
        let block = BasicBlock { stmts: Vec::new(), succ: Vec::new() };
        assert(block@ =~= empty_block());
        self.blocks.push(block);
        assert(self.view() =~= old(self).view().push(empty_block()));
        BlockId(n as u32)
    }

    fn block_with_stmt(&mut self, t: &SyntaxTree, n: usize) -> (id: BlockId)
        requires
            t.has(n),
        ensures
            final(self).view() == with_stmt(old(self).view(), *t, n),
            id == next_block(old(self).view()),
    {
        let id = self.new_block();
        let ghost more = self.view();
        let i: usize = id.0 as usize;
        if i < self.blocks.len() {
            self.blocks[i].stmts.push((t.nodes[n].start_byte, t.nodes[n].end_byte));
            assert(self.view() =~= with_stmt(old(self).view(), *t, n));
        } else {
            assert(self.view() =~= with_stmt(old(self).view(), *t, n));
        }
        id
    }

    fn connect(&mut self, from: BlockId, to: BlockId)
        ensures
            final(self).view() == linked(old(self).view(), from, to),
    {
        let i: usize = from.0 as usize;
        if i >= self.blocks.len() {
            return ;
        }
        let n: usize = self.blocks[i].succ.len();
        let mut k: usize = 0;
        while k < n
            invariant
                self == old(self),
                i == from.0,
                i < self.blocks@.len(),
                n == self.blocks@[i as int].succ@.len(),
                k <= n,
                forall|j: int| 0 <= j < k ==> self.blocks@[i as int].succ@[j] != to,
            decreases n - k,
        {
            if self.blocks[i].succ[k] == to {
                assert(self.view()[i as int].succ.contains(to));
                return ;
            }
            k = k + 1;
        }
        self.blocks[i].succ.push(to);
        assert(self.view() =~= linked(old(self).view(), from, to));
    }

    fn connect_many(&mut self, from_blocks: Vec<BlockId>, to: BlockId)
        ensures
            final(self).view() == all_linked(old(self).view(), from_blocks@, 0, to),
    {
        let n: usize = from_blocks.len();
        let mut i: usize = 0;
        while i < n
            invariant
                n == from_blocks@.len(),
                i <= n,
                all_linked(old(self).view(), from_blocks@, 0, to) == all_linked(
                    self.view(),
                    from_blocks@,
                    i as int,
                    to,
                ),
            decreases n - i,
        {
            self.connect(from_blocks[i], to);
            i = i + 1;
        }
    }

    fn build_stmt(&mut self, t: &SyntaxTree, n: usize, preds: Vec<BlockId>, to: &Targets) -> (open: Vec<
        BlockId,
    >)
        requires
            t.has(n),
        ensures
            (Flow { blocks: final(self).view(), open: open@ }) == flow(
                *t,
                n,
                old(self).view(),
                preds@,
                *to,
            ),
        decreases t.nodes@.len() - n, 2nat,
    {
        match t.nodes[n].kind {
            NodeKind::CompoundStatement => self.build_list(t, n, preds, to),
            NodeKind::ElseClause => {
                let named = t.named_children(n);
                if named.len() == 0 {
                    preds
                } else {
                    self.build_stmt(t, named[0], preds, to)
                }
            },
            NodeKind::ReturnStatement | NodeKind::CoReturnStatement | NodeKind::ThrowStatement => {
                let block = self.block_with_stmt(t, n);
                self.connect_many(preds, block);
                self.connect(block, to.exit);
                Vec::new()
            },
            NodeKind::BreakStatement => {
                let block = self.block_with_stmt(t, n);
                self.connect_many(preds, block);
                let target = match to.on_break {
                    Some(b) => b,
                    None => to.exit,
                };
                self.connect(block, target);
                Vec::new()
            },
            NodeKind::ContinueStatement => {
                let block = self.block_with_stmt(t, n);
                self.connect_many(preds, block);
                let target = match to.on_continue {
                    Some(b) => b,
                    None => to.exit,
                };
                self.connect(block, target);
                Vec::new()
            },
            NodeKind::IfStatement => self.build_if(t, n, preds, to),
            NodeKind::WhileStatement | NodeKind::ForStatement | NodeKind::DoStatement => {
                self.build_loop(t, n, preds, to)
            },
            NodeKind::SwitchStatement => self.build_switch(t, n, preds, to.exit),
            _ => {
                let block = self.block_with_stmt(t, n);
                self.connect_many(preds, block);
                one(block)
            },
        }
    }

    fn build_list(&mut self, t: &SyntaxTree, n: usize, preds: Vec<BlockId>, to: &Targets) -> (open: Vec<
        BlockId,
    >)
        requires
            t.has(n),
        ensures
            (Flow { blocks: final(self).view(), open: open@ }) == flow_list(
                *t,
                n,
                0,
                Flow { blocks: old(self).view(), open: preds@ },
                *to,
            ),
        decreases t.nodes@.len() - n, 1nat,
    {
        let ghost whole = flow_list(*t, n, 0, Flow { blocks: self.view(), open: preds@ }, *to);
        let named = t.named_children(n);
        let c: usize = named.len();
        let mut open = preds;
        let mut k: usize = 0;
        while k < c
            invariant
                t.has(n),
                named@ == t.named_kids(n),
                forall|j: int| 0 <= j < named@.len() ==> t.has(#[trigger] named@[j]) && named@[j] > n,
                c == named@.len(),
                k <= c,
                whole == flow_list(*t, n, 0, Flow { blocks: old(self).view(), open: preds@ }, *to),
                whole == flow_list(
                    *t,
                    n,
                    k as int,
                    Flow { blocks: self.view(), open: open@ },
                    *to,
                ),
            decreases c - k,
        {
            let child: usize = named[k];
            if is_statement_like(t.nodes[child].kind) {
                open = self.build_stmt(t, child, open, to);
                if open.len() == 0 {
                    return open;
                }
            }
            k = k + 1;
        }
        open
    }

    fn build_if(&mut self, t: &SyntaxTree, n: usize, preds: Vec<BlockId>, to: &Targets) -> (open: Vec<
        BlockId,
    >)
        requires
            t.has(n),
            t.at(n).kind == NodeKind::IfStatement,
        ensures
            (Flow { blocks: final(self).view(), open: open@ }) == flow(
                *t,
                n,
                old(self).view(),
                preds@,
                *to,
            ),
        decreases t.nodes@.len() - n, 1nat,
    {
        let cond = self.block_with_stmt(t, n);
        self.connect_many(preds, cond);
        match t.child_by_field(n, FieldName::Consequence) {
            None => one(cond),
            Some(consequence) => {
                let mut open = self.build_stmt(t, consequence, one(cond), to);
                match t.child_by_field(n, FieldName::Alternative) {
                    Some(alternative) => {
                        let mut more = self.build_stmt(t, alternative, one(cond), to);
                        open.append(&mut more);
                    },
                    None => {
                        open.push(cond);
                    },
                }
                open
            },
        }
    }

    fn build_loop(&mut self, t: &SyntaxTree, n: usize, preds: Vec<BlockId>, to: &Targets) -> (open: Vec<
        BlockId,
    >)
        requires
            t.has(n),
            t.at(n).kind == NodeKind::WhileStatement || t.at(n).kind == NodeKind::ForStatement || t.at(
                n,
            ).kind == NodeKind::DoStatement,
        ensures
            (Flow { blocks: final(self).view(), open: open@ }) == flow(
                *t,
                n,
                old(self).view(),
                preds@,
                *to,
            ),
        decreases t.nodes@.len() - n, 1nat,
    {
        let cond = self.block_with_stmt(t, n);
        let after = self.new_block();
        self.connect_many(preds, cond);
        self.connect(cond, after);
        match loop_body_node(t, n) {
            Some(body) => {
                let inner = Targets {
                    exit: to.exit,
                    on_break: Some(after),
                    on_continue: Some(cond),
                };
                let body_open = self.build_stmt(t, body, one(cond), &inner);
                self.connect_many(body_open, cond);
            },
            None => {},
        }
        one(after)
    }

    fn build_switch(&mut self, t: &SyntaxTree, n: usize, preds: Vec<BlockId>, exit: BlockId) -> (open: Vec<
        BlockId,
    >)
        requires
            t.has(n),
            t.at(n).kind == NodeKind::SwitchStatement,
        ensures
            forall|to: Targets|
                to.exit == exit ==> (Flow { blocks: final(self).view(), open: open@ })
                    == #[trigger] flow(*t, n, old(self).view(), preds@, to),
        decreases t.nodes@.len() - n, 1nat,
    {
        let dispatch = self.block_with_stmt(t, n);
        let after = self.new_block();
        self.connect_many(preds, dispatch);
        self.connect(dispatch, after);
        let ghost head = self.view();
        let mut open: Vec<BlockId> = Vec::new();
        let named = t.named_children(n);
        let c: usize = named.len();
        let mut k: usize = 0;
        while k < c
            invariant
                t.has(n),
                named@ == t.named_kids(n),
                forall|j: int| 0 <= j < named@.len() ==> t.has(#[trigger] named@[j]) && named@[j] > n,
                c == named@.len(),
                k <= c,
                flow_switch(
                    *t,
                    n,
                    0,
                    Flow { blocks: head, open: Seq::empty() },
                    dispatch,
                    after,
                    exit,
                ) == flow_switch(
                    *t,
                    n,
                    k as int,
                    Flow { blocks: self.view(), open: open@ },
                    dispatch,
                    after,
                    exit,
                ),
            decreases c - k,
        {
            let child: usize = named[k];
            if t.nodes[child].kind == NodeKind::CompoundStatement {
                open = self.build_cases(t, child, open, dispatch, after, exit);
            }
            k = k + 1;
        }
        self.connect_many(open, after);
        one(after)
    }

    fn build_cases(
        &mut self,
        t: &SyntaxTree,
        n: usize,
        start: Vec<BlockId>,
        dispatch: BlockId,
        after: BlockId,
        exit: BlockId,
    ) -> (open: Vec<BlockId>)
        requires
            t.has(n),
        ensures
            (Flow { blocks: final(self).view(), open: open@ }) == flow_cases(
                *t,
                n,
                0,
                Flow { blocks: old(self).view(), open: start@ },
                dispatch,
                after,
                exit,
            ),
        decreases t.nodes@.len() - n, 0nat,
    {
        let ghost whole = flow_cases(
            *t,
            n,
            0,
            Flow { blocks: self.view(), open: start@ },
            dispatch,
            after,
            exit,
        );
        let named = t.named_children(n);
        let c: usize = named.len();
        let mut open = start;
        let mut k: usize = 0;
        let to = Targets { exit, on_break: Some(after), on_continue: None };
        while k < c
            invariant
                t.has(n),
                to == (Targets { exit, on_break: Some(after), on_continue: None }),
                named@ == t.named_kids(n),
                forall|j: int| 0 <= j < named@.len() ==> t.has(#[trigger] named@[j]) && named@[j] > n,
                c == named@.len(),
                k <= c,
                whole == flow_cases(
                    *t,
                    n,
                    k as int,
                    Flow { blocks: self.view(), open: open@ },
                    dispatch,
                    after,
                    exit,
                ),
            decreases c - k,
        {
            let child: usize = named[k];
            if t.nodes[child].kind == NodeKind::CaseStatement || t.nodes[child].kind
                == NodeKind::DefaultStatement {
                let mut more = self.build_stmt(t, child, one(dispatch), &to);
                open.append(&mut more);
            }
            k = k + 1;
        }
        open
    }
}

pub fn build_cfg(t: &SyntaxTree, function_node: usize) -> (r: Cfg)
    requires
        t.has(function_node),
    ensures
        block_views(r.blocks@) == function_blocks(*t, function_node),
        r.entry == BlockId(0),
        r.exit == BlockId(1),
{
    let mut builder = CfgBuilder::new();
    match t.find_descendant(function_node, NodeKind::CompoundStatement) {
        Some(body) => {
            let to = Targets { exit: BlockId(1), on_break: None, on_continue: None };
            let open = builder.build_stmt(t, body, one(BlockId(0)), &to);
            builder.connect_many(open, BlockId(1));
        },
        None => {
            builder.connect(BlockId(0), BlockId(1));
        },
    }
    Cfg { blocks: builder.blocks, entry: BlockId(0), exit: BlockId(1) }
}

// ---------------------------------------------------------------------------
// What holds of every graph
// ---------------------------------------------------------------------------
/// Every edge leads to a block and is drawn once, and none leads on from the second block, which
/// is the exit.
pub open spec fn sound_graph(bs: Seq<BlockView>) -> bool {
    &&& bs.len() >= 2
    &&& bs[1].succ.len() == 0
    &&& forall|i: int| 0 <= i < bs.len() ==> sound_edges(#[trigger] bs[i], bs.len())
}

pub open spec fn sound_edges(b: BlockView, n: nat) -> bool {
    &&& forall|k: int| 0 <= k < b.succ.len() ==> (#[trigger] b.succ[k]).0 < n
    &&& forall|k: int, m: int|
        0 <= k < m < b.succ.len() ==> (#[trigger] b.succ[k]) != (#[trigger] b.succ[m])
}

/// The blocks are there, and the exit is not among them.
spec fn inner(froms: Seq<BlockId>, n: nat) -> bool {
    forall|k: int| 0 <= k < froms.len() ==> (#[trigger] froms[k]).0 < n && froms[k].0 != 1
}

spec fn sound_targets(to: Targets, n: nat) -> bool {
    to.exit.0 < n && or_exit(to.on_break, to.exit).0 < n && or_exit(to.on_continue, to.exit).0 < n
}

spec fn sound_flow(f: Flow) -> bool {
    sound_graph(f.blocks) && inner(f.open, f.blocks.len())
}

proof fn lemma_all_linked_len(bs: Seq<BlockView>, froms: Seq<BlockId>, k: int, to: BlockId)
    ensures
        all_linked(bs, froms, k, to).len() == bs.len(),
    decreases froms.len() - k,
{
    if 0 <= k < froms.len() {
        lemma_all_linked_len(linked(bs, froms[k], to), froms, k + 1, to);
    }
}

proof fn lemma_linked_sound(bs: Seq<BlockView>, from: BlockId, to: BlockId)
    requires
        sound_graph(bs),
        from.0 != 1,
        to.0 < bs.len(),
    ensures
        sound_graph(linked(bs, from, to)),
        linked(bs, from, to).len() == bs.len(),
{
    let r = linked(bs, from, to);
    assert forall|i: int| 0 <= i < r.len() implies sound_edges(#[trigger] r[i], r.len()) by {
        assert(sound_edges(bs[i], bs.len()));
        if i == from.0 && !bs[i].succ.contains(to) {
            assert forall|k: int, m: int| 0 <= k < m < r[i].succ.len() implies (
            #[trigger] r[i].succ[k]) != (#[trigger] r[i].succ[m]) by {
                assert(r[i].succ[k] == bs[i].succ[k]);
                if m < bs[i].succ.len() {
                    assert(r[i].succ[m] == bs[i].succ[m]);
                }
            }
        }
    }
}

proof fn lemma_all_linked_sound(bs: Seq<BlockView>, froms: Seq<BlockId>, k: int, to: BlockId)
    requires
        sound_graph(bs),
        inner(froms, bs.len()),
        to.0 < bs.len(),
    ensures
        sound_graph(all_linked(bs, froms, k, to)),
        all_linked(bs, froms, k, to).len() == bs.len(),
    decreases froms.len() - k,
{
    if 0 <= k < froms.len() {
        lemma_linked_sound(bs, froms[k], to);
        lemma_all_linked_sound(linked(bs, froms[k], to), froms, k + 1, to);
    }
}

/// A new block leaves the graph sound.
proof fn lemma_grown_sound(bs: Seq<BlockView>, more: Seq<BlockView>)
    requires
        sound_graph(bs),
        more.len() == bs.len() + 1,
        forall|i: int| 0 <= i < bs.len() ==> #[trigger] more[i] == bs[i],
        more.last().succ.len() == 0,
    ensures
        sound_graph(more),
{
    assert forall|i: int| 0 <= i < more.len() implies sound_edges(#[trigger] more[i], more.len()) by {
        if i < bs.len() {
            assert(sound_edges(bs[i], bs.len()));
        }
    }
}

proof fn lemma_entered_sound(t: SyntaxTree, n: usize, bs: Seq<BlockView>, preds: Seq<BlockId>)
    requires
        sound_graph(bs),
        inner(preds, bs.len()),
        bs.len() < u32::MAX,
    ensures
        sound_graph(entered(t, n, bs, preds)),
        entered(t, n, bs, preds).len() == bs.len() + 1,
{
    lemma_grown_sound(bs, with_stmt(bs, t, n));
    lemma_all_linked_sound(with_stmt(bs, t, n), preds, 0, next_block(bs));
}

/// The head of a loop or of a switch: its own block and the one behind it.
proof fn lemma_head_sound(t: SyntaxTree, n: usize, bs: Seq<BlockView>, preds: Seq<BlockId>)
    requires
        sound_graph(bs),
        inner(preds, bs.len()),
        bs.len() + 1 < u32::MAX,
    ensures
        ({
            let own = next_block(bs);
            let stmt = with_stmt(bs, t, n);
            let after = next_block(stmt);
            let head = linked(all_linked(stmt.push(empty_block()), preds, 0, own), own, after);
            sound_graph(head) && head.len() == bs.len() + 2 && after.0 == bs.len() + 1
        }),
{
    let own = next_block(bs);
    let stmt = with_stmt(bs, t, n);
    let after = next_block(stmt);
    lemma_grown_sound(bs, stmt);
    lemma_grown_sound(stmt, stmt.push(empty_block()));
    lemma_all_linked_sound(stmt.push(empty_block()), preds, 0, own);
    lemma_linked_sound(all_linked(stmt.push(empty_block()), preds, 0, own), own, after);
}

proof fn lemma_flow_grows(t: SyntaxTree, n: usize, bs: Seq<BlockView>, preds: Seq<BlockId>, to: Targets)
    requires
        t.has(n),
    ensures
        flow(t, n, bs, preds, to).blocks.len() >= bs.len(),
    decreases t.nodes@.len() - n, 2nat, 0nat,
{
    let kind = t.at(n).kind;
    let own = next_block(bs);
    let here = entered(t, n, bs, preds);
    lemma_all_linked_len(with_stmt(bs, t, n), preds, 0, own);
    lemma_named(t, n, 0);
    lemma_by_field(t, n, FieldName::Consequence);
    lemma_by_field(t, n, FieldName::Alternative);
    lemma_loop_body(t, n);
    let stmt = with_stmt(bs, t, n);
    let after = next_block(stmt);
    let head = linked(all_linked(stmt.push(empty_block()), preds, 0, own), own, after);
    lemma_all_linked_len(stmt.push(empty_block()), preds, 0, own);
    if kind == NodeKind::CompoundStatement {
        lemma_flow_list_grows(t, n, 0, Flow { blocks: bs, open: preds }, to);
    } else if kind == NodeKind::ElseClause {
        if t.named_kids(n).len() > 0 {
            lemma_flow_grows(t, t.named_kids(n)[0], bs, preds, to);
        }
    } else if kind == NodeKind::IfStatement {
        if let Some(consequence) = t.by_field(n, FieldName::Consequence) {
            let first = flow(t, consequence, here, seq![own], to);
            lemma_flow_grows(t, consequence, here, seq![own], to);
            if let Some(alternative) = t.by_field(n, FieldName::Alternative) {
                lemma_flow_grows(t, alternative, first.blocks, seq![own], to);
            }
        }
    } else if kind == NodeKind::WhileStatement || kind == NodeKind::ForStatement || kind
        == NodeKind::DoStatement {
        if let Some(b) = loop_body(t, n) {
            let within = Targets { exit: to.exit, on_break: Some(after), on_continue: Some(own) };
            let body = flow(t, b, head, seq![own], within);
            lemma_flow_grows(t, b, head, seq![own], within);
            lemma_all_linked_len(body.blocks, body.open, 0, own);
        }
    } else if kind == NodeKind::SwitchStatement {
        let start = Flow { blocks: head, open: Seq::empty() };
        let body = flow_switch(t, n, 0, start, own, after, to.exit);
        lemma_flow_switch_grows(t, n, 0, start, own, after, to.exit);
        lemma_all_linked_len(body.blocks, body.open, 0, after);
    }
}

proof fn lemma_flow_list_grows(t: SyntaxTree, n: usize, k: int, f: Flow, to: Targets)
    requires
        t.has(n),
        0 <= k <= t.named_kids(n).len(),
    ensures
        flow_list(t, n, k, f, to).blocks.len() >= f.blocks.len(),
    decreases t.nodes@.len() - n, 1nat, t.named_kids(n).len() - k,
{
    if k < t.named_kids(n).len() {
        lemma_named(t, n, 0);
        let child = t.named_kids(n)[k];
        if !statement_like(t.at(child).kind) {
            lemma_flow_list_grows(t, n, k + 1, f, to);
        } else {
            lemma_flow_grows(t, child, f.blocks, f.open, to);
            lemma_flow_list_grows(t, n, k + 1, flow(t, child, f.blocks, f.open, to), to);
        }
    }
}

proof fn lemma_flow_switch_grows(
    t: SyntaxTree,
    n: usize,
    k: int,
    f: Flow,
    dispatch: BlockId,
    after: BlockId,
    exit: BlockId,
)
    requires
        t.has(n),
        0 <= k <= t.named_kids(n).len(),
    ensures
        flow_switch(t, n, k, f, dispatch, after, exit).blocks.len() >= f.blocks.len(),
    decreases t.nodes@.len() - n, 1nat, t.named_kids(n).len() - k,
{
    if k < t.named_kids(n).len() {
        lemma_named(t, n, 0);
        let child = t.named_kids(n)[k];
        if t.at(child).kind == NodeKind::CompoundStatement {
            lemma_flow_cases_grows(t, child, 0, f, dispatch, after, exit);
            let next = flow_cases(t, child, 0, f, dispatch, after, exit);
            lemma_flow_switch_grows(t, n, k + 1, next, dispatch, after, exit);
        } else {
            lemma_flow_switch_grows(t, n, k + 1, f, dispatch, after, exit);
        }
    }
}

proof fn lemma_flow_cases_grows(
    t: SyntaxTree,
    n: usize,
    k: int,
    f: Flow,
    dispatch: BlockId,
    after: BlockId,
    exit: BlockId,
)
    requires
        t.has(n),
        0 <= k <= t.named_kids(n).len(),
    ensures
        flow_cases(t, n, k, f, dispatch, after, exit).blocks.len() >= f.blocks.len(),
    decreases t.nodes@.len() - n, 0nat, t.named_kids(n).len() - k,
{
    if k < t.named_kids(n).len() {
        lemma_named(t, n, 0);
        let child = t.named_kids(n)[k];
        if t.at(child).kind == NodeKind::CaseStatement || t.at(child).kind
            == NodeKind::DefaultStatement {
            let to = Targets { exit, on_break: Some(after), on_continue: None };
            lemma_flow_grows(t, child, f.blocks, seq![dispatch], to);
            let body = flow(t, child, f.blocks, seq![dispatch], to);
            let next = Flow { blocks: body.blocks, open: f.open + body.open };
            lemma_flow_cases_grows(t, n, k + 1, next, dispatch, after, exit);
        } else {
            lemma_flow_cases_grows(t, n, k + 1, f, dispatch, after, exit);
        }
    }
}

proof fn lemma_flow_sound(t: SyntaxTree, n: usize, bs: Seq<BlockView>, preds: Seq<BlockId>, to: Targets)
    requires
        t.has(n),
        sound_graph(bs),
        inner(preds, bs.len()),
        sound_targets(to, bs.len()),
        flow(t, n, bs, preds, to).blocks.len() <= u32::MAX,
    ensures
        sound_flow(flow(t, n, bs, preds, to)),
    decreases t.nodes@.len() - n, 2nat, 0nat,
{
    let kind = t.at(n).kind;
    let own = next_block(bs);
    let here = entered(t, n, bs, preds);
    let r = flow(t, n, bs, preds, to);
    lemma_all_linked_len(with_stmt(bs, t, n), preds, 0, own);
    lemma_named(t, n, 0);
    lemma_by_field(t, n, FieldName::Consequence);
    lemma_by_field(t, n, FieldName::Alternative);
    lemma_loop_body(t, n);
    let stmt = with_stmt(bs, t, n);
    let after = next_block(stmt);
    let head = linked(all_linked(stmt.push(empty_block()), preds, 0, own), own, after);
    lemma_all_linked_len(stmt.push(empty_block()), preds, 0, own);
    if kind == NodeKind::CompoundStatement {
        lemma_flow_list_sound(t, n, 0, Flow { blocks: bs, open: preds }, to);
    } else if kind == NodeKind::ElseClause {
        if t.named_kids(n).len() > 0 {
            lemma_flow_sound(t, t.named_kids(n)[0], bs, preds, to);
        }
    } else if kind == NodeKind::IfStatement {
        match t.by_field(n, FieldName::Consequence) {
            None => {
                lemma_entered_sound(t, n, bs, preds);
            },
            Some(consequence) => {
                let first = flow(t, consequence, here, seq![own], to);
                lemma_flow_grows(t, consequence, here, seq![own], to);
                match t.by_field(n, FieldName::Alternative) {
                    Some(alternative) => {
                        let second = flow(t, alternative, first.blocks, seq![own], to);
                        lemma_flow_grows(t, alternative, first.blocks, seq![own], to);
                        lemma_entered_sound(t, n, bs, preds);
                        lemma_flow_sound(t, consequence, here, seq![own], to);
                        lemma_flow_sound(t, alternative, first.blocks, seq![own], to);
                        assert forall|k: int| 0 <= k < r.open.len() implies (#[trigger] r.open[k]).0
                            < r.blocks.len() && r.open[k].0 != 1 by {
                            if k < first.open.len() {
                                assert(r.open[k] == first.open[k]);
                            } else {
                                assert(r.open[k] == second.open[k - first.open.len()]);
                            }
                        }
                    },
                    None => {
                        lemma_entered_sound(t, n, bs, preds);
                        lemma_flow_sound(t, consequence, here, seq![own], to);
                    },
                }
            },
        }
    } else if kind == NodeKind::WhileStatement || kind == NodeKind::ForStatement || kind
        == NodeKind::DoStatement {
        match loop_body(t, n) {
            Some(b) => {
                let within = Targets {
                    exit: to.exit,
                    on_break: Some(after),
                    on_continue: Some(own),
                };
                let body = flow(t, b, head, seq![own], within);
                lemma_flow_grows(t, b, head, seq![own], within);
                lemma_all_linked_len(body.blocks, body.open, 0, own);
                lemma_head_sound(t, n, bs, preds);
                lemma_flow_sound(t, b, head, seq![own], within);
                lemma_all_linked_sound(body.blocks, body.open, 0, own);
            },
            None => {
                lemma_head_sound(t, n, bs, preds);
            },
        }
    } else if kind == NodeKind::SwitchStatement {
        let start = Flow { blocks: head, open: Seq::empty() };
        let body = flow_switch(t, n, 0, start, own, after, to.exit);
        lemma_flow_switch_grows(t, n, 0, start, own, after, to.exit);
        lemma_all_linked_len(body.blocks, body.open, 0, after);
        lemma_head_sound(t, n, bs, preds);
        lemma_flow_switch_sound(t, n, 0, start, own, after, to.exit);
        lemma_all_linked_sound(body.blocks, body.open, 0, after);
    } else {
        lemma_entered_sound(t, n, bs, preds);
        if kind == NodeKind::ReturnStatement || kind == NodeKind::CoReturnStatement || kind
            == NodeKind::ThrowStatement {
            lemma_linked_sound(here, own, to.exit);
        } else if kind == NodeKind::BreakStatement {
            lemma_linked_sound(here, own, or_exit(to.on_break, to.exit));
        } else if kind == NodeKind::ContinueStatement {
            lemma_linked_sound(here, own, or_exit(to.on_continue, to.exit));
        }
    }
}

proof fn lemma_flow_list_sound(t: SyntaxTree, n: usize, k: int, f: Flow, to: Targets)
    requires
        t.has(n),
        0 <= k <= t.named_kids(n).len(),
        sound_flow(f),
        sound_targets(to, f.blocks.len()),
        flow_list(t, n, k, f, to).blocks.len() <= u32::MAX,
    ensures
        sound_flow(flow_list(t, n, k, f, to)),
    decreases t.nodes@.len() - n, 1nat, t.named_kids(n).len() - k,
{
    if k < t.named_kids(n).len() {
        lemma_named(t, n, 0);
        let child = t.named_kids(n)[k];
        if !statement_like(t.at(child).kind) {
            lemma_flow_list_sound(t, n, k + 1, f, to);
        } else {
            let next = flow(t, child, f.blocks, f.open, to);
            lemma_flow_grows(t, child, f.blocks, f.open, to);
            lemma_flow_list_grows(t, n, k + 1, next, to);
            lemma_flow_sound(t, child, f.blocks, f.open, to);
            if next.open.len() > 0 {
                lemma_flow_list_sound(t, n, k + 1, next, to);
            }
        }
    }
}

proof fn lemma_flow_switch_sound(
    t: SyntaxTree,
    n: usize,
    k: int,
    f: Flow,
    dispatch: BlockId,
    after: BlockId,
    exit: BlockId,
)
    requires
        t.has(n),
        0 <= k <= t.named_kids(n).len(),
        sound_flow(f),
        inner(seq![dispatch], f.blocks.len()),
        after.0 < f.blocks.len(),
        exit.0 < f.blocks.len(),
        flow_switch(t, n, k, f, dispatch, after, exit).blocks.len() <= u32::MAX,
    ensures
        sound_flow(flow_switch(t, n, k, f, dispatch, after, exit)),
    decreases t.nodes@.len() - n, 1nat, t.named_kids(n).len() - k,
{
    assert(seq![dispatch][0] == dispatch);
    if k < t.named_kids(n).len() {
        lemma_named(t, n, 0);
        let child = t.named_kids(n)[k];
        if t.at(child).kind == NodeKind::CompoundStatement {
            let next = flow_cases(t, child, 0, f, dispatch, after, exit);
            lemma_flow_cases_grows(t, child, 0, f, dispatch, after, exit);
            lemma_flow_switch_grows(t, n, k + 1, next, dispatch, after, exit);
            lemma_flow_cases_sound(t, child, 0, f, dispatch, after, exit);
            lemma_flow_switch_sound(t, n, k + 1, next, dispatch, after, exit);
        } else {
            lemma_flow_switch_sound(t, n, k + 1, f, dispatch, after, exit);
        }
    }
}

proof fn lemma_flow_cases_sound(
    t: SyntaxTree,
    n: usize,
    k: int,
    f: Flow,
    dispatch: BlockId,
    after: BlockId,
    exit: BlockId,
)
    requires
        t.has(n),
        0 <= k <= t.named_kids(n).len(),
        sound_flow(f),
        inner(seq![dispatch], f.blocks.len()),
        after.0 < f.blocks.len(),
        exit.0 < f.blocks.len(),
        flow_cases(t, n, k, f, dispatch, after, exit).blocks.len() <= u32::MAX,
    ensures
        sound_flow(flow_cases(t, n, k, f, dispatch, after, exit)),
    decreases t.nodes@.len() - n, 0nat, t.named_kids(n).len() - k,
{
    assert(seq![dispatch][0] == dispatch);
    if k < t.named_kids(n).len() {
        lemma_named(t, n, 0);
        let child = t.named_kids(n)[k];
        if t.at(child).kind == NodeKind::CaseStatement || t.at(child).kind
            == NodeKind::DefaultStatement {
            let to = Targets { exit, on_break: Some(after), on_continue: None };
            let body = flow(t, child, f.blocks, seq![dispatch], to);
            let next = Flow { blocks: body.blocks, open: f.open + body.open };
            lemma_flow_grows(t, child, f.blocks, seq![dispatch], to);
            lemma_flow_cases_grows(t, n, k + 1, next, dispatch, after, exit);
            lemma_flow_sound(t, child, f.blocks, seq![dispatch], to);
            assert forall|i: int| 0 <= i < next.open.len() implies (#[trigger] next.open[i]).0
                < next.blocks.len() && next.open[i].0 != 1 by {
                if i < f.open.len() {
                    assert(next.open[i] == f.open[i]);
                } else {
                    assert(next.open[i] == body.open[i - f.open.len()]);
                }
            }
            lemma_flow_cases_sound(t, n, k + 1, next, dispatch, after, exit);
        } else {
            lemma_flow_cases_sound(t, n, k + 1, f, dispatch, after, exit);
        }
    }
}

/// In the graph of a function every edge leads to a block of the graph and is drawn once, and the
/// exit is final. The number of a block has 32 bits, so the graph must not hold more blocks.
pub proof fn edges_lead_to_blocks(t: SyntaxTree, n: usize)
    requires
        t.has(n),
        function_blocks(t, n).len() <= u32::MAX,
    ensures
        sound_graph(function_blocks(t, n)),
{
    let start = seq![empty_block(), empty_block()];
    assert(sound_graph(start));
    super::syntax::lemma_descendant(t, n, NodeKind::CompoundStatement);
    match t.descendant(n, NodeKind::CompoundStatement) {
        Some(body) => {
            let to = Targets { exit: BlockId(1), on_break: None, on_continue: None };
            let f = flow(t, body, start, seq![BlockId(0)], to);
            lemma_all_linked_len(f.blocks, f.open, 0, BlockId(1));
            lemma_flow_sound(t, body, start, seq![BlockId(0)], to);
            lemma_all_linked_sound(f.blocks, f.open, 0, BlockId(1));
        },
        None => {
            lemma_linked_sound(start, BlockId(0), BlockId(1));
        },
    }
}

} // verus!
