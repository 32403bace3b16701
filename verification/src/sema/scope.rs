//! The tree of scopes and the names declared in them.
use vstd::prelude::*;

use super::symbol::{SymbolId, SymStr};
use crate::text;

verus! {

#[derive(Clone, Copy, PartialEq, Eq, Structural, Hash, Debug, Default)]
pub struct ScopeId(pub u32);

#[derive(Clone, Copy, PartialEq, Eq, Structural, Debug)]
pub enum ScopeKind {
    Global,
    Namespace,
    Class,
    Function,
    Block,
    Template,
}

/// A scope with the symbols declared in it, in the order of their declarations.
#[derive(Debug)]
pub struct Scope {
    pub parent: Option<ScopeId>,
    pub kind: ScopeKind,
    pub symbols: Vec<(SymStr, SymbolId)>,
    pub using_decls: Vec<SymStr>,
    pub anon_count: u32,
}

#[verifier::ext_equal]
pub struct ScopeView {
    pub parent: Option<ScopeId>,
    pub kind: ScopeKind,
    pub symbols: Seq<(Seq<char>, SymbolId)>,
    pub using_decls: Seq<Seq<char>>,
    pub anon_count: u32,
}

pub open spec fn declared(symbols: Seq<(SymStr, SymbolId)>) -> Seq<(Seq<char>, SymbolId)> {
    symbols.map_values(|e: (SymStr, SymbolId)| (e.0@, e.1))
}

impl View for Scope {
    type V = ScopeView;

    open spec fn view(&self) -> ScopeView {
        ScopeView {
            parent: self.parent,
            kind: self.kind,
            symbols: declared(self.symbols@),
            using_decls: text::texts(self.using_decls@),
            anon_count: self.anon_count,
        }
    }
}

/// The symbols declared under the name from position `from` on.
pub open spec fn named_from(symbols: Seq<(Seq<char>, SymbolId)>, name: Seq<char>, from: int) -> Seq<
    SymbolId,
>
    decreases symbols.len() - from,
{
    if from < 0 || from >= symbols.len() {
        Seq::empty()
    } else if symbols[from].0 == name {
        seq![symbols[from].1] + named_from(symbols, name, from + 1)
    } else {
        named_from(symbols, name, from + 1)
    }
}

impl ScopeView {
    /// The symbols declared under the name, in the order of their declarations.
    pub open spec fn named(self, name: Seq<char>) -> Seq<SymbolId> {
        named_from(self.symbols, name, 0)
    }
}

impl Scope {
    pub fn ids_named(&self, name: &str) -> (r: Vec<SymbolId>)
        ensures
            r@ == self@.named(name@),
    {
        let mut r: Vec<SymbolId> = Vec::new();
        let n: usize = self.symbols.len();
        let mut i: usize = 0;
        while i < n
            invariant
                n == self.symbols@.len(),
                i <= n,
                self@.named(name@) =~= r@ + named_from(self@.symbols, name@, i as int),
            decreases n - i,
        {
            if text::same(&self.symbols[i].0, name) {
                r.push(self.symbols[i].1);
            }
            i = i + 1;
        }
        r
    }
}

pub struct ScopeTree {
    pub scopes: Vec<Scope>,
    pub global: ScopeId,
}

#[verifier::ext_equal]
pub struct ScopesView {
    pub scopes: Seq<ScopeView>,
    pub global: ScopeId,
}

impl View for ScopeTree {
    type V = ScopesView;

    open spec fn view(&self) -> ScopesView {
        ScopesView { scopes: self.scopes@.map_values(|s: Scope| s@), global: self.global }
    }
}

pub open spec fn empty_scope(parent: Option<ScopeId>, kind: ScopeKind) -> ScopeView {
    ScopeView {
        parent,
        kind,
        symbols: Seq::empty(),
        using_decls: Seq::empty(),
        anon_count: 0,
    }
}

pub open spec fn opt_scope(s: Option<&Scope>) -> Option<ScopeView> {
    match s {
        Some(s) => Some(s@),
        None => None,
    }
}

impl ScopesView {
    pub open spec fn scope(self, id: ScopeId) -> Option<ScopeView> {
        if id.0 < self.scopes.len() {
            Some(self.scopes[id.0 as int])
        } else {
            None
        }
    }

    pub open spec fn parent(self, id: ScopeId) -> Option<ScopeId> {
        match self.scope(id) {
            Some(s) => s.parent,
            None => None,
        }
    }

    pub open spec fn with_scope(self, parent: Option<ScopeId>, kind: ScopeKind) -> ScopesView {
        ScopesView { scopes: self.scopes.push(empty_scope(parent, kind)), ..self }
    }

    pub open spec fn next_id(self) -> ScopeId {
        ScopeId(self.scopes.len() as u32)
    }

    /// The scopes after the symbol was declared in one of them.
    pub open spec fn declare(self, id: ScopeId, name: Seq<char>, symbol: SymbolId) -> ScopesView {
        match self.scope(id) {
            Some(s) => ScopesView {
                scopes: self.scopes.update(
                    id.0 as int,
                    ScopeView { symbols: s.symbols.push((name, symbol)), ..s },
                ),
                ..self
            },
            None => self,
        }
    }

    /// The scopes after a using declaration that the scope does not hold yet.
    pub open spec fn with_using(self, id: ScopeId, target: Seq<char>) -> ScopesView {
        match self.scope(id) {
            Some(s) => if s.using_decls.contains(target) {
                self
            } else {
                ScopesView {
                    scopes: self.scopes.update(
                        id.0 as int,
                        ScopeView { using_decls: s.using_decls.push(target), ..s },
                    ),
                    ..self
                }
            },
            None => self,
        }
    }

    /// The symbols declared in a scope under the name.
    pub open spec fn named(self, id: ScopeId, name: Seq<char>) -> Seq<SymbolId> {
        match self.scope(id) {
            Some(s) => s.named(name),
            None => Seq::empty(),
        }
    }
}

fn fresh_scope(parent: Option<ScopeId>, kind: ScopeKind) -> (r: Scope)
    ensures
        r@ == empty_scope(parent, kind),
{
    let r = Scope {
        parent,
        kind,
        symbols: Vec::new(),
        using_decls: Vec::new(),
        anon_count: 0,
    };
    assert(r@ =~= empty_scope(parent, kind));
    r
}

impl ScopeTree {
    /// The scopes in the order in which they were opened.
    pub fn iter(&self) -> (r: &[Scope])
        ensures
            r@ == self.scopes@,
    {
        self.scopes.as_slice()
    }

    pub fn new() -> (r: Self)
        ensures
            r@ == (ScopesView {
                scopes: seq![empty_scope(None, ScopeKind::Global)],
                global: ScopeId(0),
            }),
    {
        let mut scopes: Vec<Scope> = Vec::new();
        scopes.push(fresh_scope(None, ScopeKind::Global));
        let r = ScopeTree { scopes, global: ScopeId(0) };
        assert(r@.scopes =~= seq![empty_scope(None, ScopeKind::Global)]);
        r
    }

    pub fn len(&self) -> (r: usize)
        ensures
            r == self@.scopes.len(),
    {
        self.scopes.len()
    }

    pub fn add_scope(&mut self, parent: Option<ScopeId>, kind: ScopeKind) -> (id: ScopeId)
        ensures
            final(self)@ == old(self)@.with_scope(parent, kind),
            id == old(self)@.next_id(),
    {
        let n: usize = self.scopes.len();
        let id = ScopeId(n as u32);
        self.scopes.push(fresh_scope(parent, kind));
        assert(self@.scopes =~= old(self)@.scopes.push(empty_scope(parent, kind)));
        id
    }

    pub fn get(&self, id: ScopeId) -> (r: Option<&Scope>)
        ensures
            opt_scope(r) == self@.scope(id),
    {
        if (id.0 as usize) < self.scopes.len() {
            Some(&self.scopes[id.0 as usize])
        } else {
            None
        }
    }

    pub fn parent_of(&self, id: ScopeId) -> (r: Option<ScopeId>)
        ensures
            r == self@.parent(id),
    {
        match self.get(id) {
            Some(s) => s.parent,
            None => None,
        }
    }

    pub fn ids_named(&self, id: ScopeId, name: &str) -> (r: Vec<SymbolId>)
        ensures
            r@ == self@.named(id, name@),
    {
        match self.get(id) {
            Some(s) => s.ids_named(name),
            None => Vec::new(),
        }
    }

    pub fn scope_at(&self, i: usize) -> (r: &Scope)
        requires
            i < self@.scopes.len(),
        ensures
            r@ == self@.scopes[i as int],
    {
        &self.scopes[i]
    }

    pub fn get_mut(&mut self, id: ScopeId) -> (r: Option<&mut Scope>)
        ensures
            match r {
                Some(s) => old(self)@.scope(id) == Some(s@) && final(self)@ == (ScopesView {
                    scopes: old(self)@.scopes.update(id.0 as int, final(s)@),
                    ..old(self)@
                }),
                None => old(self)@.scope(id) is None && final(self)@ == old(self)@,
            },
    {
        if (id.0 as usize) < self.scopes.len() {
            Some(&mut self.scopes[id.0 as usize])
        } else {
            None
        }
    }

    pub fn declare(&mut self, id: ScopeId, name: String, symbol: SymbolId)
        ensures
            final(self)@ == old(self)@.declare(id, name@, symbol),
    {
        if (id.0 as usize) < self.scopes.len() {
            self.scopes[id.0 as usize].symbols.push((name, symbol));
            assert(self.scopes@[id.0 as int]@.symbols =~= old(self)@.scopes[id.0 as int].symbols.push(
                (name@, symbol),
            ));
            assert(self@.scopes =~= old(self)@.declare(id, name@, symbol).scopes);
        }
    }

    pub fn add_using(&mut self, id: ScopeId, target: String)
        ensures
            final(self)@ == old(self)@.with_using(id, target@),
    {
        if (id.0 as usize) < self.scopes.len() {
            if text::list_contains(&self.scopes[id.0 as usize].using_decls, &target) {
                return;
            }
            self.scopes[id.0 as usize].using_decls.push(target);
            assert(self.scopes@[id.0 as int]@.using_decls
                =~= old(self)@.scopes[id.0 as int].using_decls.push(target@));
            assert(self@.scopes =~= old(self)@.with_using(id, target@).scopes);
        }
    }
}

// ---------------------------------------------------------------------------
// What holds of declarations
// ---------------------------------------------------------------------------
proof fn lemma_named_push(
    symbols: Seq<(Seq<char>, SymbolId)>,
    name: Seq<char>,
    symbol: SymbolId,
    other: Seq<char>,
    from: int,
)
    requires
        0 <= from <= symbols.len(),
    ensures
        named_from(symbols.push((name, symbol)), other, from) == if other == name {
            named_from(symbols, other, from).push(symbol)
        } else {
            named_from(symbols, other, from)
        },
    decreases symbols.len() - from,
{
    let more = symbols.push((name, symbol));
    if from < symbols.len() {
        lemma_named_push(symbols, name, symbol, other, from + 1);
        assert(more[from] == symbols[from]);
        if symbols[from].0 == other && other == name {
            assert(seq![symbols[from].1] + named_from(symbols, other, from + 1).push(symbol) =~= (
            seq![symbols[from].1] + named_from(symbols, other, from + 1)).push(symbol));
        }
    } else {
        assert(named_from(more, other, from + 1) =~= Seq::<SymbolId>::empty());
        assert(named_from(symbols, other, from) =~= Seq::<SymbolId>::empty());
        assert(seq![symbol] + Seq::<SymbolId>::empty() =~= Seq::<SymbolId>::empty().push(symbol));
    }
}

/// A declared symbol is found under its name in its scope, behind those that were declared there
/// before; other names and other scopes are as they were.
pub proof fn declared_symbol_is_found(
    v: ScopesView,
    id: ScopeId,
    name: Seq<char>,
    symbol: SymbolId,
    other_id: ScopeId,
    other: Seq<char>,
)
    requires
        v.scope(id) is Some,
    ensures
        v.declare(id, name, symbol).named(id, name) == v.named(id, name).push(symbol),
        other != name || other_id != id ==> v.declare(id, name, symbol).named(other_id, other)
            == v.named(other_id, other),
{
    let s = v.scopes[id.0 as int];
    lemma_named_push(s.symbols, name, symbol, name, 0);
    lemma_named_push(s.symbols, name, symbol, other, 0);
}

/// A new scope is empty, and the others are as they were.
pub proof fn new_scope_is_empty(
    v: ScopesView,
    parent: Option<ScopeId>,
    kind: ScopeKind,
    other: ScopeId,
    name: Seq<char>,
)
    requires
        v.scopes.len() <= u32::MAX,
    ensures
        v.with_scope(parent, kind).scope(v.next_id()) == Some(empty_scope(parent, kind)),
        v.with_scope(parent, kind).named(v.next_id(), name).len() == 0,
        v.scope(other) is Some ==> v.with_scope(parent, kind).scope(other) == v.scope(other),
{
}

} // verus!
