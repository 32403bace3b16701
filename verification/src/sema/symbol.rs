//! The symbols that a translation unit declares.
use std::collections::HashMap;
use vstd::prelude::*;

use super::scope::ScopeId;
use super::types::TypeId;
use crate::text;

verus! {

broadcast use vstd::std_specs::hash::group_hash_axioms;

pub type SymStr = String;

#[derive(Clone, Copy, PartialEq, Eq, Structural, Hash, Debug, Default)]
pub struct SymbolId(pub u32);

#[derive(Clone, Copy, PartialEq, Eq, Structural, Hash, Debug, Default)]
pub struct ClassId(pub u32);

#[derive(Clone, Copy, PartialEq, Eq, Structural, Hash, Debug, Default)]
pub struct EnumId(pub u32);

#[derive(Clone, Copy, PartialEq, Eq, Structural, Debug)]
pub enum Storage {
    Local,
    Parameter,
    Global,
}

#[derive(Clone, Copy, PartialEq, Eq, Structural, Debug)]
pub enum Access {
    Public,
    Protected,
    Private,
}

#[derive(Clone, Copy, PartialEq, Eq, Structural, Debug)]
pub struct FuncOverload {
    pub type_id: TypeId,
    pub source: SourceRef,
    pub is_definition: bool,
}

#[derive(Clone, Copy, PartialEq, Eq, Structural, Debug, Default)]
pub struct SourceRef {
    pub line: u32,
    pub column: u32,
}

#[derive(Debug)]
pub enum SymbolKind {
    Class { class_id: ClassId, type_id: TypeId, parents: Vec<TypeId>, is_struct: bool },
    Enum { enum_id: EnumId, type_id: TypeId },
    Function { decls: Vec<FuncOverload> },
    Variable { type_id: TypeId, storage: Storage },
    Field { owner: ClassId, type_id: TypeId, access: Access },
    Method {
        owner: ClassId,
        type_id: TypeId,
        access: Access,
        is_static: bool,
        is_virtual: bool,
        is_override: bool,
    },
    Typedef { type_id: TypeId },
    Namespace { children: ScopeId },
    Template,
    EnumValue { value: i64, enum_id: EnumId },
}

/// What a symbol stands for, as a mathematical value.
#[verifier::ext_equal]
pub enum SymbolShape {
    Class { class_id: ClassId, type_id: TypeId, parents: Seq<TypeId>, is_struct: bool },
    Enum { enum_id: EnumId, type_id: TypeId },
    Function { decls: Seq<FuncOverload> },
    Variable { type_id: TypeId, storage: Storage },
    Field { owner: ClassId, type_id: TypeId, access: Access },
    Method {
        owner: ClassId,
        type_id: TypeId,
        access: Access,
        is_static: bool,
        is_virtual: bool,
        is_override: bool,
    },
    Typedef { type_id: TypeId },
    Namespace { children: ScopeId },
    Template,
    EnumValue { value: i64, enum_id: EnumId },
}

impl View for SymbolKind {
    type V = SymbolShape;

    open spec fn view(&self) -> SymbolShape {
        match *self {
            SymbolKind::Class { class_id, type_id, parents, is_struct } => SymbolShape::Class {
                class_id,
                type_id,
                parents: parents@,
                is_struct,
            },
            SymbolKind::Enum { enum_id, type_id } => SymbolShape::Enum { enum_id, type_id },
            SymbolKind::Function { decls } => SymbolShape::Function { decls: decls@ },
            SymbolKind::Variable { type_id, storage } => SymbolShape::Variable { type_id, storage },
            SymbolKind::Field { owner, type_id, access } => SymbolShape::Field {
                owner,
                type_id,
                access,
            },
            SymbolKind::Method { owner, type_id, access, is_static, is_virtual, is_override } =>
                SymbolShape::Method { owner, type_id, access, is_static, is_virtual, is_override },
            SymbolKind::Typedef { type_id } => SymbolShape::Typedef { type_id },
            SymbolKind::Namespace { children } => SymbolShape::Namespace { children },
            SymbolKind::Template => SymbolShape::Template,
            SymbolKind::EnumValue { value, enum_id } => SymbolShape::EnumValue { value, enum_id },
        }
    }
}

#[derive(Debug)]
pub struct Symbol {
    pub id: SymbolId,
    pub name: SymStr,
    pub scope: ScopeId,
    pub kind: SymbolKind,
}

#[verifier::ext_equal]
pub struct SymbolView {
    pub id: SymbolId,
    pub name: Seq<char>,
    pub scope: ScopeId,
    pub kind: SymbolShape,
}

impl View for Symbol {
    type V = SymbolView;

    open spec fn view(&self) -> SymbolView {
        SymbolView { id: self.id, name: self.name@, scope: self.scope, kind: self.kind@ }
    }
}

pub open spec fn opt_symbol(s: Option<&Symbol>) -> Option<SymbolView> {
    match s {
        Some(s) => Some(s@),
        None => None,
    }
}

/// The symbols in the order in which they came, and what is known of the classes and enums.
pub struct SymbolTable {
    pub symbols: Vec<Symbol>,
    pub class_names: Vec<SymStr>,
    pub enum_names: Vec<SymStr>,
    pub class_scopes: HashMap<u32, ScopeId>,
    pub class_parents: HashMap<u32, Vec<TypeId>>,
}

#[verifier::ext_equal]
pub struct SymbolsView {
    pub symbols: Seq<SymbolView>,
    pub class_names: Seq<Seq<char>>,
    pub enum_names: Seq<Seq<char>>,
    pub class_scopes: Map<u32, ScopeId>,
    pub class_parents: Map<u32, Seq<TypeId>>,
}

impl View for SymbolTable {
    type V = SymbolsView;

    open spec fn view(&self) -> SymbolsView {
        SymbolsView {
            symbols: self.symbols@.map_values(|s: Symbol| s@),
            class_names: text::texts(self.class_names@),
            enum_names: text::texts(self.enum_names@),
            class_scopes: self.class_scopes@,
            class_parents: self.class_parents@.map_values(|v: Vec<TypeId>| v@),
        }
    }
}

/// The position of a name from `from` on.
pub open spec fn name_index(names: Seq<Seq<char>>, name: Seq<char>, from: int) -> Option<int>
    decreases names.len() - from,
{
    if from < 0 || from >= names.len() {
        None
    } else if names[from] == name {
        Some(from)
    } else {
        name_index(names, name, from + 1)
    }
}

impl SymbolsView {
    pub open spec fn empty() -> SymbolsView {
        SymbolsView {
            symbols: Seq::empty(),
            class_names: Seq::empty(),
            enum_names: Seq::empty(),
            class_scopes: Map::empty(),
            class_parents: Map::empty(),
        }
    }

    pub open spec fn symbol(self, id: SymbolId) -> Option<SymbolView> {
        if id.0 < self.symbols.len() {
            Some(self.symbols[id.0 as int])
        } else {
            None
        }
    }

    pub open spec fn kind(self, id: SymbolId) -> Option<SymbolShape> {
        match self.symbol(id) {
            Some(s) => Some(s.kind),
            None => None,
        }
    }

    pub open spec fn next_id(self) -> SymbolId {
        SymbolId(self.symbols.len() as u32)
    }

    pub open spec fn with_symbol(self, name: Seq<char>, scope: ScopeId, kind: SymbolShape) -> SymbolsView {
        SymbolsView {
            symbols: self.symbols.push(SymbolView { id: self.next_id(), name, scope, kind }),
            ..self
        }
    }

    pub open spec fn class_id_by_name(self, name: Seq<char>) -> Option<ClassId> {
        match name_index(self.class_names, name, 0) {
            Some(i) => Some(ClassId(i as u32)),
            None => None,
        }
    }

    pub open spec fn class_id(self, name: Seq<char>) -> ClassId {
        match self.class_id_by_name(name) {
            Some(id) => id,
            None => ClassId(self.class_names.len() as u32),
        }
    }

    pub open spec fn with_class(self, name: Seq<char>) -> SymbolsView {
        match self.class_id_by_name(name) {
            Some(_) => self,
            None => SymbolsView { class_names: self.class_names.push(name), ..self },
        }
    }

    pub open spec fn enum_id_by_name(self, name: Seq<char>) -> Option<EnumId> {
        match name_index(self.enum_names, name, 0) {
            Some(i) => Some(EnumId(i as u32)),
            None => None,
        }
    }

    pub open spec fn enum_id(self, name: Seq<char>) -> EnumId {
        match self.enum_id_by_name(name) {
            Some(id) => id,
            None => EnumId(self.enum_names.len() as u32),
        }
    }

    pub open spec fn with_enum(self, name: Seq<char>) -> SymbolsView {
        match self.enum_id_by_name(name) {
            Some(_) => self,
            None => SymbolsView { enum_names: self.enum_names.push(name), ..self },
        }
    }

    pub open spec fn class_name(self, id: ClassId) -> Option<Seq<char>> {
        if id.0 < self.class_names.len() {
            Some(self.class_names[id.0 as int])
        } else {
            None
        }
    }

    pub open spec fn enum_name(self, id: EnumId) -> Option<Seq<char>> {
        if id.0 < self.enum_names.len() {
            Some(self.enum_names[id.0 as int])
        } else {
            None
        }
    }

    pub open spec fn class_scope(self, id: ClassId) -> Option<ScopeId> {
        if self.class_scopes.contains_key(id.0) {
            Some(self.class_scopes[id.0])
        } else {
            None
        }
    }

    pub open spec fn parents(self, id: ClassId) -> Seq<TypeId> {
        if self.class_parents.contains_key(id.0) {
            self.class_parents[id.0]
        } else {
            Seq::empty()
        }
    }
}

fn position_of(names: &Vec<SymStr>, name: &str) -> (r: Option<usize>)
    ensures
        match r {
            Some(i) => name_index(text::texts(names@), name@, 0) == Some(i as int) && i < names@.len(),
            None => name_index(text::texts(names@), name@, 0) is None,
        },
{
    let n: usize = names.len();
    let mut i: usize = 0;
    while i < n
        invariant
            n == names@.len(),
            i <= n,
            name_index(text::texts(names@), name@, 0) == name_index(
                text::texts(names@),
                name@,
                i as int,
            ),
        decreases n - i,
    {
        if text::same(&names[i], name) {
            return Some(i);
        }
        i = i + 1;
    }
    None
}

impl SymbolTable {
    pub fn new() -> (r: Self)
        ensures
            r@ == SymbolsView::empty(),
    {
        let r = SymbolTable {
            symbols: Vec::new(),
            class_names: Vec::new(),
            enum_names: Vec::new(),
            class_scopes: HashMap::new(),
            class_parents: HashMap::new(),
        };
        assert(r@ =~= SymbolsView::empty());
        r
    }

    pub fn add_symbol(&mut self, name: SymStr, scope: ScopeId, kind: SymbolKind) -> (id: SymbolId)
        ensures
            final(self)@ == old(self)@.with_symbol(name@, scope, kind@),
            id == old(self)@.next_id(),
    {
        let n: usize = self.symbols.len();
        let id = SymbolId(n as u32);
        self.symbols.push(Symbol { id, name, scope, kind });
        assert(self@.symbols =~= old(self)@.with_symbol(name@, scope, kind@).symbols);
        id
    }

    pub fn len(&self) -> (r: usize)
        ensures
            r == self@.symbols.len(),
    {
        self.symbols.len()
    }

    pub fn get(&self, id: SymbolId) -> (r: Option<&Symbol>)
        ensures
            opt_symbol(r) == self@.symbol(id),
    {
        if (id.0 as usize) < self.symbols.len() {
            Some(&self.symbols[id.0 as usize])
        } else {
            None
        }
    }

    pub fn new_class_id(&mut self, name: &str) -> (id: ClassId)
        ensures
            final(self)@ == old(self)@.with_class(name@),
            id == old(self)@.class_id(name@),
    {
        match position_of(&self.class_names, name) {
            Some(i) => {
                return ClassId(i as u32);
            },
            None => {},
        }
        let n: usize = self.class_names.len();
        self.class_names.push(text::copy_of(name));
        assert(self@.class_names =~= old(self)@.class_names.push(name@));
        ClassId(n as u32)
    }

    pub fn new_enum_id(&mut self, name: &str) -> (id: EnumId)
        ensures
            final(self)@ == old(self)@.with_enum(name@),
            id == old(self)@.enum_id(name@),
    {
        match position_of(&self.enum_names, name) {
            Some(i) => {
                return EnumId(i as u32);
            },
            None => {},
        }
        let n: usize = self.enum_names.len();
        self.enum_names.push(text::copy_of(name));
        assert(self@.enum_names =~= old(self)@.enum_names.push(name@));
        EnumId(n as u32)
    }

    pub fn class_name(&self, id: ClassId) -> (r: Option<&str>)
        ensures
            text::opt_str(r) == self@.class_name(id),
    {
        if (id.0 as usize) < self.class_names.len() {
            Some(self.class_names[id.0 as usize].as_str())
        } else {
            None
        }
    }

    pub fn class_id_by_name(&self, name: &str) -> (r: Option<ClassId>)
        ensures
            r == self@.class_id_by_name(name@),
    {
        match position_of(&self.class_names, name) {
            Some(i) => Some(ClassId(i as u32)),
            None => None,
        }
    }

    pub fn set_class_scope(&mut self, class_id: ClassId, scope_id: ScopeId)
        ensures
            final(self)@ == (SymbolsView {
                class_scopes: old(self)@.class_scopes.insert(class_id.0, scope_id),
                ..old(self)@
            }),
    {
        self.class_scopes.insert(class_id.0, scope_id);
    }

    pub fn class_scope(&self, class_id: ClassId) -> (r: Option<ScopeId>)
        ensures
            r == self@.class_scope(class_id),
    {
        match self.class_scopes.get(&class_id.0) {
            Some(s) => Some(*s),
            None => None,
        }
    }

    pub fn set_class_parents(&mut self, class_id: ClassId, parents: Vec<TypeId>)
        ensures
            final(self)@ == (SymbolsView {
                class_parents: old(self)@.class_parents.insert(class_id.0, parents@),
                ..old(self)@
            }),
    {
        self.class_parents.insert(class_id.0, parents);
        assert(self@.class_parents =~= old(self)@.class_parents.insert(class_id.0, parents@));
    }

    pub fn class_parents(&self, class_id: ClassId) -> (r: &[TypeId])
        ensures
            r@ == self@.parents(class_id),
    {
        match self.class_parents.get(&class_id.0) {
            Some(v) => v.as_slice(),
            None => {
                let none: &[TypeId] = &[];
                assert(none@ =~= Seq::<TypeId>::empty());
                none
            },
        }
    }

    pub fn enum_name(&self, id: EnumId) -> (r: Option<&str>)
        ensures
            text::opt_str(r) == self@.enum_name(id),
    {
        if (id.0 as usize) < self.enum_names.len() {
            Some(self.enum_names[id.0 as usize].as_str())
        } else {
            None
        }
    }
}

// ---------------------------------------------------------------------------
// What holds of the ids of classes and enums
// ---------------------------------------------------------------------------
proof fn lemma_name_index(names: Seq<Seq<char>>, name: Seq<char>, from: int)
    requires
        0 <= from <= names.len(),
    ensures
        match name_index(names, name, from) {
            Some(i) => from <= i < names.len() && names[i] == name,
            None => forall|j: int| from <= j < names.len() ==> names[j] != name,
        },
    decreases names.len() - from,
{
    if from < names.len() && names[from] != name {
        lemma_name_index(names, name, from + 1);
    }
}

proof fn lemma_name_index_push(names: Seq<Seq<char>>, more: Seq<char>, name: Seq<char>, from: int)
    requires
        0 <= from <= names.len(),
    ensures
        name_index(names.push(more), name, from) == match name_index(names, name, from) {
            Some(i) => Some(i),
            None => if name == more {
                Some(names.len() as int)
            } else {
                None
            },
        },
    decreases names.len() - from,
{
    if from < names.len() {
        assert(names.push(more)[from] == names[from]);
        if names[from] != name {
            lemma_name_index_push(names, more, name, from + 1);
        }
    } else {
        assert(name_index(names.push(more), name, from + 1) is None);
    }
}

/// A class keeps its id: once it has one, its name leads to the id and the id to its name, whatever
/// classes come later. The number of a class has 32 bits.
pub proof fn class_keeps_its_id(v: SymbolsView, name: Seq<char>, later: Seq<char>)
    requires
        v.class_names.len() < u32::MAX,
    ensures
        v.with_class(name).class_id_by_name(name) == Some(v.class_id(name)),
        v.with_class(name).class_name(v.class_id(name)) == Some(name),
        v.with_class(name).with_class(later).class_id_by_name(name) == Some(v.class_id(name)),
        v.with_class(name).with_class(later).class_name(v.class_id(name)) == Some(name),
        v.with_class(name).with_class(name) == v.with_class(name),
{
    lemma_name_index(v.class_names, name, 0);
    lemma_name_index_push(v.class_names, name, name, 0);
    let w = v.with_class(name);
    lemma_name_index(w.class_names, name, 0);
    lemma_name_index_push(w.class_names, later, name, 0);
}

/// The same of enums.
pub proof fn enum_keeps_its_id(v: SymbolsView, name: Seq<char>, later: Seq<char>)
    requires
        v.enum_names.len() < u32::MAX,
    ensures
        v.with_enum(name).enum_id_by_name(name) == Some(v.enum_id(name)),
        v.with_enum(name).enum_name(v.enum_id(name)) == Some(name),
        v.with_enum(name).with_enum(later).enum_id_by_name(name) == Some(v.enum_id(name)),
        v.with_enum(name).with_enum(later).enum_name(v.enum_id(name)) == Some(name),
        v.with_enum(name).with_enum(name) == v.with_enum(name),
{
    lemma_name_index(v.enum_names, name, 0);
    lemma_name_index_push(v.enum_names, name, name, 0);
    let w = v.with_enum(name);
    lemma_name_index(w.enum_names, name, 0);
    lemma_name_index_push(w.enum_names, later, name, 0);
}

} // verus!
