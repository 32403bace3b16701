//! The types that a translation unit speaks of, each stored once.
use vstd::prelude::*;

use super::symbol::{ClassId, EnumId, SymStr};
use crate::text;

verus! {

#[derive(Clone, Copy, PartialEq, Eq, Structural, Hash, Debug, Default)]
pub struct TypeId(pub u32);

#[derive(Clone, Copy, PartialEq, Eq, Structural, Hash, Debug)]
pub enum BuiltinType {
    Void,
    Bool,
    Char,
    Int32,
    UInt32,
    Float,
    Double,
}

#[derive(Clone, Copy, PartialEq, Eq, Structural, Hash, Debug)]
pub struct CvQual {
    pub is_const: bool,
    pub is_volatile: bool,
}

impl Default for CvQual {
    fn default() -> (r: Self)
        ensures
            r == no_cv(),
    {
        CvQual { is_const: false, is_volatile: false }
    }
}

pub open spec fn no_cv() -> CvQual {
    CvQual { is_const: false, is_volatile: false }
}

#[derive(Clone, Copy, PartialEq, Eq, Structural, Hash, Debug)]
pub enum RefKind {
    LValue,
    RValue,
}

#[derive(Hash, Debug)]
pub enum TemplateArg {
    Type(TypeId),
    Value(String),
}

/// A template argument as a mathematical value.
pub enum ArgShape {
    Type(TypeId),
    Value(Seq<char>),
}

impl View for TemplateArg {
    type V = ArgShape;

    open spec fn view(&self) -> ArgShape {
        match *self {
            TemplateArg::Type(t) => ArgShape::Type(t),
            TemplateArg::Value(s) => ArgShape::Value(s@),
        }
    }
}

pub open spec fn arg_shapes(args: Seq<TemplateArg>) -> Seq<ArgShape> {
    args.map_values(|a: TemplateArg| a@)
}

impl Clone for TemplateArg {
    fn clone(&self) -> (r: Self)
        ensures
            r@ == self@,
    {
        match self {
            TemplateArg::Type(t) => TemplateArg::Type(*t),
            TemplateArg::Value(s) => TemplateArg::Value(text::copy_of(s)),
        }
    }
}

pub fn copy_args(args: &Vec<TemplateArg>) -> (r: Vec<TemplateArg>)
    ensures
        arg_shapes(r@) == arg_shapes(args@),
{
    let mut r: Vec<TemplateArg> = Vec::new();
    let mut i: usize = 0;
    while i < args.len()
        invariant
            i <= args@.len(),
            r@.len() == i,
            forall|j: int| 0 <= j < i ==> (#[trigger] r@[j])@ == args@[j]@,
        decreases args@.len() - i,
    {
        r.push(args[i].clone());
        i = i + 1;
    }
    assert(arg_shapes(r@) =~= arg_shapes(args@));
    r
}

pub fn same_arg(a: &TemplateArg, b: &TemplateArg) -> (r: bool)
    ensures
        r == (a@ == b@),
{
    match (a, b) {
        (TemplateArg::Type(x), TemplateArg::Type(y)) => *x == *y,
        (TemplateArg::Value(x), TemplateArg::Value(y)) => text::same(x, y),
        _ => false,
    }
}

pub fn same_args(a: &Vec<TemplateArg>, b: &Vec<TemplateArg>) -> (r: bool)
    ensures
        r == (arg_shapes(a@) == arg_shapes(b@)),
{
    if a.len() != b.len() {
        assert(arg_shapes(a@).len() != arg_shapes(b@).len());
        return false;
    }
    let mut i: usize = 0;
    while i < a.len()
        invariant
            a@.len() == b@.len(),
            i <= a@.len(),
            forall|j: int| 0 <= j < i ==> arg_shapes(a@)[j] == arg_shapes(b@)[j],
        decreases a@.len() - i,
    {
        if !same_arg(&a[i], &b[i]) {
            assert(arg_shapes(a@)[i as int] != arg_shapes(b@)[i as int]);
            return false;
        }
        i = i + 1;
    }
    assert(arg_shapes(a@) =~= arg_shapes(b@));
    true
}

pub fn copy_ids(v: &Vec<TypeId>) -> (r: Vec<TypeId>)
    ensures
        r@ == v@,
{
    let mut r: Vec<TypeId> = Vec::new();
    let mut i: usize = 0;
    while i < v.len()
        invariant
            i <= v@.len(),
            r@ =~= v@.take(i as int),
        decreases v@.len() - i,
    {
        r.push(v[i]);
        i = i + 1;
    }
    r
}

fn same_ids(a: &Vec<TypeId>, b: &Vec<TypeId>) -> (r: bool)
    ensures
        r == (a@ == b@),
{
    if a.len() != b.len() {
        return false;
    }
    let mut i: usize = 0;
    while i < a.len()
        invariant
            a@.len() == b@.len(),
            i <= a@.len(),
            forall|j: int| 0 <= j < i ==> a@[j] == b@[j],
        decreases a@.len() - i,
    {
        if a[i] != b[i] {
            return false;
        }
        i = i + 1;
    }
    assert(a@ =~= b@);
    true
}

#[derive(Hash, Debug)]
pub enum TypeKind {
    Builtin(BuiltinType),
    Nullptr,
    Pointer { pointee: TypeId, cv: CvQual },
    Reference { referent: TypeId, kind: RefKind },
    Array { elem: TypeId, size: Option<u64> },
    Function {
        return_t: TypeId,
        params: Vec<TypeId>,
        min_arity: usize,
        is_variadic: bool,
        is_const_member: bool,
    },
    Class(ClassId),
    Enum(EnumId),
    Typedef { name: SymStr, aliased: TypeId },
    Template { base: SymStr, args: Vec<TemplateArg> },
    Dependent(SymStr),
    Auto,
    Unknown,
}

/// A type as a mathematical value.
#[verifier::ext_equal]
pub enum TypeShape {
    Builtin(BuiltinType),
    Nullptr,
    Pointer { pointee: TypeId, cv: CvQual },
    Reference { referent: TypeId, kind: RefKind },
    Array { elem: TypeId, size: Option<u64> },
    Function {
        return_t: TypeId,
        params: Seq<TypeId>,
        min_arity: usize,
        is_variadic: bool,
        is_const_member: bool,
    },
    Class(ClassId),
    Enum(EnumId),
    Typedef { name: Seq<char>, aliased: TypeId },
    Template { base: Seq<char>, args: Seq<ArgShape> },
    Dependent(Seq<char>),
    Auto,
    Unknown,
}

impl View for TypeKind {
    type V = TypeShape;

    open spec fn view(&self) -> TypeShape {
        match *self {
            TypeKind::Builtin(b) => TypeShape::Builtin(b),
            TypeKind::Nullptr => TypeShape::Nullptr,
            TypeKind::Pointer { pointee, cv } => TypeShape::Pointer { pointee, cv },
            TypeKind::Reference { referent, kind } => TypeShape::Reference { referent, kind },
            TypeKind::Array { elem, size } => TypeShape::Array { elem, size },
            TypeKind::Function { return_t, params, min_arity, is_variadic, is_const_member } =>
                TypeShape::Function {
                return_t,
                params: params@,
                min_arity,
                is_variadic,
                is_const_member,
            },
            TypeKind::Class(c) => TypeShape::Class(c),
            TypeKind::Enum(e) => TypeShape::Enum(e),
            TypeKind::Typedef { name, aliased } => TypeShape::Typedef { name: name@, aliased },
            TypeKind::Template { base, args } => TypeShape::Template {
                base: base@,
                args: arg_shapes(args@),
            },
            TypeKind::Dependent(s) => TypeShape::Dependent(s@),
            TypeKind::Auto => TypeShape::Auto,
            TypeKind::Unknown => TypeShape::Unknown,
        }
    }
}

pub open spec fn opt_shape(k: Option<&TypeKind>) -> Option<TypeShape> {
    match k {
        Some(k) => Some(k@),
        None => None,
    }
}

impl Clone for TypeKind {
    fn clone(&self) -> (r: Self)
        ensures
            r@ == self@,
    {
        match self {
            TypeKind::Builtin(b) => TypeKind::Builtin(*b),
            TypeKind::Nullptr => TypeKind::Nullptr,
            TypeKind::Pointer { pointee, cv } => TypeKind::Pointer { pointee: *pointee, cv: *cv },
            TypeKind::Reference { referent, kind } => TypeKind::Reference {
                referent: *referent,
                kind: *kind,
            },
            TypeKind::Array { elem, size } => TypeKind::Array { elem: *elem, size: *size },
            TypeKind::Function { return_t, params, min_arity, is_variadic, is_const_member } =>
                TypeKind::Function {
                return_t: *return_t,
                params: copy_ids(params),
                min_arity: *min_arity,
                is_variadic: *is_variadic,
                is_const_member: *is_const_member,
            },
            TypeKind::Class(c) => TypeKind::Class(*c),
            TypeKind::Enum(e) => TypeKind::Enum(*e),
            TypeKind::Typedef { name, aliased } => TypeKind::Typedef {
                name: text::copy_of(name),
                aliased: *aliased,
            },
            TypeKind::Template { base, args } => TypeKind::Template {
                base: text::copy_of(base),
                args: copy_args(args),
            },
            TypeKind::Dependent(s) => TypeKind::Dependent(text::copy_of(s)),
            TypeKind::Auto => TypeKind::Auto,
            TypeKind::Unknown => TypeKind::Unknown,
        }
    }
}

pub fn same_kind(a: &TypeKind, b: &TypeKind) -> (r: bool)
    ensures
        r == (a@ == b@),
{
    match (a, b) {
        (TypeKind::Builtin(x), TypeKind::Builtin(y)) => *x == *y,
        (TypeKind::Nullptr, TypeKind::Nullptr) => true,
        (
            TypeKind::Pointer { pointee: p1, cv: c1 },
            TypeKind::Pointer { pointee: p2, cv: c2 },
        ) => *p1 == *p2 && *c1 == *c2,
        (
            TypeKind::Reference { referent: r1, kind: k1 },
            TypeKind::Reference { referent: r2, kind: k2 },
        ) => *r1 == *r2 && *k1 == *k2,
        (TypeKind::Array { elem: e1, size: s1 }, TypeKind::Array { elem: e2, size: s2 }) => {
            let same_size = match (s1, s2) {
                (Some(x), Some(y)) => *x == *y,
                (None, None) => true,
                _ => false,
            };
            *e1 == *e2 && same_size
        },
        (
            TypeKind::Function {
                return_t: t1,
                params: p1,
                min_arity: m1,
                is_variadic: v1,
                is_const_member: c1,
            },
            TypeKind::Function {
                return_t: t2,
                params: p2,
                min_arity: m2,
                is_variadic: v2,
                is_const_member: c2,
            },
        ) => *t1 == *t2 && same_ids(p1, p2) && *m1 == *m2 && *v1 == *v2 && *c1 == *c2,
        (TypeKind::Class(x), TypeKind::Class(y)) => *x == *y,
        (TypeKind::Enum(x), TypeKind::Enum(y)) => *x == *y,
        (
            TypeKind::Typedef { name: n1, aliased: a1 },
            TypeKind::Typedef { name: n2, aliased: a2 },
        ) => text::same(n1, n2) && *a1 == *a2,
        (
            TypeKind::Template { base: b1, args: a1 },
            TypeKind::Template { base: b2, args: a2 },
        ) => text::same(b1, b2) && same_args(a1, a2),
        (TypeKind::Dependent(x), TypeKind::Dependent(y)) => text::same(x, y),
        (TypeKind::Auto, TypeKind::Auto) => true,
        (TypeKind::Unknown, TypeKind::Unknown) => true,
        _ => false,
    }
}

#[derive(Clone, Copy, PartialEq, Eq, Structural, Debug)]
pub enum Compat {
    Same,
    DerivedToBase,
    PointerToVoid,
    NumericPromote,
    NumericConvert,
    NullptrToPointer,
    Incompatible,
}

/// The types in the order in which they came; an id is a position.
pub struct TypeArena {
    pub types: Vec<TypeKind>,
    pub void_t: TypeId,
    pub bool_t: TypeId,
    pub int32_t: TypeId,
    pub uint32_t: TypeId,
    pub float_t: TypeId,
    pub double_t: TypeId,
    pub unknown_t: TypeId,
    pub nullptr_t: TypeId,
}

#[verifier::ext_equal]
pub struct ArenaView {
    pub kinds: Seq<TypeShape>,
    pub void_t: TypeId,
    pub bool_t: TypeId,
    pub int32_t: TypeId,
    pub uint32_t: TypeId,
    pub float_t: TypeId,
    pub double_t: TypeId,
    pub unknown_t: TypeId,
    pub nullptr_t: TypeId,
}

/// The position of the first type from `from` on that has the shape.
pub open spec fn shape_index(kinds: Seq<TypeShape>, s: TypeShape, from: int) -> Option<int>
    decreases kinds.len() - from,
{
    if from < 0 || from >= kinds.len() {
        None
    } else if kinds[from] == s {
        Some(from)
    } else {
        shape_index(kinds, s, from + 1)
    }
}

impl ArenaView {
    pub open spec fn kind(self, id: TypeId) -> Option<TypeShape> {
        if id.0 < self.kinds.len() {
            Some(self.kinds[id.0 as int])
        } else {
            None
        }
    }

    pub open spec fn find(self, s: TypeShape) -> Option<TypeId> {
        match shape_index(self.kinds, s, 0) {
            Some(i) => Some(TypeId(i as u32)),
            None => None,
        }
    }

    /// The arena in which the type stands.
    pub open spec fn with(self, s: TypeShape) -> ArenaView {
        match self.find(s) {
            Some(_) => self,
            None => ArenaView { kinds: self.kinds.push(s), ..self },
        }
    }

    /// The id under which the type then stands.
    pub open spec fn id_of(self, s: TypeShape) -> TypeId {
        match self.find(s) {
            Some(id) => id,
            None => TypeId(self.kinds.len() as u32),
        }
    }
}

impl View for TypeArena {
    type V = ArenaView;

    open spec fn view(&self) -> ArenaView {
        ArenaView {
            kinds: self.types@.map_values(|k: TypeKind| k@),
            void_t: self.void_t,
            bool_t: self.bool_t,
            int32_t: self.int32_t,
            uint32_t: self.uint32_t,
            float_t: self.float_t,
            double_t: self.double_t,
            unknown_t: self.unknown_t,
            nullptr_t: self.nullptr_t,
        }
    }
}

/// The arena that holds the types known from the start.
pub open spec fn first_types() -> ArenaView {
    ArenaView {
        kinds: seq![
            TypeShape::Builtin(BuiltinType::Void),
            TypeShape::Builtin(BuiltinType::Bool),
            TypeShape::Builtin(BuiltinType::Int32),
            TypeShape::Builtin(BuiltinType::UInt32),
            TypeShape::Builtin(BuiltinType::Float),
            TypeShape::Builtin(BuiltinType::Double),
            TypeShape::Unknown,
            TypeShape::Nullptr,
        ],
        void_t: TypeId(0),
        bool_t: TypeId(1),
        int32_t: TypeId(2),
        uint32_t: TypeId(3),
        float_t: TypeId(4),
        double_t: TypeId(5),
        unknown_t: TypeId(6),
        nullptr_t: TypeId(7),
    }
}

impl TypeArena {
    pub fn new() -> (r: Self)
        ensures
            r@ == first_types(),
    {
        let mut types: Vec<TypeKind> = Vec::new();
        types.push(TypeKind::Builtin(BuiltinType::Void));
        types.push(TypeKind::Builtin(BuiltinType::Bool));
        types.push(TypeKind::Builtin(BuiltinType::Int32));
        types.push(TypeKind::Builtin(BuiltinType::UInt32));
        types.push(TypeKind::Builtin(BuiltinType::Float));
        types.push(TypeKind::Builtin(BuiltinType::Double));
        types.push(TypeKind::Unknown);
        types.push(TypeKind::Nullptr);
        let r = TypeArena {
            types,
            void_t: TypeId(0),
            bool_t: TypeId(1),
            int32_t: TypeId(2),
            uint32_t: TypeId(3),
            float_t: TypeId(4),
            double_t: TypeId(5),
            unknown_t: TypeId(6),
            nullptr_t: TypeId(7),
        };
        assert(r@ =~= first_types());
        r
    }

    pub fn len(&self) -> (r: usize)
        ensures
            r == self@.kinds.len(),
    {
        self.types.len()
    }

    pub fn intern(&mut self, kind: TypeKind) -> (id: TypeId)
        ensures
            final(self)@ == old(self)@.with(kind@),
            id == old(self)@.id_of(kind@),
    {
        match self.find(&kind) {
            Some(id) => {
                return id;
            },
            None => {},
        }
        let n: usize = self.types.len();
        let id = TypeId(n as u32);
        self.types.push(kind);
        assert(self@.kinds =~= old(self)@.kinds.push(kind@));
        id
    }

    pub fn get(&self, id: TypeId) -> (r: Option<&TypeKind>)
        ensures
            opt_shape(r) == self@.kind(id),
    {
        if (id.0 as usize) < self.types.len() {
            Some(&self.types[id.0 as usize])
        } else {
            None
        }
    }

    pub fn find(&self, kind: &TypeKind) -> (r: Option<TypeId>)
        ensures
            r == self@.find(kind@),
    {
        let n: usize = self.types.len();
        let mut i: usize = 0;
        while i < n
            invariant
                n == self.types@.len(),
                n == self@.kinds.len(),
                i <= n,
                shape_index(self@.kinds, kind@, 0) == shape_index(self@.kinds, kind@, i as int),
            decreases n - i,
        {
            if same_kind(&self.types[i], kind) {
                return Some(TypeId(i as u32));
            }
            i = i + 1;
        }
        None
    }
}

proof fn lemma_shape_index(kinds: Seq<TypeShape>, s: TypeShape, from: int)
    requires
        0 <= from <= kinds.len(),
    ensures
        match shape_index(kinds, s, from) {
            Some(i) => from <= i < kinds.len() && kinds[i] == s && forall|j: int|
                from <= j < i ==> kinds[j] != s,
            None => forall|j: int| from <= j < kinds.len() ==> kinds[j] != s,
        },
    decreases kinds.len() - from,
{
    if from < kinds.len() && kinds[from] != s {
        lemma_shape_index(kinds, s, from + 1);
    }
}

/// A type that was stored is found again under its id, as long as ids can tell the types apart.
pub proof fn stored_type_is_found(a: ArenaView, s: TypeShape)
    requires
        a.kinds.len() <= u32::MAX,
    ensures
        a.with(s).kind(a.id_of(s)) == Some(s),
        a.with(s).find(s) == Some(a.id_of(s)),
        a.with(s).with(s) == a.with(s),
{
    lemma_shape_index(a.kinds, s, 0);
    lemma_shape_index(a.with(s).kinds, s, 0);
    if a.find(s) is None {
        let n = a.kinds.len() as int;
        assert(a.with(s).kinds[n] == s);
        let i = shape_index(a.with(s).kinds, s, 0)->0;
        if i < n {
            assert(a.kinds[i] == s);
        }
    }
}

/// Storing a type leaves every other type under its id.
pub proof fn stored_types_stay(a: ArenaView, s: TypeShape, id: TypeId)
    ensures
        a.kind(id) is Some ==> a.with(s).kind(id) == a.kind(id),
{
}

pub open spec fn rank_of(value: Compat) -> u8 {
    match value {
        Compat::Same => 5,
        Compat::DerivedToBase => 4,
        Compat::PointerToVoid => 3,
        Compat::NumericPromote => 2,
        Compat::NumericConvert => 1,
        Compat::NullptrToPointer => 1,
        Compat::Incompatible => 0,
    }
}

pub fn compat_rank(value: Compat) -> (r: u8)
    ensures
        r == rank_of(value),
{
    match value {
        Compat::Same => 5,
        Compat::DerivedToBase => 4,
        Compat::PointerToVoid => 3,
        Compat::NumericPromote => 2,
        Compat::NumericConvert => 1,
        Compat::NullptrToPointer => 1,
        Compat::Incompatible => 0,
    }
}

} // verus!
