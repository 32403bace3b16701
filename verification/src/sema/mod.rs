//! Semantic analysis of C++ sources: scopes, symbols, types and what can be said of expressions.
pub mod build_laws;
pub mod builder;
pub mod builtin;
pub mod cfg;
pub mod cfg_laws;
pub mod compat_laws;
pub mod dataflow;
pub mod dataflow_laws;
pub mod deduce_laws;
pub mod declare;
pub mod declare_laws;
pub mod derive_laws;
pub mod expr;
pub mod expr_laws;
pub mod flow_laws;
pub mod intern;
pub mod intern_laws;
pub mod lookup;
pub mod lookup_laws;
pub mod member_laws;
pub mod members;
pub mod name_laws;
pub mod names;
pub mod overload;
pub mod overload_laws;
pub mod pattern;
pub mod place_laws;
pub mod resolve;
pub mod scope;
pub mod symbol;
pub mod symbol_laws;
pub mod syntax;
pub mod template;
pub mod template_laws;
pub mod type_laws;
pub mod types;

use std::collections::HashMap;
use vstd::prelude::*;

use builtin::BuiltinTypeAliases;
use scope::{ScopeId, ScopeTree, ScopesView};
use symbol::{ClassId, SymbolId, SymbolTable, SymbolsView};
use types::{
    no_cv, ArenaView, ArgShape, BuiltinType, Compat, CvQual, RefKind, TemplateArg, TypeArena,
    TypeId, TypeKind, TypeShape,
};

use crate::text;

verus! {

broadcast use vstd::std_specs::hash::group_hash_axioms;

#[derive(Debug)]
pub enum TemplateScopeParam {
    Type { name: String },
    Value { name: String, declared_type: String },
}

/// A template parameter as a mathematical value.
pub enum ParamShape {
    Type { name: Seq<char> },
    Value { name: Seq<char>, declared_type: Seq<char> },
}

impl View for TemplateScopeParam {
    type V = ParamShape;

    open spec fn view(&self) -> ParamShape {
        match *self {
            TemplateScopeParam::Type { name } => ParamShape::Type { name: name@ },
            TemplateScopeParam::Value { name, declared_type } => ParamShape::Value {
                name: name@,
                declared_type: declared_type@,
            },
        }
    }
}

pub open spec fn param_shapes(params: Seq<TemplateScopeParam>) -> Seq<ParamShape> {
    params.map_values(|p: TemplateScopeParam| p@)
}

pub open spec fn param_name(p: ParamShape) -> Seq<char> {
    match p {
        ParamShape::Type { name } => name,
        ParamShape::Value { name, .. } => name,
    }
}

impl TemplateScopeParam {
    pub fn name(&self) -> (r: &str)
        ensures
            r@ == param_name(self@),
    {
        match self {
            TemplateScopeParam::Type { name } => name.as_str(),
            TemplateScopeParam::Value { name, .. } => name.as_str(),
        }
    }
}

impl Clone for TemplateScopeParam {
    fn clone(&self) -> (r: Self)
        ensures
            r@ == self@,
    {
        match self {
            TemplateScopeParam::Type { name } => TemplateScopeParam::Type {
                name: text::copy_of(name),
            },
            TemplateScopeParam::Value { name, declared_type } => TemplateScopeParam::Value {
                name: text::copy_of(name),
                declared_type: text::copy_of(declared_type),
            },
        }
    }
}

#[derive(Debug)]
pub struct MemberCallableSignature {
    pub return_t: TypeId,
    pub params: Vec<TypeId>,
    pub min_arity: usize,
    pub is_variadic: bool,
    pub is_const_member: bool,
}

#[verifier::ext_equal]
pub struct SignatureView {
    pub return_t: TypeId,
    pub params: Seq<TypeId>,
    pub min_arity: usize,
    pub is_variadic: bool,
    pub is_const_member: bool,
}

impl View for MemberCallableSignature {
    type V = SignatureView;

    open spec fn view(&self) -> SignatureView {
        SignatureView {
            return_t: self.return_t,
            params: self.params@,
            min_arity: self.min_arity,
            is_variadic: self.is_variadic,
            is_const_member: self.is_const_member,
        }
    }
}

/// What is known of a source: its types, symbols and scopes, which scope a stretch of the source
/// opens, which symbol a scope belongs to, and the parameters of the class templates.
pub struct SemaContext {
    pub types: TypeArena,
    pub symbols: SymbolTable,
    pub scopes: ScopeTree,
    pub node_scopes: Vec<(usize, usize, ScopeId)>,
    pub scope_owner_symbols: HashMap<u32, SymbolId>,
    pub class_template_params: HashMap<u32, Vec<TemplateScopeParam>>,
    pub aliases: BuiltinTypeAliases,
    pub source: Option<String>,
    pub cached_char_t: Option<TypeId>,
    pub cached_char_ptr_t: Option<TypeId>,
}

#[verifier::ext_equal]
pub struct SemaView {
    pub types: ArenaView,
    pub symbols: SymbolsView,
    pub scopes: ScopesView,
    pub node_scopes: Seq<(usize, usize, ScopeId)>,
    pub owners: Map<u32, SymbolId>,
    pub template_params: Map<u32, Seq<ParamShape>>,
    pub aliases: Seq<(Seq<char>, BuiltinType)>,
    pub source: Option<Seq<char>>,
    pub char_t: Option<TypeId>,
    pub char_ptr_t: Option<TypeId>,
}

impl View for SemaContext {
    type V = SemaView;

    open spec fn view(&self) -> SemaView {
        SemaView {
            types: self.types@,
            symbols: self.symbols@,
            scopes: self.scopes@,
            node_scopes: self.node_scopes@,
            owners: self.scope_owner_symbols@,
            template_params: self.class_template_params@.map_values(
                |v: Vec<TemplateScopeParam>| param_shapes(v@),
            ),
            aliases: self.aliases@,
            source: text::opt_text(self.source),
            char_t: self.cached_char_t,
            char_ptr_t: self.cached_char_ptr_t,
        }
    }
}

impl SemaView {
    pub open spec fn kind(self, id: TypeId) -> Option<TypeShape> {
        self.types.kind(id)
    }
}

pub open spec fn or_unknown(s: Option<Seq<char>>) -> Seq<char> {
    match s {
        Some(s) => s,
        None => "unknown"@,
    }
}

pub open spec fn builtin_text(b: BuiltinType) -> Seq<char> {
    match b {
        BuiltinType::Void => "void"@,
        BuiltinType::Bool => "bool"@,
        BuiltinType::Char => "char"@,
        BuiltinType::Int32 => "int32"@,
        BuiltinType::UInt32 => "uint32"@,
        BuiltinType::Float => "float"@,
        BuiltinType::Double => "double"@,
    }
}

/// The text of a type, followed at most `depth` types deep.
pub open spec fn rendered(c: SemaView, id: TypeId, depth: nat) -> Option<Seq<char>>
    decreases depth, 0nat,
{
    if depth == 0 {
        None
    } else {
        match c.kind(id) {
            None => None,
            Some(kind) => Some(
                match kind {
                    TypeShape::Builtin(b) => builtin_text(b),
                    TypeShape::Nullptr => "nullptr"@,
                    TypeShape::Pointer { pointee, .. } => or_unknown(
                        rendered(c, pointee, (depth - 1) as nat),
                    ) + "*"@,
                    TypeShape::Reference { referent, .. } => or_unknown(
                        rendered(c, referent, (depth - 1) as nat),
                    ) + "&"@,
                    TypeShape::Array { elem, .. } => or_unknown(
                        rendered(c, elem, (depth - 1) as nat),
                    ) + "[]"@,
                    TypeShape::Function { return_t, .. } => or_unknown(
                        rendered(c, return_t, (depth - 1) as nat),
                    ),
                    TypeShape::Class(class_id) => or_unknown(c.symbols.class_name(class_id)),
                    TypeShape::Enum(enum_id) => or_unknown(c.symbols.enum_name(enum_id)),
                    TypeShape::Typedef { name, .. } => name,
                    TypeShape::Template { base, args } => base + "<"@ + text::joined(
                        rendered_args(c, args, 0, (depth - 1) as nat),
                        ", "@,
                    ) + ">"@,
                    TypeShape::Dependent(name) => name,
                    TypeShape::Auto => "auto"@,
                    TypeShape::Unknown => "unknown"@,
                },
            ),
        }
    }
}

pub open spec fn rendered_args(c: SemaView, args: Seq<ArgShape>, k: int, depth: nat) -> Seq<Seq<char>>
    decreases depth, args.len() - k + 1,
{
    if k < 0 || k >= args.len() {
        Seq::empty()
    } else {
        seq![
            match args[k] {
                ArgShape::Type(t) => or_unknown(rendered(c, t, depth)),
                ArgShape::Value(v) => v,
            },
        ] + rendered_args(c, args, k + 1, depth)
    }
}

/// The text of a type; a type takes part in itself at most as often as there are types.
pub open spec fn render(c: SemaView, id: TypeId) -> Option<Seq<char>> {
    rendered(c, id, c.types.kinds.len())
}

/// The type behind at most `guard` typedefs.
pub open spec fn canonical(c: SemaView, id: TypeId, guard: nat) -> TypeId
    decreases guard,
{
    if guard == 0 {
        id
    } else {
        match c.kind(id) {
            Some(TypeShape::Typedef { aliased, .. }) => canonical(c, aliased, (guard - 1) as nat),
            _ => id,
        }
    }
}

pub open spec fn numeric(b: BuiltinType) -> bool {
    !(b == BuiltinType::Void || b == BuiltinType::Bool)
}

pub open spec fn numeric_order(b: BuiltinType) -> u8 {
    match b {
        BuiltinType::Char => 1,
        BuiltinType::Int32 => 2,
        BuiltinType::UInt32 => 2,
        BuiltinType::Float => 3,
        BuiltinType::Double => 4,
        BuiltinType::Void => 0,
        BuiltinType::Bool => 0,
    }
}

/// Whether one class is the other or comes from it, through at most `depth` classes.
pub open spec fn derives(c: SemaView, from: ClassId, to: ClassId, depth: nat) -> bool
    decreases depth, 0nat,
{
    from == to || (depth > 0 && a_parent_derives(
        c,
        c.symbols.parents(from),
        0,
        to,
        (depth - 1) as nat,
    ))
}

pub open spec fn a_parent_derives(c: SemaView, parents: Seq<TypeId>, k: int, to: ClassId, depth: nat) -> bool
    decreases depth, parents.len() - k + 1,
{
    if k < 0 || k >= parents.len() {
        false
    } else {
        (match c.kind(parents[k]) {
            Some(TypeShape::Class(p)) => derives(c, p, to, depth),
            _ => false,
        }) || a_parent_derives(c, parents, k + 1, to, depth)
    }
}

pub open spec fn class_derives(c: SemaView, from: ClassId, to: ClassId) -> bool {
    derives(c, from, to, c.types.kinds.len() + 1)
}

pub open spec fn type_derives(c: SemaView, from: TypeId, to: TypeId) -> bool {
    match (c.kind(from), c.kind(to)) {
        (Some(TypeShape::Class(f)), Some(TypeShape::Class(t))) => class_derives(c, f, t),
        _ => false,
    }
}

/// How a value of one type fits a place of another, with at most `depth` references in between.
pub open spec fn fits(c: SemaView, from: TypeId, to: TypeId, depth: nat) -> Compat
    decreases depth,
{
    let f = canonical(c, from, 32);
    let t = canonical(c, to, 32);
    if f == t {
        Compat::Same
    } else if depth == 0 {
        Compat::Incompatible
    } else {
        match (c.kind(f), c.kind(t)) {
            (Some(TypeShape::Nullptr), Some(TypeShape::Reference { referent, .. })) => fits(
                c,
                f,
                referent,
                (depth - 1) as nat,
            ),
            (Some(TypeShape::Nullptr), Some(TypeShape::Pointer { .. })) => Compat::NullptrToPointer,
            (Some(TypeShape::Builtin(x)), Some(TypeShape::Builtin(y))) => if numeric(x) && numeric(y) {
                if numeric_order(x) <= numeric_order(y) {
                    Compat::NumericPromote
                } else {
                    Compat::NumericConvert
                }
            } else {
                Compat::Incompatible
            },
            (
                Some(TypeShape::Pointer { pointee: p, .. }),
                Some(TypeShape::Pointer { pointee: q, .. }),
            ) => if p == q {
                Compat::Same
            } else if c.kind(q) == Some(TypeShape::Builtin(BuiltinType::Void)) {
                Compat::PointerToVoid
            } else if type_derives(c, p, q) {
                Compat::DerivedToBase
            } else {
                Compat::Incompatible
            },
            (
                Some(TypeShape::Reference { referent: p, .. }),
                Some(TypeShape::Reference { referent: q, .. }),
            ) => fits(c, p, q, (depth - 1) as nat),
            (Some(TypeShape::Reference { referent: p, .. }), _) => fits(c, p, t, (depth - 1) as nat),
            (_, Some(TypeShape::Reference { referent: q, .. })) => fits(c, f, q, (depth - 1) as nat),
            (Some(TypeShape::Class(x)), Some(TypeShape::Class(y))) => if class_derives(c, x, y) {
                Compat::DerivedToBase
            } else {
                Compat::Incompatible
            },
            _ => Compat::Incompatible,
        }
    }
}

/// How a value of one type fits a place of another.
pub open spec fn compat(c: SemaView, from: TypeId, to: TypeId) -> Compat {
    fits(c, from, to, 2 * c.types.kinds.len() + 2)
}

pub open spec fn equivalent(c: SemaView, left: TypeId, right: TypeId) -> bool {
    compat(c, left, right) == Compat::Same && compat(c, right, left) == Compat::Same
}

/// The first pointer type from position `k` on whose pointee has this text.
pub open spec fn pointer_rendered(c: SemaView, s: Seq<char>, k: int) -> Option<TypeId>
    decreases c.types.kinds.len() - k,
{
    if k < 0 || k >= c.types.kinds.len() {
        None
    } else {
        match c.types.kinds[k] {
            TypeShape::Pointer { pointee, .. } => if render(c, pointee) == Some(s) {
                Some(TypeId(k as u32))
            } else {
                pointer_rendered(c, s, k + 1)
            },
            _ => pointer_rendered(c, s, k + 1),
        }
    }
}

/// The type that points to this one, or else one that points to a type with the same text.
pub open spec fn pointer_to(c: SemaView, pointee: TypeId) -> Option<TypeId> {
    match c.types.find(TypeShape::Pointer { pointee, cv: no_cv() }) {
        Some(id) => Some(id),
        None => match render(c, pointee) {
            Some(s) => pointer_rendered(c, s, 0),
            None => None,
        },
    }
}

pub open spec fn reference_to(c: SemaView, referent: TypeId) -> Option<TypeId> {
    c.types.find(TypeShape::Reference { referent, kind: RefKind::LValue })
}

pub open spec fn array_of(c: SemaView, elem: TypeId) -> Option<TypeId> {
    c.types.find(TypeShape::Array { elem, size: None })
}

pub fn is_numeric(kind: BuiltinType) -> (r: bool)
    ensures
        r == numeric(kind),
{
    matches!(
        kind,
        BuiltinType::Char | BuiltinType::Int32 | BuiltinType::UInt32 | BuiltinType::Float
            | BuiltinType::Double
    )
}

pub fn numeric_rank(kind: BuiltinType) -> (r: u8)
    ensures
        r == numeric_order(kind),
{
    match kind {
        BuiltinType::Char => 1,
        BuiltinType::Int32 => 2,
        BuiltinType::UInt32 => 2,
        BuiltinType::Float => 3,
        BuiltinType::Double => 4,
        BuiltinType::Void => 0,
        BuiltinType::Bool => 0,
    }
}

fn text_or_unknown(s: Option<String>) -> (r: String)
    ensures
        r@ == or_unknown(text::opt_text(s)),
{
    match s {
        Some(s) => s,
        None => text::copy_of("unknown"),
    }
}

fn name_or_unknown(s: Option<&str>) -> (r: String)
    ensures
        r@ == or_unknown(text::opt_str(s)),
{
    match s {
        Some(s) => text::copy_of(s),
        None => text::copy_of("unknown"),
    }
}

fn builtin_name(kind: BuiltinType) -> (r: String)
    ensures
        r@ == builtin_text(kind),
{
    text::copy_of(
        match kind {
            BuiltinType::Void => "void",
            BuiltinType::Bool => "bool",
            BuiltinType::Char => "char",
            BuiltinType::Int32 => "int32",
            BuiltinType::UInt32 => "uint32",
            BuiltinType::Float => "float",
            BuiltinType::Double => "double",
        },
    )
}

impl SemaContext {
    fn render_to_depth(&self, type_id: TypeId, depth: usize) -> (r: Option<String>)
        ensures
            text::opt_text(r) == rendered(self@, type_id, depth as nat),
        decreases depth, 0nat,
    {
        if depth == 0 {
            return None;
        }
        let rest: usize = depth - 1;
        match self.types.get(type_id) {
            None => None,
            Some(kind) => {
                let r = match kind {
                    TypeKind::Builtin(b) => builtin_name(*b),
                    TypeKind::Nullptr => text::copy_of("nullptr"),
                    TypeKind::Pointer { pointee, .. } => {
                        let inner = text_or_unknown(self.render_to_depth(*pointee, rest));
                        text::concat2(&inner, "*")
                    },
                    TypeKind::Reference { referent, .. } => {
                        let inner = text_or_unknown(self.render_to_depth(*referent, rest));
                        text::concat2(&inner, "&")
                    },
                    TypeKind::Array { elem, .. } => {
                        let inner = text_or_unknown(self.render_to_depth(*elem, rest));
                        text::concat2(&inner, "[]")
                    },
                    TypeKind::Function { return_t, .. } => text_or_unknown(
                        self.render_to_depth(*return_t, rest),
                    ),
                    TypeKind::Class(class_id) => name_or_unknown(self.symbols.class_name(*class_id)),
                    TypeKind::Enum(enum_id) => name_or_unknown(self.symbols.enum_name(*enum_id)),
                    TypeKind::Typedef { name, .. } => text::copy_of(name),
                    TypeKind::Template { base, args } => {
                        let list = self.render_args(args, rest);
                        let inner = text::join(&list, ", ");
                        let head = text::concat3(base, "<", &inner);
                        text::concat2(&head, ">")
                    },
                    TypeKind::Dependent(name) => text::copy_of(name),
                    TypeKind::Auto => text::copy_of("auto"),
                    TypeKind::Unknown => text::copy_of("unknown"),
                };
                Some(r)
            },
        }
    }

    fn render_args(&self, args: &Vec<TemplateArg>, depth: usize) -> (r: Vec<String>)
        ensures
            text::texts(r@) == rendered_args(self@, types::arg_shapes(args@), 0, depth as nat),
        decreases depth, 1nat,
    {
        let ghost shapes = types::arg_shapes(args@);
        let mut r: Vec<String> = Vec::new();
        let n: usize = args.len();
        let mut i: usize = 0;
        while i < n
            invariant
                n == args@.len(),
                i <= n,
                shapes == types::arg_shapes(args@),
                rendered_args(self@, shapes, 0, depth as nat) == text::texts(r@) + rendered_args(
                    self@,
                    shapes,
                    i as int,
                    depth as nat,
                ),
            decreases n - i,
        {
            let ghost before = text::texts(r@);
            let piece = match &args[i] {
                TemplateArg::Type(t) => text_or_unknown(self.render_to_depth(*t, depth)),
                TemplateArg::Value(v) => text::copy_of(v),
            };
            assert(shapes[i as int] == args@[i as int]@);
            r.push(piece);
            assert(text::texts(r@) =~= before.push(piece@));
            assert(rendered_args(self@, shapes, 0, depth as nat) =~= text::texts(r@)
                + rendered_args(self@, shapes, i + 1, depth as nat));
            i = i + 1;
        }
        assert(text::texts(r@) =~= rendered_args(self@, shapes, 0, depth as nat));
        r
    }

    pub fn render_type(&self, type_id: TypeId) -> (r: Option<String>)
        ensures
            text::opt_text(r) == render(self@, type_id),
    {
        let n: usize = self.types.len();
        self.render_to_depth(type_id, n)
    }

    pub fn canonical_type_id(&self, type_id: TypeId) -> (r: TypeId)
        ensures
            r == canonical(self@, type_id, 32),
    {
        let mut current = type_id;
        let mut guard: u8 = 0;
        while guard < 32
            invariant
                guard <= 32,
                canonical(self@, type_id, 32) == canonical(self@, current, (32 - guard) as nat),
            decreases 32 - guard,
        {
            match self.types.get(current) {
                Some(TypeKind::Typedef { aliased, .. }) => {
                    current = *aliased;
                },
                _ => {
                    return current;
                },
            }
            guard = guard + 1;
        }
        current
    }

    fn derives_to_depth(&self, from_class: ClassId, to_class: ClassId, depth: u128) -> (r: bool)
        ensures
            r == derives(self@, from_class, to_class, depth as nat),
        decreases depth,
    {
        if from_class == to_class {
            return true;
        }
        if depth == 0 {
            return false;
        }
        let parents = self.symbols.class_parents(from_class);
        let n: usize = parents.len();
        let mut i: usize = 0;
        while i < n
            invariant
                depth > 0,
                from_class != to_class,
                parents@ == self@.symbols.parents(from_class),
                n == parents@.len(),
                i <= n,
                derives(self@, from_class, to_class, depth as nat) == a_parent_derives(
                    self@,
                    parents@,
                    i as int,
                    to_class,
                    (depth - 1) as nat,
                ),
            decreases n - i,
        {
            match self.types.get(parents[i]) {
                Some(TypeKind::Class(parent_class)) => {
                    if self.derives_to_depth(*parent_class, to_class, depth - 1) {
                        return true;
                    }
                },
                _ => {},
            }
            i = i + 1;
        }
        false
    }

    fn is_class_derived_from_class(&self, from_class: ClassId, to_class: ClassId) -> (r: bool)
        ensures
            r == class_derives(self@, from_class, to_class),
    {
        let n: usize = self.types.len();
        self.derives_to_depth(from_class, to_class, n as u128 + 1)
    }

    fn is_class_derived_from(&self, from_type: TypeId, to_type: TypeId) -> (r: bool)
        ensures
            r == type_derives(self@, from_type, to_type),
    {
        match (self.types.get(from_type), self.types.get(to_type)) {
            (
                Some(TypeKind::Class(from_class)),
                Some(TypeKind::Class(to_class)),
            ) => self.is_class_derived_from_class(*from_class, *to_class),
            _ => false,
        }
    }

    fn compat_to_depth(&self, from: TypeId, to: TypeId, depth: u128) -> (r: Compat)
        ensures
            r == fits(self@, from, to, depth as nat),
        decreases depth,
    {
        let f = self.canonical_type_id(from);
        let t = self.canonical_type_id(to);
        if f == t {
            return Compat::Same;
        }
        if depth == 0 {
            return Compat::Incompatible;
        }
        match (self.types.get(f), self.types.get(t)) {
            (Some(TypeKind::Nullptr), Some(TypeKind::Reference { referent, .. })) => {
                self.compat_to_depth(f, *referent, depth - 1)
            },
            (Some(TypeKind::Nullptr), Some(TypeKind::Pointer { .. })) => Compat::NullptrToPointer,
            (Some(TypeKind::Builtin(x)), Some(TypeKind::Builtin(y))) => {
                if is_numeric(*x) && is_numeric(*y) {
                    if numeric_rank(*x) <= numeric_rank(*y) {
                        Compat::NumericPromote
                    } else {
                        Compat::NumericConvert
                    }
                } else {
                    Compat::Incompatible
                }
            },
            (
                Some(TypeKind::Pointer { pointee: p, .. }),
                Some(TypeKind::Pointer { pointee: q, .. }),
            ) => {
                if *p == *q {
                    Compat::Same
                } else if matches!(
                    self.types.get(*q),
                    Some(TypeKind::Builtin(BuiltinType::Void))
                ) {
                    Compat::PointerToVoid
                } else if self.is_class_derived_from(*p, *q) {
                    Compat::DerivedToBase
                } else {
                    Compat::Incompatible
                }
            },
            (
                Some(TypeKind::Reference { referent: p, .. }),
                Some(TypeKind::Reference { referent: q, .. }),
            ) => self.compat_to_depth(*p, *q, depth - 1),
            (Some(TypeKind::Reference { referent: p, .. }), _) => self.compat_to_depth(
                *p,
                t,
                depth - 1,
            ),
            (_, Some(TypeKind::Reference { referent: q, .. })) => self.compat_to_depth(
                f,
                *q,
                depth - 1,
            ),
            (Some(TypeKind::Class(x)), Some(TypeKind::Class(y))) => {
                if self.is_class_derived_from_class(*x, *y) {
                    Compat::DerivedToBase
                } else {
                    Compat::Incompatible
                }
            },
            _ => Compat::Incompatible,
        }
    }

    pub fn check_compat(&self, from: TypeId, to: TypeId) -> (r: Compat)
        ensures
            r == compat(self@, from, to),
    {
        let n: usize = self.types.len();
        self.compat_to_depth(from, to, 2 * (n as u128) + 2)
    }

    pub fn types_equivalent(&self, left: TypeId, right: TypeId) -> (r: bool)
        ensures
            r == equivalent(self@, left, right),
    {
        self.check_compat(left, right) == Compat::Same && self.check_compat(right, left)
            == Compat::Same
    }

    pub fn find_pointer_type(&self, pointee: TypeId) -> (r: Option<TypeId>)
        ensures
            r == pointer_to(self@, pointee),
    {
        match self.types.find(&TypeKind::Pointer { pointee, cv: CvQual::default() }) {
            Some(id) => {
                return Some(id);
            },
            None => {},
        }
        match self.render_type(pointee) {
            Some(s) => {
                let n: usize = self.types.len();
                let mut i: usize = 0;
                while i < n
                    invariant
                        n == self@.types.kinds.len(),
                        n == self.types.types@.len(),
                        i <= n,
                        pointer_to(self@, pointee) == pointer_rendered(self@, s@, i as int),
                    decreases n - i,
                {
                    assert(self@.types.kinds[i as int] == self.types.types@[i as int]@);
                    match &self.types.types[i] {
                        TypeKind::Pointer { pointee: p, .. } => {
                            match self.render_type(*p) {
                                Some(other) => {
                                    if text::same(&other, &s) {
                                        return Some(TypeId(i as u32));
                                    }
                                },
                                None => {},
                            }
                        },
                        _ => {},
                    }
                    i = i + 1;
                }
                None
            },
            None => None,
        }
    }

    pub fn find_reference_type(&self, referent: TypeId) -> (r: Option<TypeId>)
        ensures
            r == reference_to(self@, referent),
    {
        self.types.find(&TypeKind::Reference { referent, kind: RefKind::LValue })
    }

    pub fn find_array_type(&self, elem: TypeId) -> (r: Option<TypeId>)
        ensures
            r == array_of(self@, elem),
    {
        self.types.find(&TypeKind::Array { elem, size: None })
    }

    pub fn find_function_type(
        &self,
        return_t: TypeId,
        params: Vec<TypeId>,
        min_arity: usize,
        is_variadic: bool,
        is_const_member: bool,
    ) -> (r: Option<TypeId>)
        ensures
            r == self@.types.find(
                TypeShape::Function {
                    return_t,
                    params: params@,
                    min_arity,
                    is_variadic,
                    is_const_member,
                },
            ),
    {
        self.types.find(
            &TypeKind::Function { return_t, params, min_arity, is_variadic, is_const_member },
        )
    }

    pub fn source(&self) -> (r: Option<&str>)
        ensures
            text::opt_str(r) == self@.source,
    {
        match &self.source {
            Some(s) => Some(s.as_str()),
            None => None,
        }
    }
}

// ---------------------------------------------------------------------------
// What holds of how types fit
// ---------------------------------------------------------------------------
/// A type fits itself and what it is another name for, and is equivalent to both.
pub proof fn type_fits_itself(c: SemaView, id: TypeId)
    ensures
        compat(c, id, id) == Compat::Same,
        equivalent(c, id, id),
        canonical(c, canonical(c, id, 32), 32) == canonical(c, id, 32) ==> equivalent(
            c,
            id,
            canonical(c, id, 32),
        ),
{
}

/// It does not matter which of two types is named first.
pub proof fn equivalence_is_mutual(c: SemaView, left: TypeId, right: TypeId)
    ensures
        equivalent(c, left, right) == equivalent(c, right, left),
{
}

/// A class fits the classes that it comes from, and a pointer to it a pointer to them.
pub proof fn derived_fits_base(c: SemaView, from: TypeId, to: TypeId)
    requires
        canonical(c, from, 32) == from,
        canonical(c, to, 32) == to,
        from != to,
    ensures
        c.kind(from) is Some && c.kind(from)->0 is Class && c.kind(to) is Some && c.kind(to)->0 is Class
            ==> (compat(c, from, to) == Compat::DerivedToBase <==> type_derives(c, from, to)),
{
}

} // verus!
