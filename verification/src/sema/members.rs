//! What can be said of names at a node and of the members of classes.
use vstd::prelude::*;

use super::lookup::{
    found, found_for_call, found_qualified, holds_class, lookup_call_name, lookup_name,
    lookup_qualified_name, lookup_segments, strs,
};
use super::resolve::class_of_type;
use super::scope::ScopeId;
use super::symbol::{ClassId, SymbolId, SymbolKind, SymbolShape};
use super::syntax::SyntaxTree;
use super::types::{
    arg_shapes, copy_ids, ArgShape, RefKind, TemplateArg, TypeId, TypeKind, TypeShape,
};
use super::{
    canonical, param_name, param_shapes, pointer_to, MemberCallableSignature,
    ParamShape, SemaContext, SemaView, SignatureView, TemplateScopeParam,
};
use crate::text;

verus! {

broadcast use vstd::std_specs::hash::group_hash_axioms;

/// The scope that was attached last, among the first `upto`, to this stretch of the source.
pub open spec fn attached(list: Seq<(usize, usize, ScopeId)>, start: usize, end: usize, upto: int) -> Option<
    ScopeId,
>
    decreases upto,
{
    if upto <= 0 || upto > list.len() {
        None
    } else if list[upto - 1].0 == start && list[upto - 1].1 == end {
        Some(list[upto - 1].2)
    } else {
        attached(list, start, end, upto - 1)
    }
}

/// The scope in which a node stands: that of the nearest node around it that has one.
pub open spec fn scope_of(c: SemaView, t: SyntaxTree, n: usize) -> ScopeId
    decreases n,
    when t.has(n)
{
    match attached(
        c.node_scopes,
        t.at(n).start_byte,
        t.at(n).end_byte,
        c.node_scopes.len() as int,
    ) {
        Some(s) => s,
        None => match t.at(n).parent {
            Some(p) => scope_of(c, t, p),
            None => c.scopes.global,
        },
    }
}

/// What a name stands for in the innermost scope from `cur` outwards that declares it.
pub open spec fn declared_outwards(c: SemaView, cur: Option<ScopeId>, name: Seq<char>, steps: nat) -> Seq<
    SymbolId,
>
    decreases steps,
{
    if steps == 0 {
        Seq::empty()
    } else {
        match cur {
            None => Seq::empty(),
            Some(id) => match c.scopes.scope(id) {
                None => Seq::empty(),
                Some(s) => if s.named(name).len() > 0 {
                    s.named(name)
                } else {
                    declared_outwards(c, s.parent, name, (steps - 1) as nat)
                },
            },
        }
    }
}

/// What a name stands for in the scopes around the one in which a node stands.
pub open spec fn declared_around(c: SemaView, t: SyntaxTree, n: usize, name: Seq<char>) -> Seq<SymbolId> {
    declared_outwards(c, c.scopes.parent(scope_of(c, t, n)), name, c.scopes.scopes.len())
}

/// The type of a symbol.
pub open spec fn type_of_symbol(c: SemaView, id: SymbolId) -> Option<TypeId> {
    match c.symbols.kind(id) {
        Some(SymbolShape::Class { type_id, .. }) => Some(type_id),
        Some(SymbolShape::Enum { type_id, .. }) => Some(type_id),
        Some(SymbolShape::Variable { type_id, .. }) => Some(type_id),
        Some(SymbolShape::Field { type_id, .. }) => Some(type_id),
        Some(SymbolShape::Method { type_id, .. }) => Some(type_id),
        Some(SymbolShape::Typedef { type_id }) => Some(type_id),
        Some(SymbolShape::Function { decls }) => if decls.len() > 0 {
            Some(decls[0].type_id)
        } else {
            None
        },
        _ => None,
    }
}

/// The type of the first symbol from position `k` on that has one.
pub open spec fn first_type(c: SemaView, ids: Seq<SymbolId>, k: int) -> Option<TypeId>
    decreases ids.len() - k,
{
    if k < 0 || k >= ids.len() {
        None
    } else {
        match type_of_symbol(c, ids[k]) {
            Some(t) => Some(t),
            None => first_type(c, ids, k + 1),
        }
    }
}

pub open spec fn first_of(ids: Seq<SymbolId>) -> Option<SymbolId> {
    if ids.len() > 0 {
        Some(ids[0])
    } else {
        None
    }
}

/// Whether a symbol stands for something that a name can mean.
pub open spec fn is_meaning(c: SemaView, id: SymbolId) -> bool {
    match c.symbols.kind(id) {
        Some(kind) => !(kind is Template),
        None => false,
    }
}

/// The classes that were visited and the symbols that were found.
#[verifier::ext_equal]
pub struct Visit {
    pub classes: Seq<ClassId>,
    pub symbols: Seq<SymbolId>,
}

/// The visit after a class and the classes that it comes from.
pub open spec fn visited(c: SemaView, class_id: ClassId, name: Seq<char>, v: Visit, left: nat) -> Visit
    decreases left, 0nat,
{
    if v.classes.contains(class_id) || left == 0 {
        v
    } else {
        let own = Visit {
            classes: v.classes.push(class_id),
            symbols: match c.symbols.class_scope(class_id) {
                Some(s) => v.symbols + c.scopes.named(s, name),
                None => v.symbols,
            },
        };
        visited_parents(c, c.symbols.parents(class_id), 0, name, own, (left - 1) as nat)
    }
}

pub open spec fn visited_parents(
    c: SemaView,
    parents: Seq<TypeId>,
    k: int,
    name: Seq<char>,
    v: Visit,
    left: nat,
) -> Visit
    decreases left, parents.len() - k + 1,
{
    if k < 0 || k >= parents.len() {
        v
    } else {
        let next = match c.kind(parents[k]) {
            Some(TypeShape::Class(p)) => visited(c, p, name, v, left),
            _ => v,
        };
        visited_parents(c, parents, k + 1, name, next, left)
    }
}

/// The members of a class under a name: its own, then those of the classes it comes from.
pub open spec fn members_of_class(c: SemaView, class_id: ClassId, name: Seq<char>) -> Seq<SymbolId> {
    visited(
        c,
        class_id,
        name,
        Visit { classes: Seq::empty(), symbols: Seq::empty() },
        c.types.kinds.len() + 2,
    ).symbols
}

pub open spec fn members_of_type(c: SemaView, class_type: TypeId, name: Seq<char>) -> Seq<SymbolId> {
    match class_of_type(c, class_type) {
        Some(class_id) => members_of_class(c, class_id, name),
        None => Seq::empty(),
    }
}

/// The type that a function type returns.
pub open spec fn returned(c: SemaView, fn_type: TypeId) -> Option<TypeId> {
    match c.kind(fn_type) {
        Some(TypeShape::Function { return_t, .. }) => Some(return_t),
        _ => None,
    }
}

/// The type that the innermost function from `cur` outwards returns.
pub open spec fn returned_outwards(c: SemaView, cur: Option<ScopeId>, steps: nat) -> Option<TypeId>
    decreases steps,
{
    if steps == 0 {
        None
    } else {
        match cur {
            None => None,
            Some(id) => {
                let outside = returned_outwards(c, c.scopes.parent(id), (steps - 1) as nat);
                if c.owners.contains_key(id.0) {
                    match c.symbols.kind(c.owners[id.0]) {
                        None => None,
                        Some(SymbolShape::Function { decls }) => if decls.len() > 0 {
                            returned(c, decls[0].type_id)
                        } else {
                            None
                        },
                        Some(SymbolShape::Method { type_id, .. }) => returned(c, type_id),
                        Some(_) => outside,
                    }
                } else {
                    outside
                }
            },
        }
    }
}

pub open spec fn enclosing_return_type(c: SemaView, t: SyntaxTree, n: usize) -> Option<TypeId> {
    returned_outwards(c, Some(scope_of(c, t, n)), c.scopes.scopes.len() + 1)
}

/// Names with the template arguments that they stand for.
pub type Bindings = Vec<(String, TemplateArg)>;

pub open spec fn bound(b: Seq<(String, TemplateArg)>) -> Seq<(Seq<char>, ArgShape)> {
    b.map_values(|e: (String, TemplateArg)| (e.0@, e.1@))
}

/// What the name was bound to last, among the first `upto`.
pub open spec fn binding(b: Seq<(Seq<char>, ArgShape)>, name: Seq<char>, upto: int) -> Option<ArgShape>
    decreases upto,
{
    if upto <= 0 || upto > b.len() {
        None
    } else if b[upto - 1].0 == name {
        Some(b[upto - 1].1)
    } else {
        binding(b, name, upto - 1)
    }
}

pub open spec fn bound_to(b: Seq<(Seq<char>, ArgShape)>, name: Seq<char>) -> Option<ArgShape> {
    binding(b, name, b.len() as int)
}

/// The parameters with the arguments that stand in the same places.
pub open spec fn paired(params: Seq<ParamShape>, args: Seq<ArgShape>) -> Seq<(Seq<char>, ArgShape)> {
    Seq::new(
        if params.len() <= args.len() {
            params.len()
        } else {
            args.len()
        },
        |i: int| (param_name(params[i]), args[i]),
    )
}

pub open spec fn template_args_of(c: SemaView, id: TypeId) -> Option<Seq<ArgShape>> {
    match c.kind(id) {
        Some(TypeShape::Template { args, .. }) => Some(args),
        _ => None,
    }
}

/// The arguments of the template that a receiver is an instance of.
pub open spec fn receiver_args(c: SemaView, receiver: TypeId) -> Option<Seq<ArgShape>> {
    match c.kind(receiver) {
        Some(TypeShape::Template { args, .. }) => Some(args),
        Some(TypeShape::Pointer { pointee, .. }) => template_args_of(c, pointee),
        Some(TypeShape::Reference { referent, .. }) => template_args_of(c, referent),
        _ => None,
    }
}

/// What the template parameters of a member's class stand for on this receiver.
pub open spec fn owner_bindings(c: SemaView, receiver: TypeId, owner: ClassId) -> Option<
    Seq<(Seq<char>, ArgShape)>,
> {
    if !c.template_params.contains_key(owner.0) || c.template_params[owner.0].len() == 0 {
        None
    } else {
        match receiver_args(c, canonical(c, receiver, 32)) {
            Some(args) => Some(paired(c.template_params[owner.0], args)),
            None => None,
        }
    }
}

/// The known type in which bound names are replaced by what they stand for.
pub open spec fn substituted(c: SemaView, id: TypeId, b: Seq<(Seq<char>, ArgShape)>, depth: nat) -> Option<
    TypeId,
>
    decreases depth, 0nat,
{
    if depth == 0 {
        None
    } else {
        match c.kind(id) {
            None => None,
            Some(TypeShape::Dependent(name)) => match bound_to(b, name) {
                Some(ArgShape::Type(t)) => Some(t),
                _ => Some(id),
            },
            Some(TypeShape::Pointer { pointee, .. }) => match substituted(
                c,
                pointee,
                b,
                (depth - 1) as nat,
            ) {
                Some(p) => pointer_to(c, p),
                None => None,
            },
            Some(TypeShape::Reference { referent, kind }) => match substituted(
                c,
                referent,
                b,
                (depth - 1) as nat,
            ) {
                Some(p) => c.types.find(TypeShape::Reference { referent: p, kind }),
                None => None,
            },
            Some(TypeShape::Array { elem, size }) => match substituted(
                c,
                elem,
                b,
                (depth - 1) as nat,
            ) {
                Some(e) => c.types.find(TypeShape::Array { elem: e, size }),
                None => None,
            },
            Some(TypeShape::Template { base, args }) => match substituted_args(
                c,
                args,
                0,
                b,
                (depth - 1) as nat,
            ) {
                Some(list) => c.types.find(TypeShape::Template { base, args: list }),
                None => None,
            },
            Some(_) => Some(id),
        }
    }
}

pub open spec fn substituted_args(
    c: SemaView,
    args: Seq<ArgShape>,
    k: int,
    b: Seq<(Seq<char>, ArgShape)>,
    depth: nat,
) -> Option<Seq<ArgShape>>
    decreases depth, args.len() - k + 1,
{
    if k < 0 || k >= args.len() {
        Some(Seq::empty())
    } else {
        let first = match args[k] {
            ArgShape::Type(t) => match substituted(c, t, b, depth) {
                Some(r) => Some(ArgShape::Type(r)),
                None => None,
            },
            ArgShape::Value(v) => match bound_to(b, v) {
                Some(a) => Some(a),
                None => Some(ArgShape::Value(v)),
            },
        };
        match (first, substituted_args(c, args, k + 1, b, depth)) {
            (Some(x), Some(rest)) => Some(seq![x] + rest),
            _ => None,
        }
    }
}

pub open spec fn substitute(c: SemaView, id: TypeId, b: Seq<(Seq<char>, ArgShape)>) -> Option<TypeId> {
    substituted(c, id, b, c.types.kinds.len())
}

pub open spec fn substitute_or_same(c: SemaView, id: TypeId, b: Seq<(Seq<char>, ArgShape)>) -> TypeId {
    match substitute(c, id, b) {
        Some(t) => t,
        None => id,
    }
}

/// The type of a member on a receiver.
pub open spec fn member_type(c: SemaView, receiver: TypeId, id: SymbolId) -> Option<TypeId> {
    match type_of_symbol(c, id) {
        None => None,
        Some(base) => {
            let owner = match c.symbols.kind(id) {
                Some(SymbolShape::Field { owner, .. }) => Some(owner),
                Some(SymbolShape::Method { owner, .. }) => Some(owner),
                _ => None,
            };
            match owner {
                None => Some(base),
                Some(o) => match owner_bindings(c, receiver, o) {
                    Some(b) => Some(substitute_or_same(c, base, b)),
                    None => Some(base),
                },
            }
        },
    }
}

/// The signature that a function type has.
pub open spec fn signature_of(c: SemaView, fn_type: TypeId) -> Option<SignatureView> {
    match c.kind(fn_type) {
        Some(TypeShape::Function { return_t, params, min_arity, is_variadic, is_const_member }) => Some(
            SignatureView { return_t, params, min_arity, is_variadic, is_const_member },
        ),
        _ => None,
    }
}

/// The signature of a member that is called on a receiver.
pub open spec fn member_signature(c: SemaView, receiver: TypeId, id: SymbolId) -> Option<SignatureView> {
    match c.symbols.kind(id) {
        Some(SymbolShape::Method { owner, type_id, .. }) => match signature_of(c, type_id) {
            None => None,
            Some(s) => match owner_bindings(c, receiver, owner) {
                None => Some(s),
                Some(b) => Some(
                    SignatureView {
                        return_t: substitute_or_same(c, s.return_t, b),
                        params: s.params.map_values(|p: TypeId| substitute_or_same(c, p, b)),
                        ..s
                    },
                ),
            },
        },
        _ => match type_of_symbol(c, id) {
            Some(t) => signature_of(c, t),
            None => None,
        },
    }
}

pub open spec fn opt_signature(s: Option<MemberCallableSignature>) -> Option<SignatureView> {
    match s {
        Some(s) => Some(s@),
        None => None,
    }
}

pub open spec fn opt_bound(b: Option<Bindings>) -> Option<Seq<(Seq<char>, ArgShape)>> {
    match b {
        Some(b) => Some(bound(b@)),
        None => None,
    }
}

pub open spec fn opt_arg(a: Option<&TemplateArg>) -> Option<ArgShape> {
    match a {
        Some(a) => Some(a@),
        None => None,
    }
}

pub fn find_binding<'a>(b: &'a Bindings, name: &str) -> (r: Option<&'a TemplateArg>)
    ensures
        opt_arg(r) == bound_to(bound(b@), name@),
{
    let mut i: usize = b.len();
    while i > 0
        invariant
            i <= b@.len(),
            bound_to(bound(b@), name@) == binding(bound(b@), name@, i as int),
        decreases i,
    {
        if text::same(&b[i - 1].0, name) {
            return Some(&b[i - 1].1);
        }
        i = i - 1;
    }
    None
}

pub fn pair_bindings(params: &Vec<TemplateScopeParam>, args: &Vec<TemplateArg>) -> (r: Bindings)
    ensures
        bound(r@) == paired(param_shapes(params@), arg_shapes(args@)),
{
    let mut r: Bindings = Vec::new();
    let mut i: usize = 0;
    while i < params.len() && i < args.len()
        invariant
            i <= params@.len(),
            i <= args@.len(),
            r@.len() == i,
            forall|j: int|
                0 <= j < i ==> (#[trigger] r@[j]).0@ == param_name(params@[j]@) && r@[j].1@
                    == args@[j]@,
        decreases params@.len() - i,
    {
        r.push((text::copy_of(params[i].name()), args[i].clone()));
        i = i + 1;
    }
    assert(bound(r@) =~= paired(param_shapes(params@), arg_shapes(args@)));
    r
}

impl SemaContext {
    pub fn scope_for_node(&self, tree: &SyntaxTree, node: usize) -> (r: ScopeId)
        requires
            tree.has(node),
        ensures
            r == scope_of(self@, *tree, node),
    {
        let mut n: usize = node;
        loop
            invariant
                tree.has(n),
                scope_of(self@, *tree, node) == scope_of(self@, *tree, n),
            decreases n,
        {
            let start: usize = tree.nodes[n].start_byte;
            let end: usize = tree.nodes[n].end_byte;
            let mut i: usize = self.node_scopes.len();
            while i > 0
                invariant
                    tree.has(n),
                    start == tree.at(n).start_byte,
                    end == tree.at(n).end_byte,
                    i <= self.node_scopes@.len(),
                    scope_of(self@, *tree, node) == scope_of(self@, *tree, n),
                    attached(self@.node_scopes, start, end, self@.node_scopes.len() as int)
                        == attached(self@.node_scopes, start, end, i as int),
                decreases i,
            {
                let entry = self.node_scopes[i - 1];
                if entry.0 == start && entry.1 == end {
                    return entry.2;
                }
                i = i - 1;
            }
            assert(tree.at(n).parent == tree.nodes@[n as int].parent);
            match tree.nodes[n].parent {
                Some(p) => {
                    n = p;
                },
                None => {
                    return self.scopes.global;
                },
            }
        }
    }

    pub fn lookup_name_at_node(&self, tree: &SyntaxTree, node: usize, name: &str) -> (r: Vec<SymbolId>)
        requires
            tree.has(node),
        ensures
            r@ == found(self@, scope_of(self@, *tree, node), name@),
    {
        let scope = self.scope_for_node(tree, node);
        lookup_name(self, scope, name)
    }

    pub fn lookup_call_name_at_node(
        &self,
        tree: &SyntaxTree,
        node: usize,
        name: &str,
        arg_types: &[TypeId],
    ) -> (r: Vec<SymbolId>)
        requires
            tree.has(node),
        ensures
            r@ == found_for_call(self@, scope_of(self@, *tree, node), name@, arg_types@),
    {
        let scope = self.scope_for_node(tree, node);
        lookup_call_name(self, scope, name, arg_types)
    }

    pub fn lookup_qualified_name_at_node(&self, tree: &SyntaxTree, node: usize, segments: &[&str]) -> (r:
        Vec<SymbolId>)
        requires
            tree.has(node),
        ensures
            r@ == found_qualified(self@, scope_of(self@, *tree, node), strs(segments@)),
    {
        let scope = self.scope_for_node(tree, node);
        lookup_qualified_name(self, scope, segments)
    }

    pub fn lookup_segments_at_node(&self, tree: &SyntaxTree, node: usize, segments: &Vec<String>) -> (r:
        Vec<SymbolId>)
        requires
            tree.has(node),
        ensures
            r@ == found_qualified(
                self@,
                scope_of(self@, *tree, node),
                text::texts(segments@),
            ),
    {
        let scope = self.scope_for_node(tree, node);
        lookup_segments(self, scope, segments)
    }

    pub fn lookup_name_in_parent_scopes(&self, tree: &SyntaxTree, node: usize, name: &str) -> (r: Vec<
        SymbolId,
    >)
        requires
            tree.has(node),
        ensures
            r@ == declared_around(self@, *tree, node, name@),
    {
        let ghost whole = declared_around(self@, *tree, node, name@);
        let scope = self.scope_for_node(tree, node);
        let mut current: Option<ScopeId> = self.scopes.parent_of(scope);
        let mut steps: usize = self.scopes.len();
        while steps > 0
            invariant
                whole == declared_around(self@, *tree, node, name@),
                whole == declared_outwards(self@, current, name@, steps as nat),
            ensures
                whole == Seq::<SymbolId>::empty(),
            decreases steps,
        {
            match current {
                None => {
                    break ;
                },
                Some(id) => {
                    match self.scopes.get(id) {
                        None => {
                            break ;
                        },
                        Some(s) => {
                            let ids = s.ids_named(name);
                            if ids.len() > 0 {
                                return ids;
                            }
                            current = s.parent;
                        },
                    }
                },
            }
            steps = steps - 1;
        }
        Vec::new()
    }

    pub fn resolve_symbol_at_node(&self, tree: &SyntaxTree, node: usize, name: &str) -> (r: Option<
        SymbolId,
    >)
        requires
            tree.has(node),
        ensures
            r == first_of(found(self@, scope_of(self@, *tree, node), name@)),
    {
        let ids = self.lookup_name_at_node(tree, node, name);
        if ids.len() > 0 {
            Some(ids[0])
        } else {
            None
        }
    }

    pub fn resolve_qualified_symbol_at_node(&self, tree: &SyntaxTree, node: usize, segments: &[&str]) -> (r:
        Option<SymbolId>)
        requires
            tree.has(node),
        ensures
            r == first_of(found_qualified(self@, scope_of(self@, *tree, node), strs(segments@))),
    {
        let ids = self.lookup_qualified_name_at_node(tree, node, segments);
        if ids.len() > 0 {
            Some(ids[0])
        } else {
            None
        }
    }

    pub fn symbol_type(&self, symbol_id: SymbolId) -> (r: Option<TypeId>)
        ensures
            r == type_of_symbol(self@, symbol_id),
    {
        match self.symbols.get(symbol_id) {
            None => None,
            Some(symbol) => match &symbol.kind {
                SymbolKind::Class { type_id, .. } => Some(*type_id),
                SymbolKind::Enum { type_id, .. } => Some(*type_id),
                SymbolKind::Variable { type_id, .. } => Some(*type_id),
                SymbolKind::Field { type_id, .. } => Some(*type_id),
                SymbolKind::Method { type_id, .. } => Some(*type_id),
                SymbolKind::Typedef { type_id } => Some(*type_id),
                SymbolKind::Function { decls } => {
                    if decls.len() > 0 {
                        Some(decls[0].type_id)
                    } else {
                        None
                    }
                },
                _ => None,
            },
        }
    }

    pub fn first_symbol_type(&self, ids: &Vec<SymbolId>) -> (r: Option<TypeId>)
        ensures
            r == first_type(self@, ids@, 0),
    {
        let n: usize = ids.len();
        let mut i: usize = 0;
        while i < n
            invariant
                n == ids@.len(),
                i <= n,
                first_type(self@, ids@, 0) == first_type(self@, ids@, i as int),
            decreases n - i,
        {
            match self.symbol_type(ids[i]) {
                Some(t) => {
                    return Some(t);
                },
                None => {},
            }
            i = i + 1;
        }
        None
    }

    pub fn type_of_identifier_at_node(&self, tree: &SyntaxTree, node: usize, name: &str) -> (r: Option<
        TypeId,
    >)
        requires
            tree.has(node),
        ensures
            r == first_type(self@, found(self@, scope_of(self@, *tree, node), name@), 0),
    {
        let ids = self.lookup_name_at_node(tree, node, name);
        self.first_symbol_type(&ids)
    }

    pub fn type_of_qualified_identifier_at_node(
        &self,
        tree: &SyntaxTree,
        node: usize,
        segments: &[&str],
    ) -> (r: Option<TypeId>)
        requires
            tree.has(node),
        ensures
            r == first_type(
                self@,
                found_qualified(self@, scope_of(self@, *tree, node), strs(segments@)),
                0,
            ),
    {
        let ids = self.lookup_qualified_name_at_node(tree, node, segments);
        self.first_symbol_type(&ids)
    }

    pub fn lookup_class_member_type(&self, class_type: TypeId, member_name: &str) -> (r: Option<TypeId>)
        ensures
            r == first_type(self@, members_of_type(self@, class_type, member_name@), 0),
    {
        let ids = self.lookup_class_member_symbols(class_type, member_name);
        self.first_symbol_type(&ids)
    }

    pub fn lookup_member_on_class_id(&self, class_id: ClassId, member_name: &str) -> (r: Option<TypeId>)
        ensures
            r == first_type(self@, members_of_class(self@, class_id, member_name@), 0),
    {
        let ids = self.lookup_member_on_class_id_symbols(class_id, member_name);
        self.first_symbol_type(&ids)
    }

    pub fn lookup_class_member_symbols(&self, class_type: TypeId, member_name: &str) -> (r: Vec<SymbolId>)
        ensures
            r@ == members_of_type(self@, class_type, member_name@),
    {
        match self.class_id_for_type(class_type) {
            Some(class_id) => self.lookup_member_on_class_id_symbols(class_id, member_name),
            None => Vec::new(),
        }
    }

    pub fn enclosing_function_return_type(&self, tree: &SyntaxTree, node: usize) -> (r: Option<TypeId>)
        requires
            tree.has(node),
        ensures
            r == enclosing_return_type(self@, *tree, node),
    {
        let ghost whole = enclosing_return_type(self@, *tree, node);
        let mut current: Option<ScopeId> = Some(self.scope_for_node(tree, node));
        let mut steps: u128 = self.scopes.len() as u128 + 1;
        while steps > 0
            invariant
                whole == enclosing_return_type(self@, *tree, node),
                whole == returned_outwards(self@, current, steps as nat),
            ensures
                whole is None,
            decreases steps,
        {
            match current {
                None => {
                    break ;
                },
                Some(id) => {
                    match self.scope_owner_symbols.get(&id.0) {
                        Some(symbol_id) => {
                            match self.symbols.get(*symbol_id) {
                                None => {
                                    return None;
                                },
                                Some(symbol) => {
                                    match &symbol.kind {
                                        SymbolKind::Function { decls } => {
                                            if decls.len() > 0 {
                                                return self.return_type_of(decls[0].type_id);
                                            }
                                            return None;
                                        },
                                        SymbolKind::Method { type_id, .. } => {
                                            return self.return_type_of(*type_id);
                                        },
                                        _ => {},
                                    }
                                },
                            }
                        },
                        None => {},
                    }
                    current = self.scopes.parent_of(id);
                },
            }
            steps = steps - 1;
        }
        None
    }

    pub fn return_type_of(&self, fn_type: TypeId) -> (r: Option<TypeId>)
        ensures
            r == returned(self@, fn_type),
    {
        match self.types.get(fn_type) {
            Some(TypeKind::Function { return_t, .. }) => Some(*return_t),
            _ => None,
        }
    }

    fn lookup_member_on_class_id_symbols(&self, class_id: ClassId, member_name: &str) -> (r: Vec<SymbolId>)
        ensures
            r@ == members_of_class(self@, class_id, member_name@),
    {
        let mut results: Vec<SymbolId> = Vec::new();
        let mut seen: Vec<ClassId> = Vec::new();
        let n: usize = self.types.len();
        self.collect_member_symbols(class_id, member_name, &mut seen, &mut results, n as u128 + 2);
        results
    }

    fn collect_member_symbols(
        &self,
        class_id: ClassId,
        member_name: &str,
        seen: &mut Vec<ClassId>,
        results: &mut Vec<SymbolId>,
        left: u128,
    )
        ensures
            (Visit { classes: final(seen)@, symbols: final(results)@ }) == visited(
                self@,
                class_id,
                member_name@,
                Visit { classes: old(seen)@, symbols: old(results)@ },
                left as nat,
            ),
        decreases left,
    {
        if holds_class(seen, class_id) || left == 0 {
            return ;
        }
        let ghost whole = visited(
            self@,
            class_id,
            member_name@,
            Visit { classes: seen@, symbols: results@ },
            left as nat,
        );
        seen.push(class_id);
        match self.symbols.class_scope(class_id) {
            Some(scope_id) => {
                let mut own = self.scopes.ids_named(scope_id, member_name);
                results.append(&mut own);
            },
            None => {},
        }
        let parents = self.symbols.class_parents(class_id);
        let n: usize = parents.len();
        let mut i: usize = 0;
        while i < n
            invariant
                left > 0,
                parents@ == self@.symbols.parents(class_id),
                n == parents@.len(),
                i <= n,
                whole == visited_parents(
                    self@,
                    parents@,
                    i as int,
                    member_name@,
                    Visit { classes: seen@, symbols: results@ },
                    (left - 1) as nat,
                ),
            decreases n - i,
        {
            match self.types.get(parents[i]) {
                Some(TypeKind::Class(parent_id)) => {
                    self.collect_member_symbols(*parent_id, member_name, seen, results, left - 1);
                },
                _ => {},
            }
            i = i + 1;
        }
    }

    pub fn symbol_exists_at_node(&self, tree: &SyntaxTree, node: usize, name: &str) -> (r: bool)
        requires
            tree.has(node),
        ensures
            r == (exists|k: int|
                0 <= k < found(self@, scope_of(self@, *tree, node), name@).len() && is_meaning(
                    self@,
                    #[trigger] found(self@, scope_of(self@, *tree, node), name@)[k],
                )),
    {
        let ids = self.lookup_name_at_node(tree, node, name);
        let n: usize = ids.len();
        let mut i: usize = 0;
        while i < n
            invariant
                ids@ == found(self@, scope_of(self@, *tree, node), name@),
                n == ids@.len(),
                i <= n,
                forall|j: int| 0 <= j < i ==> !is_meaning(self@, #[trigger] ids@[j]),
            decreases n - i,
        {
            match self.symbols.get(ids[i]) {
                Some(symbol) => {
                    if !matches!(symbol.kind, SymbolKind::Template) {
                        assert(is_meaning(self@, ids@[i as int]));
                        return true;
                    }
                },
                None => {},
            }
            assert(!is_meaning(self@, ids@[i as int]));
            i = i + 1;
        }
        false
    }

    fn template_bindings_for_member_owner(&self, receiver_type: TypeId, owner: ClassId) -> (r: Option<
        Bindings,
    >)
        ensures
            opt_bound(r) == owner_bindings(self@, receiver_type, owner),
    {
        match self.class_template_params.get(&owner.0) {
            None => None,
            Some(params) => {
                assert(self@.template_params[owner.0] == param_shapes(params@));
                if params.len() == 0 {
                    return None;
                }
                let receiver = self.canonical_type_id(receiver_type);
                let args: Option<&Vec<TemplateArg>> = match self.types.get(receiver) {
                    Some(TypeKind::Template { args, .. }) => Some(args),
                    Some(TypeKind::Pointer { pointee, .. }) => self.instance_args(*pointee),
                    Some(TypeKind::Reference { referent, .. }) => self.instance_args(*referent),
                    _ => None,
                };
                match args {
                    Some(args) => Some(pair_bindings(params, args)),
                    None => None,
                }
            },
        }
    }

    fn instance_args(&self, type_id: TypeId) -> (r: Option<&Vec<TemplateArg>>)
        ensures
            match r {
                Some(v) => template_args_of(self@, type_id) == Some(arg_shapes(v@)),
                None => template_args_of(self@, type_id) is None,
            },
    {
        match self.types.get(type_id) {
            Some(TypeKind::Template { args, .. }) => Some(args),
            _ => None,
        }
    }

    fn substitute_to_depth(&self, type_id: TypeId, b: &Bindings, depth: usize) -> (r: Option<TypeId>)
        ensures
            r == substituted(self@, type_id, bound(b@), depth as nat),
        decreases depth, 0nat,
    {
        if depth == 0 {
            return None;
        }
        match self.types.get(type_id) {
            None => None,
            Some(TypeKind::Dependent(name)) => match find_binding(b, name) {
                Some(TemplateArg::Type(t)) => Some(*t),
                _ => Some(type_id),
            },
            Some(TypeKind::Pointer { pointee, .. }) => match self.substitute_to_depth(
                *pointee,
                b,
                depth - 1,
            ) {
                Some(p) => self.find_pointer_type(p),
                None => None,
            },
            Some(TypeKind::Reference { referent, kind }) => match self.substitute_to_depth(
                *referent,
                b,
                depth - 1,
            ) {
                Some(p) => match kind {
                    RefKind::LValue => self.find_reference_type(p),
                    RefKind::RValue => self.types.find(
                        &TypeKind::Reference { referent: p, kind: *kind },
                    ),
                },
                None => None,
            },
            Some(TypeKind::Array { elem, size }) => match self.substitute_to_depth(
                *elem,
                b,
                depth - 1,
            ) {
                Some(e) => self.types.find(&TypeKind::Array { elem: e, size: *size }),
                None => None,
            },
            Some(TypeKind::Template { base, args }) => match self.substitute_args(
                args,
                b,
                depth - 1,
            ) {
                Some(list) => self.types.find(
                    &TypeKind::Template { base: text::copy_of(base), args: list },
                ),
                None => None,
            },
            Some(_) => Some(type_id),
        }
    }

    fn substitute_args(&self, args: &Vec<TemplateArg>, b: &Bindings, depth: usize) -> (r: Option<
        Vec<TemplateArg>,
    >)
        ensures
            match r {
                Some(list) => substituted_args(
                    self@,
                    arg_shapes(args@),
                    0,
                    bound(b@),
                    depth as nat,
                ) == Some(arg_shapes(list@)),
                None => substituted_args(
                    self@,
                    arg_shapes(args@),
                    0,
                    bound(b@),
                    depth as nat,
                ) is None,
            },
        decreases depth, 1nat,
    {
        let ghost shapes = arg_shapes(args@);
        let ghost bb = bound(b@);
        let ghost whole = substituted_args(self@, shapes, 0, bb, depth as nat);
        let mut list: Vec<TemplateArg> = Vec::new();
        let n: usize = args.len();
        let mut i: usize = 0;
        assert(arg_shapes(list@) =~= Seq::<ArgShape>::empty());
        assert(whole matches Some(w) ==> w =~= arg_shapes(list@) + w);
        while i < n
            invariant
                shapes == arg_shapes(args@),
                bb == bound(b@),
                whole == substituted_args(self@, arg_shapes(args@), 0, bound(b@), depth as nat),
                n == args@.len(),
                i <= n,
                match substituted_args(self@, shapes, i as int, bb, depth as nat) {
                    Some(rest) => whole == Some(arg_shapes(list@) + rest),
                    None => whole is None,
                },
            decreases n - i,
        {
            assert(shapes[i as int] == args@[i as int]@);
            let ghost before = arg_shapes(list@);
            let item: Option<TemplateArg> = match &args[i] {
                TemplateArg::Type(t) => match self.substitute_to_depth(*t, b, depth) {
                    Some(x) => Some(TemplateArg::Type(x)),
                    None => None,
                },
                TemplateArg::Value(v) => match find_binding(b, v) {
                    Some(a) => Some(a.clone()),
                    None => Some(TemplateArg::Value(text::copy_of(v))),
                },
            };
            match item {
                Some(x) => {
                    list.push(x);
                    assert(arg_shapes(list@) =~= before.push(x@));
                    proof {
                        match substituted_args(self@, shapes, i + 1, bb, depth as nat) {
                            Some(rest) => {
                                assert(before + (seq![x@] + rest) =~= arg_shapes(list@) + rest);
                            },
                            None => {},
                        }
                    }
                },
                None => {
                    return None;
                },
            }
            i = i + 1;
        }
        assert(arg_shapes(list@) + Seq::<ArgShape>::empty() =~= arg_shapes(list@));
        Some(list)
    }

    pub fn substitute_type_id(&self, type_id: TypeId, b: &Bindings) -> (r: Option<TypeId>)
        ensures
            r == substitute(self@, type_id, bound(b@)),
    {
        let n: usize = self.types.len();
        self.substitute_to_depth(type_id, b, n)
    }

    fn substitute_or_keep(&self, type_id: TypeId, b: &Bindings) -> (r: TypeId)
        ensures
            r == substitute_or_same(self@, type_id, bound(b@)),
    {
        match self.substitute_type_id(type_id, b) {
            Some(t) => t,
            None => type_id,
        }
    }

    pub fn member_symbol_type(&self, receiver_type: TypeId, symbol_id: SymbolId) -> (r: Option<TypeId>)
        ensures
            r == member_type(self@, receiver_type, symbol_id),
    {
        match self.symbol_type(symbol_id) {
            None => None,
            Some(base_type) => {
                let owner: Option<ClassId> = match self.symbols.get(symbol_id) {
                    Some(symbol) => match &symbol.kind {
                        SymbolKind::Field { owner, .. } => Some(*owner),
                        SymbolKind::Method { owner, .. } => Some(*owner),
                        _ => None,
                    },
                    None => None,
                };
                match owner {
                    None => Some(base_type),
                    Some(o) => match self.template_bindings_for_member_owner(receiver_type, o) {
                        Some(b) => Some(self.substitute_or_keep(base_type, &b)),
                        None => Some(base_type),
                    },
                }
            },
        }
    }

    pub fn signature_of_type(&self, type_id: TypeId) -> (r: Option<MemberCallableSignature>)
        ensures
            opt_signature(r) == signature_of(self@, type_id),
    {
        match self.types.get(type_id) {
            Some(
                TypeKind::Function { return_t, params, min_arity, is_variadic, is_const_member },
            ) => Some(
                MemberCallableSignature {
                    return_t: *return_t,
                    params: copy_ids(params),
                    min_arity: *min_arity,
                    is_variadic: *is_variadic,
                    is_const_member: *is_const_member,
                },
            ),
            _ => None,
        }
    }

    pub fn member_callable_signature(&self, receiver_type: TypeId, symbol_id: SymbolId) -> (r: Option<
        MemberCallableSignature,
    >)
        ensures
            opt_signature(r) == member_signature(self@, receiver_type, symbol_id),
    {
        let method: Option<(ClassId, TypeId)> = match self.symbols.get(symbol_id) {
            Some(symbol) => match &symbol.kind {
                SymbolKind::Method { owner, type_id, .. } => Some((*owner, *type_id)),
                _ => None,
            },
            None => None,
        };
        match method {
            None => match self.symbol_type(symbol_id) {
                Some(t) => self.signature_of_type(t),
                None => None,
            },
            Some((owner, type_id)) => match self.signature_of_type(type_id) {
                None => None,
                Some(s) => match self.template_bindings_for_member_owner(receiver_type, owner) {
                    None => Some(s),
                    Some(b) => {
                        let ghost c = self@;
                        let ghost bb = bound(b@);
                        let mut params: Vec<TypeId> = Vec::new();
                        let n: usize = s.params.len();
                        let mut i: usize = 0;
                        while i < n
                            invariant
                                c == self@,
                                bb == bound(b@),
                                n == s.params@.len(),
                                i <= n,
                                params@.len() == i,
                                forall|j: int|
                                    0 <= j < i ==> #[trigger] params@[j] == substitute_or_same(
                                        c,
                                        s.params@[j],
                                        bb,
                                    ),
                            decreases n - i,
                        {
                            params.push(self.substitute_or_keep(s.params[i], &b));
                            i = i + 1;
                        }
                        assert(params@ =~= s.params@.map_values(
                            |p: TypeId| substitute_or_same(c, p, bb),
                        ));
                        Some(
                            MemberCallableSignature {
                                return_t: self.substitute_or_keep(s.return_t, &b),
                                params,
                                min_arity: s.min_arity,
                                is_variadic: s.is_variadic,
                                is_const_member: s.is_const_member,
                            },
                        )
                    },
                },
            },
        }
    }
}

} // verus!
