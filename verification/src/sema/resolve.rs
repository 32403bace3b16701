//! The types that a text stands for, among those that are known.
use vstd::prelude::*;

use super::lookup::{found_qualified, lookup_segments};
use super::names::{
    clean, clean_type_string, lemma_args_len, none_longer, path_segments, segments,
    split_template_args, template_args,
};
use super::symbol::{ClassId, SymbolId, SymbolKind, SymbolShape};
use super::syntax::SyntaxTree;
use super::types::{arg_shapes, ArgShape, TemplateArg, TypeId, TypeKind, TypeShape};
use super::{array_of, pointer_to, reference_to, render, SemaContext, SemaView};
use crate::text;

verus! {

/// The first typedef among the symbols from position `k` on; `Some(None)` where an unknown symbol
/// stands before it.
pub open spec fn typedef_among(c: SemaView, ids: Seq<SymbolId>, k: int) -> Option<Option<TypeId>>
    decreases ids.len() - k,
{
    if k < 0 || k >= ids.len() {
        None
    } else {
        match c.symbols.kind(ids[k]) {
            None => Some(None),
            Some(SymbolShape::Typedef { type_id }) => Some(Some(type_id)),
            Some(_) => typedef_among(c, ids, k + 1),
        }
    }
}

/// The typedef of this name in the first scope from position `k` on that has one.
pub open spec fn typedef_in_scopes(c: SemaView, name: Seq<char>, k: int) -> Option<TypeId>
    decreases c.scopes.scopes.len() - k,
{
    if k < 0 || k >= c.scopes.scopes.len() {
        None
    } else {
        match typedef_among(c, c.scopes.scopes[k].named(name), 0) {
            Some(r) => r,
            None => typedef_in_scopes(c, name, k + 1),
        }
    }
}

/// The type that a class, an enum or a typedef declares.
pub open spec fn declared_type(c: SemaView, id: SymbolId) -> Option<TypeId> {
    match c.symbols.kind(id) {
        Some(SymbolShape::Class { type_id, .. }) => Some(type_id),
        Some(SymbolShape::Enum { type_id, .. }) => Some(type_id),
        Some(SymbolShape::Typedef { type_id }) => Some(type_id),
        _ => None,
    }
}

/// The first type that the symbols from position `k` on declare.
pub open spec fn first_declared_type(c: SemaView, ids: Seq<SymbolId>, k: int) -> Option<TypeId>
    decreases ids.len() - k,
{
    if k < 0 || k >= ids.len() {
        None
    } else {
        match declared_type(c, ids[k]) {
            Some(t) => Some(t),
            None => first_declared_type(c, ids, k + 1),
        }
    }
}

pub open spec fn qualified_type(c: SemaView, name: Seq<char>) -> Option<TypeId> {
    first_declared_type(c, found_qualified(c, c.scopes.global, segments(name)), 0)
}

pub open spec fn char_type(c: SemaView) -> TypeId {
    match c.char_t {
        Some(t) => t,
        None => c.types.unknown_t,
    }
}

pub open spec fn char_pointer_type(c: SemaView) -> TypeId {
    match c.char_ptr_t {
        Some(t) => t,
        None => c.types.unknown_t,
    }
}

/// The type that a plain name stands for.
pub open spec fn named_type(c: SemaView, s: Seq<char>) -> Option<TypeId> {
    if s == "void"@ {
        Some(c.types.void_t)
    } else if s == "bool"@ {
        Some(c.types.bool_t)
    } else if s == "char"@ || s == "ANSICHAR"@ || s == "TCHAR"@ {
        Some(char_type(c))
    } else if s == "int"@ || s == "int32"@ {
        Some(c.types.int32_t)
    } else if s == "uint32"@ {
        Some(c.types.uint32_t)
    } else if s == "float"@ {
        Some(c.types.float_t)
    } else if s == "double"@ {
        Some(c.types.double_t)
    } else {
        match typedef_in_scopes(c, s, 0) {
            Some(t) => Some(t),
            None => if text::has(s, "::"@) {
                qualified_type(c, s)
            } else {
                match c.symbols.class_id_by_name(s) {
                    Some(id) => c.types.find(TypeShape::Class(id)),
                    None => None,
                }
            },
        }
    }
}

/// The name and the arguments of a template as written.
pub open spec fn template_parts(s: Seq<char>) -> Option<(Seq<char>, Seq<char>)> {
    let end = text::char_from(s, '<', 0);
    if end >= s.len() {
        None
    } else {
        let base = text::trimmed(s.subrange(0, end));
        match text::stripped(s, base) {
            None => None,
            Some(rest) => match text::stripped(text::trimmed(rest), "<"@) {
                None => None,
                Some(open) => match text::stripped_end(open, ">"@) {
                    None => None,
                    Some(inner) => Some((base, inner)),
                },
            },
        }
    }
}

pub proof fn lemma_template_parts(s: Seq<char>)
    ensures
        template_parts(s) matches Some(p) ==> p.1.len() < s.len(),
{
    reveal_strlit("<");
    reveal_strlit(">");
    let end = text::char_from(s, '<', 0);
    if end < s.len() {
        let base = text::trimmed(s.subrange(0, end));
        if text::starts(s, base) {
            text::lemma_trimmed_len(s.subrange(base.len() as int, s.len() as int));
        }
    }
}

/// The known type that a cleaned text stands for.
pub open spec fn existing_clean(c: SemaView, raw: Seq<char>) -> Option<TypeId>
    decreases raw.len(), 0nat, 0nat,
{
    let s = text::trimmed(raw);
    if s.len() == 0 {
        None
    } else if text::ends(s, "[]"@) && 0 < "[]"@.len() {
        proof {
            text::lemma_trimmed_len(raw);
        }
        match existing_clean(c, s.subrange(0, s.len() - "[]"@.len())) {
            Some(elem) => array_of(c, elem),
            None => None,
        }
    } else if text::ends(s, "&"@) && 0 < "&"@.len() {
        proof {
            text::lemma_trimmed_len(raw);
            text::lemma_trimmed_end_len(s.subrange(0, s.len() - "&"@.len()));
        }
        match existing_clean(c, text::trimmed_end(s.subrange(0, s.len() - "&"@.len()))) {
            Some(referent) => reference_to(c, referent),
            None => None,
        }
    } else if text::ends(s, "*"@) && 0 < "*"@.len() {
        proof {
            text::lemma_trimmed_len(raw);
            text::lemma_trimmed_end_len(s.subrange(0, s.len() - "*"@.len()));
        }
        match existing_clean(c, text::trimmed_end(s.subrange(0, s.len() - "*"@.len()))) {
            Some(pointee) => pointer_to(c, pointee),
            None => None,
        }
    } else {
        let template = match template_parts(s) {
            Some((base, inner)) => {
                proof {
                    text::lemma_trimmed_len(raw);
                    lemma_template_parts(s);
                    lemma_args_len(inner, 0, 0, 0);
                }
                c.types.find(
                    TypeShape::Template {
                        base,
                        args: existing_args(c, template_args(inner), 0, inner.len()),
                    },
                )
            },
            None => None,
        };
        match template {
            Some(t) => Some(t),
            None => named_type(c, s),
        }
    }
}

/// The template arguments that the texts from position `k` on stand for.
pub open spec fn existing_args(c: SemaView, list: Seq<Seq<char>>, k: int, bound: nat) -> Seq<ArgShape>
    decreases bound, 1nat, list.len() - k,
    when 0 <= k <= list.len() && none_longer(list, bound)
{
    if k >= list.len() {
        Seq::empty()
    } else {
        let s = text::trimmed(list[k]);
        proof {
            text::lemma_trimmed_len(list[k]);
        }
        if s.len() == 0 {
            existing_args(c, list, k + 1, bound)
        } else {
            seq![
                match existing_clean(c, s) {
                    Some(t) => ArgShape::Type(t),
                    None => ArgShape::Value(s),
                },
            ] + existing_args(c, list, k + 1, bound)
        }
    }
}

/// The known type that a text stands for.
pub open spec fn existing_type(c: SemaView, raw: Seq<char>) -> Option<TypeId> {
    existing_clean(c, clean(raw))
}

/// The text of a node, where there is a source.
pub open spec fn source_text(c: SemaView, t: SyntaxTree, n: usize) -> Option<Seq<char>> {
    match c.source {
        Some(_) => t.text_opt(n),
        None => None,
    }
}

/// The known type that a node stands for.
pub open spec fn existing_type_at(c: SemaView, t: SyntaxTree, n: usize) -> Option<TypeId> {
    match source_text(c, t, n) {
        Some(s) => existing_type(c, s),
        None => None,
    }
}

/// The class that a type stands for, looked for in at most `depth` types.
pub open spec fn class_of(c: SemaView, id: TypeId, depth: nat) -> Option<ClassId>
    decreases depth,
{
    if depth == 0 {
        None
    } else {
        match c.kind(id) {
            Some(TypeShape::Class(class_id)) => Some(class_id),
            Some(TypeShape::Template { base, .. }) => {
                let whole = match render(c, id) {
                    Some(s) => c.symbols.class_id_by_name(s),
                    None => None,
                };
                match whole {
                    Some(class_id) => Some(class_id),
                    None => match existing_type(c, base) {
                        Some(t) => class_of(c, t, (depth - 1) as nat),
                        None => None,
                    },
                }
            },
            Some(TypeShape::Pointer { pointee, .. }) => class_of(c, pointee, (depth - 1) as nat),
            Some(TypeShape::Reference { referent, .. }) => class_of(c, referent, (depth - 1) as nat),
            Some(TypeShape::Typedef { aliased, .. }) => class_of(c, aliased, (depth - 1) as nat),
            _ => None,
        }
    }
}

pub open spec fn class_of_type(c: SemaView, id: TypeId) -> Option<ClassId> {
    class_of(c, id, c.types.kinds.len())
}

fn first_char_found(s: &str, c: char) -> (r: usize)
    ensures
        r == text::char_from(s@, c, 0),
        r <= s@.len(),
{
    let v = text::chars_of(s);
    text::char_pos(v.as_slice(), c, 0)
}

fn split_template(s: &str) -> (r: Option<(String, String)>)
    ensures
        match r {
            Some(p) => template_parts(s@) == Some((p.0@, p.1@)),
            None => template_parts(s@) is None,
        },
{
    let end: usize = first_char_found(s, '<');
    let n: usize = s.unicode_len();
    if end >= n {
        return None;
    }
    let base = text::trim(s.substring_char(0, end));
    match text::strip_prefix(s, base) {
        None => None,
        Some(rest) => match text::strip_prefix(text::trim(rest), "<") {
            None => None,
            Some(open) => match text::strip_suffix(open, ">") {
                None => None,
                Some(inner) => Some((text::copy_of(base), text::copy_of(inner))),
            },
        },
    }
}

impl SemaContext {
    pub fn typedef_in(&self, ids: &Vec<SymbolId>) -> (r: Option<Option<TypeId>>)
        ensures
            r == typedef_among(self@, ids@, 0),
    {
        let n: usize = ids.len();
        let mut i: usize = 0;
        while i < n
            invariant
                n == ids@.len(),
                i <= n,
                typedef_among(self@, ids@, 0) == typedef_among(self@, ids@, i as int),
            decreases n - i,
        {
            match self.symbols.get(ids[i]) {
                None => {
                    return Some(None);
                },
                Some(symbol) => {
                    match &symbol.kind {
                        SymbolKind::Typedef { type_id } => {
                            return Some(Some(*type_id));
                        },
                        _ => {},
                    }
                },
            }
            i = i + 1;
        }
        None
    }

    fn lookup_typedef_type_by_name(&self, name: &str) -> (r: Option<TypeId>)
        ensures
            r == typedef_in_scopes(self@, name@, 0),
    {
        let n: usize = self.scopes.len();
        let mut i: usize = 0;
        while i < n
            invariant
                n == self@.scopes.scopes.len(),
                i <= n,
                typedef_in_scopes(self@, name@, 0) == typedef_in_scopes(self@, name@, i as int),
            decreases n - i,
        {
            let ids = self.scopes.scope_at(i).ids_named(name);
            match self.typedef_in(&ids) {
                Some(r) => {
                    return r;
                },
                None => {},
            }
            i = i + 1;
        }
        None
    }

    pub fn declared_type_of(&self, symbol_id: SymbolId) -> (r: Option<TypeId>)
        ensures
            r == declared_type(self@, symbol_id),
    {
        match self.symbols.get(symbol_id) {
            Some(symbol) => match &symbol.kind {
                SymbolKind::Class { type_id, .. } => Some(*type_id),
                SymbolKind::Enum { type_id, .. } => Some(*type_id),
                SymbolKind::Typedef { type_id } => Some(*type_id),
                _ => None,
            },
            None => None,
        }
    }

    pub fn first_type_among(&self, ids: &Vec<SymbolId>) -> (r: Option<TypeId>)
        ensures
            r == first_declared_type(self@, ids@, 0),
    {
        let n: usize = ids.len();
        let mut i: usize = 0;
        while i < n
            invariant
                n == ids@.len(),
                i <= n,
                first_declared_type(self@, ids@, 0) == first_declared_type(self@, ids@, i as int),
            decreases n - i,
        {
            match self.declared_type_of(ids[i]) {
                Some(t) => {
                    return Some(t);
                },
                None => {},
            }
            i = i + 1;
        }
        None
    }

    fn lookup_qualified_type_by_name(&self, name: &str) -> (r: Option<TypeId>)
        ensures
            r == qualified_type(self@, name@),
    {
        let segs = path_segments(name);
        let ids = lookup_segments(self, self.scopes.global, &segs);
        self.first_type_among(&ids)
    }

    pub fn types_char(&self) -> (r: TypeId)
        ensures
            r == char_type(self@),
    {
        match self.cached_char_t {
            Some(t) => t,
            None => self.types.unknown_t,
        }
    }

    pub fn types_pointer_to_char(&self) -> (r: TypeId)
        ensures
            r == char_pointer_type(self@),
    {
        match self.cached_char_ptr_t {
            Some(t) => t,
            None => self.types.unknown_t,
        }
    }

    fn resolve_named(&self, s: &str) -> (r: Option<TypeId>)
        ensures
            r == named_type(self@, s@),
    {
        if text::same(s, "void") {
            return Some(self.types.void_t);
        }
        if text::same(s, "bool") {
            return Some(self.types.bool_t);
        }
        if text::same(s, "char") || text::same(s, "ANSICHAR") || text::same(s, "TCHAR") {
            return Some(self.types_char());
        }
        if text::same(s, "int") || text::same(s, "int32") {
            return Some(self.types.int32_t);
        }
        if text::same(s, "uint32") {
            return Some(self.types.uint32_t);
        }
        if text::same(s, "float") {
            return Some(self.types.float_t);
        }
        if text::same(s, "double") {
            return Some(self.types.double_t);
        }
        match self.lookup_typedef_type_by_name(s) {
            Some(t) => {
                return Some(t);
            },
            None => {},
        }
        if text::contains_text(s, "::") {
            return self.lookup_qualified_type_by_name(s);
        }
        match self.symbols.class_id_by_name(s) {
            Some(id) => self.types.find(&TypeKind::Class(id)),
            None => None,
        }
    }

    fn resolve_existing_clean_type(&self, clean: &str) -> (r: Option<TypeId>)
        ensures
            r == existing_clean(self@, clean@),
        decreases clean@.len(), 0nat,
    {
        proof {
            reveal_strlit("[]");
            reveal_strlit("&");
            reveal_strlit("*");
            text::lemma_trimmed_len(clean@);
        }
        let s = text::trim(clean);
        if s.is_empty() {
            return None;
        }
        match text::strip_suffix(s, "[]") {
            Some(inner) => {
                return match self.resolve_existing_clean_type(inner) {
                    Some(elem) => self.find_array_type(elem),
                    None => None,
                };
            },
            None => {},
        }
        match text::strip_suffix(s, "&") {
            Some(inner) => {
                proof {
                    text::lemma_trimmed_end_len(inner@);
                }
                return match self.resolve_existing_clean_type(text::trim_end(inner)) {
                    Some(referent) => self.find_reference_type(referent),
                    None => None,
                };
            },
            None => {},
        }
        match text::strip_suffix(s, "*") {
            Some(inner) => {
                proof {
                    text::lemma_trimmed_end_len(inner@);
                }
                return match self.resolve_existing_clean_type(text::trim_end(inner)) {
                    Some(pointee) => self.find_pointer_type(pointee),
                    None => None,
                };
            },
            None => {},
        }
        match split_template(s) {
            Some((base, inner)) => {
                proof {
                    lemma_template_parts(s@);
                    lemma_args_len(inner@, 0, 0, 0);
                }
                let list = split_template_args(&inner);
                let args = self.resolve_existing_args(&list, inner.as_str());
                match self.types.find(&TypeKind::Template { base, args }) {
                    Some(t) => {
                        return Some(t);
                    },
                    None => {},
                }
            },
            None => {},
        }
        self.resolve_named(s)
    }

    fn resolve_existing_args(&self, list: &Vec<String>, whole: &str) -> (r: Vec<TemplateArg>)
        requires
            none_longer(text::texts(list@), whole@.len()),
        ensures
            arg_shapes(r@) == existing_args(self@, text::texts(list@), 0, whole@.len()),
        decreases whole@.len(), 1nat,
    {
        let ghost t = text::texts(list@);
        let mut r: Vec<TemplateArg> = Vec::new();
        let n: usize = list.len();
        let mut i: usize = 0;
        while i < n
            invariant
                t == text::texts(list@),
                none_longer(t, whole@.len()),
                n == list@.len(),
                i <= n,
                existing_args(self@, t, 0, whole@.len()) == arg_shapes(r@) + existing_args(
                    self@,
                    t,
                    i as int,
                    whole@.len(),
                ),
            decreases n - i,
        {
            assert(t[i as int] == list@[i as int]@);
            proof {
                text::lemma_trimmed_len(list@[i as int]@);
            }
            let trimmed = text::trim(&list[i]);
            if !trimmed.is_empty() {
                let ghost before = arg_shapes(r@);
                let arg = match self.resolve_existing_clean_type(trimmed) {
                    Some(type_id) => TemplateArg::Type(type_id),
                    None => TemplateArg::Value(text::copy_of(trimmed)),
                };
                r.push(arg);
                assert(arg_shapes(r@) =~= before.push(arg@));
                assert(existing_args(self@, t, 0, whole@.len()) =~= arg_shapes(r@)
                    + existing_args(self@, t, i + 1, whole@.len()));
            }
            i = i + 1;
        }
        assert(arg_shapes(r@) =~= existing_args(self@, t, 0, whole@.len()));
        r
    }

    pub fn resolve_existing_type_text(&self, raw: &str) -> (r: Option<TypeId>)
        ensures
            r == existing_type(self@, raw@),
    {
        let clean = clean_type_string(raw);
        self.resolve_existing_clean_type(&clean)
    }

    pub fn node_text<'a>(&self, tree: &'a SyntaxTree, node: usize) -> (r: Option<&'a str>)
        requires
            tree.has(node),
        ensures
            text::opt_str(r) == source_text(self@, *tree, node),
    {
        match &self.source {
            Some(_) => match &tree.nodes[node].text {
                Some(s) => Some(s.as_str()),
                None => None,
            },
            None => None,
        }
    }

    pub fn resolve_existing_type_node(&self, tree: &SyntaxTree, node: usize) -> (r: Option<TypeId>)
        requires
            tree.has(node),
        ensures
            r == existing_type_at(self@, *tree, node),
    {
        match self.node_text(tree, node) {
            Some(s) => self.resolve_existing_type_text(s),
            None => None,
        }
    }

    fn class_to_depth(&self, type_id: TypeId, depth: usize) -> (r: Option<ClassId>)
        ensures
            r == class_of(self@, type_id, depth as nat),
        decreases depth,
    {
        if depth == 0 {
            return None;
        }
        match self.types.get(type_id) {
            Some(TypeKind::Class(class_id)) => Some(*class_id),
            Some(TypeKind::Template { base, .. }) => {
                match self.render_type(type_id) {
                    Some(s) => {
                        match self.symbols.class_id_by_name(&s) {
                            Some(class_id) => {
                                return Some(class_id);
                            },
                            None => {},
                        }
                    },
                    None => {},
                }
                match self.resolve_existing_type_text(base) {
                    Some(t) => self.class_to_depth(t, depth - 1),
                    None => None,
                }
            },
            Some(TypeKind::Pointer { pointee, .. }) => self.class_to_depth(*pointee, depth - 1),
            Some(TypeKind::Reference { referent, .. }) => self.class_to_depth(*referent, depth - 1),
            Some(TypeKind::Typedef { aliased, .. }) => self.class_to_depth(*aliased, depth - 1),
            _ => None,
        }
    }

    pub fn class_id_for_type(&self, type_id: TypeId) -> (r: Option<ClassId>)
        ensures
            r == class_of_type(self@, type_id),
    {
        let n: usize = self.types.len();
        self.class_to_depth(type_id, n)
    }
}

} // verus!
