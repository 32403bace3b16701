//! Template declarations: what a source says of a template.
use vstd::prelude::*;

use super::names::{clean, clean_type_string};
use super::pattern::{
    apply_pattern_declarator_wrappers, arg_text_views, function_declarator, function_declarator_of,
    function_patterns, is_literal_arg_kind, is_type_arg_kind, literal_arg_kind, params_in,
    parse_function_param_patterns, parse_template_params, pattern_at, pattern_views,
    template_param_views, type_arg_kind, type_pattern_from_node, wrapped, ArgText,
    ExplicitTemplateArg, PatternShape, TemplateParam, TemplateParamView, TypePattern,
};
use super::resolve::existing_type;
use super::symbol::SourceRef;
use super::syntax::{
    find_name_node, name_node, FieldName, NodeKind, SyntaxTree,
};
use super::{SemaContext, SemaView};
use crate::text;

verus! {

/// The text without its white space.
pub open spec fn without_space(s: Seq<char>) -> Seq<char>
    decreases s.len(),
{
    if s.len() == 0 {
        Seq::empty()
    } else if text::white_space(s.last()) {
        without_space(s.drop_last())
    } else {
        without_space(s.drop_last()).push(s.last())
    }
}

pub fn remove_space(s: &str) -> (r: String)
    ensures
        r@ == without_space(s@),
{
    let v = text::chars_of(s);
    let n: usize = v.len();
    let mut r = String::new();
    let mut i: usize = 0;
    assert(s@.take(0) =~= Seq::<char>::empty());
    while i < n
        invariant
            v@ == s@,
            n == v@.len(),
            i <= n,
            r@ == without_space(s@.take(i as int)),
        decreases n - i,
    {
        assert(s@.take(i + 1).drop_last() =~= s@.take(i as int));
        if !text::is_white_space(v[i]) {
            r.push(v[i]);
        }
        i = i + 1;
    }
    assert(s@.take(n as int) =~= s@);
    r
}

/// The last part of a qualified name.
pub open spec fn short_name(name: Seq<char>) -> Seq<char> {
    text::last_segment(name, "::"@)
}

pub fn short_name_of(name: &str) -> (r: &str)
    ensures
        r@ == short_name(name@),
{
    proof {
        reveal_strlit("::");
    }
    text::last_segment_of(name, "::")
}

/// A template's name without its arguments.
pub open spec fn without_args(name: Seq<char>) -> Seq<char> {
    text::trimmed(text::first_part(name, '<'))
}

pub fn strip_template_suffix(name: &str) -> (r: &str)
    ensures
        r@ == without_args(name@),
{
    text::trim(text::first_part_of(name, '<'))
}

#[derive(Clone, Copy, PartialEq, Eq, Structural, Debug)]
pub enum ConstraintState {
    Unconstrained,
    Guarded,
    AlwaysReject,
}

#[derive(Debug)]
pub enum TemplateDeclKind {
    Function { function_params: Vec<TypePattern>, return_pattern: TypePattern },
    Class { constructors: Vec<Vec<TypePattern>> },
}

#[verifier::ext_equal]
pub enum DeclKindView {
    Function { function_params: Seq<PatternShape>, return_pattern: PatternShape },
    Class { constructors: Seq<Seq<PatternShape>> },
}

pub open spec fn constructor_views(v: Seq<Vec<TypePattern>>) -> Seq<Seq<PatternShape>> {
    v.map_values(|c: Vec<TypePattern>| pattern_views(c@))
}

impl View for TemplateDeclKind {
    type V = DeclKindView;

    open spec fn view(&self) -> DeclKindView {
        match *self {
            TemplateDeclKind::Function { function_params, return_pattern } => DeclKindView::Function {
                function_params: pattern_views(function_params@),
                return_pattern: return_pattern@,
            },
            TemplateDeclKind::Class { constructors } => DeclKindView::Class {
                constructors: constructor_views(constructors@),
            },
        }
    }
}

#[derive(Debug)]
pub struct TemplateDecl {
    pub name: String,
    pub params: Vec<TemplateParam>,
    pub kind: TemplateDeclKind,
    pub source: SourceRef,
    pub end_source: SourceRef,
    pub is_sfinae_guarded: bool,
    pub sfinae_always_rejects: bool,
    pub is_explicit_specialization: bool,
    pub specialization_args: Vec<ExplicitTemplateArg>,
    pub signature_key: String,
}

#[verifier::ext_equal]
pub struct DeclView {
    pub name: Seq<char>,
    pub params: Seq<TemplateParamView>,
    pub kind: DeclKindView,
    pub source: SourceRef,
    pub end_source: SourceRef,
    pub is_sfinae_guarded: bool,
    pub sfinae_always_rejects: bool,
    pub is_explicit_specialization: bool,
    pub specialization_args: Seq<ArgText>,
    pub signature_key: Seq<char>,
}

impl View for TemplateDecl {
    type V = DeclView;

    open spec fn view(&self) -> DeclView {
        DeclView {
            name: self.name@,
            params: template_param_views(self.params@),
            kind: self.kind@,
            source: self.source,
            end_source: self.end_source,
            is_sfinae_guarded: self.is_sfinae_guarded,
            sfinae_always_rejects: self.sfinae_always_rejects,
            is_explicit_specialization: self.is_explicit_specialization,
            specialization_args: arg_text_views(self.specialization_args@),
            signature_key: self.signature_key@,
        }
    }
}

/// The node that names a class.
pub open spec fn class_name_node(t: SyntaxTree, n: usize) -> Option<usize> {
    match t.by_field(n, FieldName::Name) {
        Some(m) => Some(m),
        None => match t.descendant(n, NodeKind::TypeIdentifier) {
            Some(m) => Some(m),
            None => t.descendant(n, NodeKind::Identifier),
        },
    }
}

fn class_like_name_node(t: &SyntaxTree, n: usize) -> (r: Option<usize>)
    requires
        t.has(n),
    ensures
        r == class_name_node(*t, n),
        r matches Some(m) ==> t.has(m),
{
    match t.child_by_field(n, FieldName::Name) {
        Some(m) => Some(m),
        None => match t.find_descendant(n, NodeKind::TypeIdentifier) {
            Some(m) => Some(m),
            None => t.find_descendant(n, NodeKind::Identifier),
        },
    }
}

/// The name that a namespace or a class around a declaration adds to it.
pub open spec fn qualifier_at(t: SyntaxTree, n: usize) -> Seq<Seq<char>> {
    let kind = t.at(n).kind;
    let m = if kind == NodeKind::NamespaceDefinition {
        t.by_field(n, FieldName::Name)
    } else if kind == NodeKind::ClassSpecifier || kind == NodeKind::StructSpecifier || kind
        == NodeKind::UnrealReflectedClassDeclaration || kind
        == NodeKind::UnrealReflectedStructDeclaration {
        class_name_node(t, n)
    } else {
        None
    };
    match m {
        None => Seq::empty(),
        Some(m) => if text::trimmed(t.text(m)).len() == 0 {
            Seq::empty()
        } else {
            seq![text::trimmed(t.text(m))]
        },
    }
}

/// The names around a node, the outermost first.
pub open spec fn qualifiers(t: SyntaxTree, cur: Option<usize>) -> Seq<Seq<char>>
    decreases (match cur {
        Some(n) => n + 1,
        None => 0,
    }),
    when cur matches Some(n) ==> t.has(n)
{
    match cur {
        None => Seq::empty(),
        Some(n) => qualifiers(t, t.at(n).parent) + qualifier_at(t, n),
    }
}

pub open spec fn qualified(t: SyntaxTree, n: usize, local: Seq<char>) -> Seq<char> {
    let outer = qualifiers(t, t.at(n).parent);
    if outer.len() == 0 {
        local
    } else {
        text::joined(outer, "::"@) + "::"@ + local
    }
}

fn collect_qualifiers(t: &SyntaxTree, cur: Option<usize>) -> (r: Vec<String>)
    requires
        cur matches Some(n) ==> t.has(n),
    ensures
        text::texts(r@) == qualifiers(*t, cur),
    decreases (match cur {
        Some(n) => n + 1,
        None => 0,
    }),
{
    match cur {
        None => {
            let r: Vec<String> = Vec::new();
            assert(text::texts(r@) =~= Seq::<Seq<char>>::empty());
            r
        },
        Some(n) => {
            assert(t.at(n).parent == t.nodes@[n as int].parent);
            let mut r = collect_qualifiers(t, t.nodes[n].parent);
            let ghost before = text::texts(r@);
            let m = match t.nodes[n].kind {
                NodeKind::NamespaceDefinition => t.child_by_field(n, FieldName::Name),
                NodeKind::ClassSpecifier
                | NodeKind::StructSpecifier
                | NodeKind::UnrealReflectedClassDeclaration
                | NodeKind::UnrealReflectedStructDeclaration => class_like_name_node(t, n),
                _ => None,
            };
            match m {
                None => {},
                Some(m) => {
                    let name = text::trim(t.text_of(m));
                    if !name.is_empty() {
                        r.push(text::copy_of(name));
                        assert(text::texts(r@) =~= before.push(name@));
                    }
                },
            }
            assert(text::texts(r@) =~= before + qualifier_at(*t, n));
            r
        },
    }
}

fn qualify_template_decl_name(t: &SyntaxTree, n: usize, local: &str) -> (r: String)
    requires
        t.has(n),
    ensures
        r@ == qualified(*t, n, local@),
{
    assert(t.at(n).parent == t.nodes@[n as int].parent);
    let outer = collect_qualifiers(t, t.nodes[n].parent);
    assert(text::texts(outer@).len() == outer@.len());
    if outer.len() == 0 {
        text::copy_of(local)
    } else {
        let path = text::join(&outer, "::");
        text::concat3(&path, "::", local)
    }
}

/// The class that a template declares.
pub open spec fn class_in(t: SyntaxTree, n: usize) -> Option<usize> {
    match t.descendant(n, NodeKind::ClassSpecifier) {
        Some(m) => Some(m),
        None => t.descendant(n, NodeKind::StructSpecifier),
    }
}

fn find_template_class_node(t: &SyntaxTree, n: usize) -> (r: Option<usize>)
    requires
        t.has(n),
    ensures
        r == class_in(*t, n),
        r matches Some(m) ==> t.has(m),
{
    match t.find_descendant(n, NodeKind::ClassSpecifier) {
        Some(m) => Some(m),
        None => t.find_descendant(n, NodeKind::StructSpecifier),
    }
}

/// The function that a template declares.
pub open spec fn function_in(t: SyntaxTree, n: usize) -> Option<usize> {
    match t.descendant(n, NodeKind::FunctionDefinition) {
        Some(m) => Some(m),
        None => t.descendant(n, NodeKind::Declaration),
    }
}

fn find_template_function_node(t: &SyntaxTree, n: usize) -> (r: Option<usize>)
    requires
        t.has(n),
    ensures
        r == function_in(*t, n),
        r matches Some(m) ==> t.has(m),
{
    match t.find_descendant(n, NodeKind::FunctionDefinition) {
        Some(m) => Some(m),
        None => t.find_descendant(n, NodeKind::Declaration),
    }
}

pub open spec fn member_like(kind: NodeKind) -> bool {
    matches!(
        kind,
        NodeKind::Declaration | NodeKind::FieldDeclaration | NodeKind::FunctionDefinition
            | NodeKind::UnrealFunctionDefinition | NodeKind::UnrealReflectedFunction
    )
}

/// Whether a member is a constructor of the class of this name.
pub open spec fn is_constructor(t: SyntaxTree, n: usize, class_name: Seq<char>) -> bool {
    member_like(t.at(n).kind) && match function_declarator(t, n) {
        Some(d) => match name_node(t, d) {
            Some(m) => text::trimmed(t.text(m)) == class_name,
            None => false,
        },
        None => false,
    }
}

pub open spec fn constructors_from(
    t: SyntaxTree,
    n: usize,
    k: int,
    params: Seq<TemplateParamView>,
    class_name: Seq<char>,
) -> Seq<Seq<PatternShape>>
    decreases t.kids(n).len() - k,
{
    if k < 0 || k >= t.kids(n).len() {
        Seq::empty()
    } else if is_constructor(t, t.kids(n)[k], class_name) {
        seq![function_patterns(t, t.kids(n)[k], params)] + constructors_from(
            t,
            n,
            k + 1,
            params,
            class_name,
        )
    } else {
        constructors_from(t, n, k + 1, params, class_name)
    }
}

pub open spec fn class_body(t: SyntaxTree, n: usize) -> Option<usize> {
    match t.descendant(n, NodeKind::FieldDeclarationList) {
        Some(m) => Some(m),
        None => match t.descendant(n, NodeKind::UnrealClassBody) {
            Some(m) => Some(m),
            None => t.descendant(n, NodeKind::UnrealStructBody),
        },
    }
}

/// The parameter types of the constructors of a class.
pub open spec fn constructors_in(
    t: SyntaxTree,
    n: usize,
    params: Seq<TemplateParamView>,
    class_name: Seq<char>,
) -> Seq<Seq<PatternShape>> {
    match class_body(t, n) {
        Some(b) => constructors_from(t, b, 0, params, class_name),
        None => Seq::empty(),
    }
}

fn declares_constructor(t: &SyntaxTree, n: usize, class_name: &str) -> (r: bool)
    requires
        t.has(n),
    ensures
        r == is_constructor(*t, n, class_name@),
{
    if !matches!(
        t.nodes[n].kind,
        NodeKind::Declaration | NodeKind::FieldDeclaration | NodeKind::FunctionDefinition
            | NodeKind::UnrealFunctionDefinition | NodeKind::UnrealReflectedFunction
    ) {
        return false;
    }
    match function_declarator_of(t, n) {
        Some(d) => match find_name_node(t, d) {
            Some(m) => text::same(text::trim(t.text_of(m)), class_name),
            None => false,
        },
        None => false,
    }
}

fn parse_class_template_constructors(
    t: &SyntaxTree,
    n: usize,
    params: &Vec<TemplateParam>,
    class_name: &str,
) -> (r: Vec<Vec<TypePattern>>)
    requires
        t.has(n),
    ensures
        constructor_views(r@) == constructors_in(
            *t,
            n,
            template_param_views(params@),
            class_name@,
        ),
{
    let ghost views = template_param_views(params@);
    let mut r: Vec<Vec<TypePattern>> = Vec::new();
    assert(constructor_views(r@) =~= Seq::<Seq<PatternShape>>::empty());
    let body = match t.find_descendant(n, NodeKind::FieldDeclarationList) {
        Some(m) => Some(m),
        None => match t.find_descendant(n, NodeKind::UnrealClassBody) {
            Some(m) => Some(m),
            None => t.find_descendant(n, NodeKind::UnrealStructBody),
        },
    };
    match body {
        None => r,
        Some(b) => {
            let c: usize = t.nodes[b].children.len();
            let mut k: usize = 0;
            while k < c
                invariant
                    t.has(b),
                    views == template_param_views(params@),
                    c == t.kids(b).len(),
                    k <= c,
                    constructors_from(*t, b, 0, views, class_name@) =~= constructor_views(r@)
                        + constructors_from(*t, b, k as int, views, class_name@),
                decreases c - k,
            {
                let child: usize = t.nodes[b].children[k];
                assert(child == t.kids(b)[k as int]);
                let ghost before = constructor_views(r@);
                if declares_constructor(t, child, class_name) {
                    let list = parse_function_param_patterns(t, child, params);
                    r.push(list);
                    assert(constructor_views(r@) =~= before.push(pattern_views(list@)));
                }
                k = k + 1;
            }
            assert(constructor_views(r@) =~= constructors_from(*t, b, 0, views, class_name@));
            r
        },
    }
}

pub open spec fn is_enable_if(base: Seq<char>) -> bool {
    short_name(base) == "enable_if_t"@ || short_name(base) == "enable_if"@
}

pub fn is_enable_if_base(base: &str) -> (r: bool)
    ensures
        r == is_enable_if(base@),
{
    let short = short_name_of(base);
    text::same(short, "enable_if_t") || text::same(short, "enable_if")
}

/// The name of the template that a type is an instance of.
pub open spec fn instance_base(t: SyntaxTree, n: usize) -> Option<Seq<char>> {
    match t.by_field(n, FieldName::Name) {
        None => None,
        Some(m) => match t.text_opt(m) {
            None => None,
            Some(s) => {
                let base = text::trimmed(without_args(clean(s)));
                if base.len() == 0 {
                    None
                } else {
                    Some(base)
                }
            },
        },
    }
}

/// The first argument that is written from position `k` on.
pub open spec fn first_written_arg(t: SyntaxTree, n: usize, k: int) -> Option<Seq<char>>
    decreases t.kids(n).len() - k,
{
    if k < 0 || k >= t.kids(n).len() {
        None
    } else {
        let child = t.kids(n)[k];
        if t.at(child).named && text::trimmed(t.text(child)).len() > 0 {
            Some(clean(text::trimmed(t.text(child))))
        } else {
            first_written_arg(t, n, k + 1)
        }
    }
}

/// What an instance of `enable_if` demands.
pub open spec fn enable_if_state(t: SyntaxTree, n: usize) -> Option<ConstraintState> {
    match instance_base(t, n) {
        None => None,
        Some(base) => if !is_enable_if(base) {
            None
        } else {
            match t.by_field(n, FieldName::Arguments) {
                None => None,
                Some(l) => match first_written_arg(t, l, 0) {
                    None => None,
                    Some(condition) => Some(
                        if without_space(text::trimmed(condition)) == "false"@ {
                            ConstraintState::AlwaysReject
                        } else {
                            ConstraintState::Guarded
                        },
                    ),
                },
            }
        },
    }
}

pub open spec fn constraint_from(t: SyntaxTree, n: usize, k: int, state: ConstraintState) -> ConstraintState
    decreases t.kids(n).len() - k,
{
    if k < 0 || k >= t.kids(n).len() {
        state
    } else {
        let found = match t.descendant(t.kids(n)[k], NodeKind::TemplateType) {
            Some(m) => enable_if_state(t, m),
            None => None,
        };
        match found {
            None => constraint_from(t, n, k + 1, state),
            Some(ConstraintState::AlwaysReject) => ConstraintState::AlwaysReject,
            Some(_) => constraint_from(t, n, k + 1, ConstraintState::Guarded),
        }
    }
}

/// What a requires clause demands.
pub open spec fn clause_state(s: Seq<char>) -> ConstraintState {
    let flat = text::joined(text::words(s), " "@);
    let predicate = match text::stripped(flat, "requires "@) {
        Some(rest) => rest,
        None => flat,
    };
    if text::trimmed(predicate) == "false"@ {
        ConstraintState::AlwaysReject
    } else {
        ConstraintState::Guarded
    }
}

/// What a template demands of its arguments.
pub open spec fn constraint(t: SyntaxTree, n: usize) -> ConstraintState {
    match t.descendant(n, NodeKind::RequiresClause) {
        Some(m) => clause_state(t.text(m)),
        None => constraint_from(t, n, 0, ConstraintState::Unconstrained),
    }
}

fn enable_if_constraint_state(t: &SyntaxTree, n: usize) -> (r: Option<ConstraintState>)
    requires
        t.has(n),
    ensures
        r == enable_if_state(*t, n),
{
    let name = match t.child_by_field(n, FieldName::Name) {
        None => {
            return None;
        },
        Some(m) => m,
    };
    let base = match &t.nodes[name].text {
        None => {
            return None;
        },
        Some(s) => {
            let raw = clean_type_string(s);
            text::copy_of(text::trim(strip_template_suffix(&raw)))
        },
    };
    if base.as_str().is_empty() || !is_enable_if_base(&base) {
        return None;
    }
    let list = match t.child_by_field(n, FieldName::Arguments) {
        None => {
            return None;
        },
        Some(l) => l,
    };
    let c: usize = t.nodes[list].children.len();
    let mut k: usize = 0;
    while k < c
        invariant
            t.has(list),
            c == t.kids(list).len(),
            k <= c,
            enable_if_state(*t, n) == (match first_written_arg(*t, list, k as int) {
                None => None,
                Some(condition) => Some(
                    if without_space(text::trimmed(condition)) == "false"@ {
                        ConstraintState::AlwaysReject
                    } else {
                        ConstraintState::Guarded
                    },
                ),
            }),
        decreases c - k,
    {
        let child: usize = t.nodes[list].children[k];
        assert(child == t.kids(list)[k as int]);
        if t.nodes[child].named {
            let written = text::trim(t.text_of(child));
            if !written.is_empty() {
                let condition = clean_type_string(written);
                let value = remove_space(text::trim(&condition));
                return Some(
                    if text::same(&value, "false") {
                        ConstraintState::AlwaysReject
                    } else {
                        ConstraintState::Guarded
                    },
                );
            }
        }
        k = k + 1;
    }
    None
}

fn requires_clause_state(s: &str) -> (r: ConstraintState)
    ensures
        r == clause_state(s@),
{
    let list = text::split_words(s);
    let flat = text::join(&list, " ");
    let predicate = match text::strip_prefix(&flat, "requires ") {
        Some(rest) => rest,
        None => flat.as_str(),
    };
    if text::same(text::trim(predicate), "false") {
        ConstraintState::AlwaysReject
    } else {
        ConstraintState::Guarded
    }
}

fn template_constraint_state(t: &SyntaxTree, n: usize) -> (r: ConstraintState)
    requires
        t.has(n),
    ensures
        r == constraint(*t, n),
{
    match t.find_descendant(n, NodeKind::RequiresClause) {
        Some(m) => {
            return requires_clause_state(t.text_of(m));
        },
        None => {},
    }
    let mut state = ConstraintState::Unconstrained;
    let c: usize = t.nodes[n].children.len();
    let mut k: usize = 0;
    while k < c
        invariant
            t.has(n),
            c == t.kids(n).len(),
            k <= c,
            constraint(*t, n) == constraint_from(*t, n, k as int, state),
        decreases c - k,
    {
        let child: usize = t.nodes[n].children[k];
        assert(child == t.kids(n)[k as int]);
        match t.find_descendant(child, NodeKind::TemplateType) {
            Some(m) => {
                match enable_if_constraint_state(t, m) {
                    Some(ConstraintState::AlwaysReject) => {
                        return ConstraintState::AlwaysReject;
                    },
                    Some(_) => {
                        state = ConstraintState::Guarded;
                    },
                    None => {},
                }
            },
            None => {},
        }
        k = k + 1;
    }
    state
}

/// The argument that a node writes, if it writes one.
pub open spec fn written_arg(c: SemaView, t: SyntaxTree, n: usize) -> Option<ArgText> {
    let kind = t.at(n).kind;
    let name = text::trimmed(t.text(n));
    if type_arg_kind(kind) {
        if clean(t.text(n)).len() == 0 {
            None
        } else {
            Some(ArgText::Type(clean(t.text(n))))
        }
    } else if kind == NodeKind::Identifier || kind == NodeKind::FieldIdentifier {
        if name.len() == 0 {
            None
        } else if existing_type(c, name) is Some {
            Some(ArgText::Type(name))
        } else {
            Some(ArgText::Value(name))
        }
    } else if literal_arg_kind(kind) && name.len() > 0 {
        Some(ArgText::Value(name))
    } else {
        None
    }
}

/// The arguments that the children of a list write from position `k` on.
pub open spec fn written_args(c: SemaView, t: SyntaxTree, n: usize, k: int) -> Seq<ArgText>
    decreases t.kids(n).len() - k,
{
    if k < 0 || k >= t.kids(n).len() {
        Seq::empty()
    } else {
        match written_arg(c, t, t.kids(n)[k]) {
            Some(a) => seq![a] + written_args(c, t, n, k + 1),
            None => written_args(c, t, n, k + 1),
        }
    }
}

fn explicit_template_arg(t: &SyntaxTree, n: usize, ctx: &SemaContext) -> (r: Option<ExplicitTemplateArg>)
    requires
        t.has(n),
    ensures
        match r {
            Some(a) => written_arg(ctx@, *t, n) == Some(a@),
            None => written_arg(ctx@, *t, n) is None,
        },
{
    let kind = t.nodes[n].kind;
    if is_type_arg_kind(kind) {
        let s = clean_type_string(t.text_of(n));
        return if s.as_str().is_empty() {
            None
        } else {
            Some(ExplicitTemplateArg::Type(s))
        };
    }
    let name = text::trim(t.text_of(n));
    if kind == NodeKind::Identifier || kind == NodeKind::FieldIdentifier {
        if name.is_empty() {
            return None;
        }
        return match ctx.resolve_existing_type_text(name) {
            Some(_) => Some(ExplicitTemplateArg::Type(text::copy_of(name))),
            None => Some(ExplicitTemplateArg::Value(text::copy_of(name))),
        };
    }
    if is_literal_arg_kind(kind) && !name.is_empty() {
        return Some(ExplicitTemplateArg::Value(text::copy_of(name)));
    }
    None
}

pub fn explicit_template_args_from_arg_list(t: &SyntaxTree, n: usize, ctx: &SemaContext) -> (r: Vec<
    ExplicitTemplateArg,
>)
    requires
        t.has(n),
    ensures
        arg_text_views(r@) == written_args(ctx@, *t, n, 0),
{
    let mut args: Vec<ExplicitTemplateArg> = Vec::new();
    let c: usize = t.nodes[n].children.len();
    let mut k: usize = 0;
    assert(arg_text_views(args@) =~= Seq::<ArgText>::empty());
    while k < c
        invariant
            t.has(n),
            c == t.kids(n).len(),
            k <= c,
            written_args(ctx@, *t, n, 0) =~= arg_text_views(args@) + written_args(
                ctx@,
                *t,
                n,
                k as int,
            ),
        decreases c - k,
    {
        let child: usize = t.nodes[n].children[k];
        assert(child == t.kids(n)[k as int]);
        let ghost before = arg_text_views(args@);
        match explicit_template_arg(t, child, ctx) {
            Some(a) => {
                args.push(a);
                assert(arg_text_views(args@) =~= before.push(a@));
            },
            None => {},
        }
        k = k + 1;
    }
    assert(arg_text_views(args@) =~= written_args(ctx@, *t, n, 0));
    args
}

/// The list of the arguments that a template is specialised for.
pub open spec fn specialization_list(t: SyntaxTree, n: usize) -> Option<usize> {
    let in_class = match class_in(t, n) {
        None => None,
        Some(class) => {
            let in_name = match t.by_field(class, FieldName::Name) {
                Some(m) => t.descendant(m, NodeKind::TemplateArgumentList),
                None => None,
            };
            match in_name {
                Some(l) => Some(l),
                None => t.descendant(class, NodeKind::TemplateArgumentList),
            }
        },
    };
    match in_class {
        Some(l) => Some(l),
        None => match function_in(t, n) {
            None => None,
            Some(f) => match function_declarator(t, f) {
                None => None,
                Some(d) => t.descendant(d, NodeKind::TemplateArgumentList),
            },
        },
    }
}

fn explicit_specialization_arg_list(t: &SyntaxTree, n: usize) -> (r: Option<usize>)
    requires
        t.has(n),
    ensures
        r == specialization_list(*t, n),
        r matches Some(l) ==> t.has(l),
{
    match find_template_class_node(t, n) {
        Some(class) => {
            match t.child_by_field(class, FieldName::Name) {
                Some(m) => {
                    match t.find_descendant(m, NodeKind::TemplateArgumentList) {
                        Some(l) => {
                            return Some(l);
                        },
                        None => {},
                    }
                },
                None => {},
            }
            match t.find_descendant(class, NodeKind::TemplateArgumentList) {
                Some(l) => {
                    return Some(l);
                },
                None => {},
            }
        },
        None => {},
    }
    match find_template_function_node(t, n) {
        None => None,
        Some(f) => match function_declarator_of(t, f) {
            None => None,
            Some(d) => t.find_descendant(d, NodeKind::TemplateArgumentList),
        },
    }
}

pub open spec fn specialization_args(c: SemaView, t: SyntaxTree, n: usize) -> Seq<ArgText> {
    match specialization_list(t, n) {
        Some(l) => written_args(c, t, l, 0),
        None => Seq::empty(),
    }
}

/// The type that a template function returns.
pub open spec fn return_pattern(
    t: SyntaxTree,
    n: usize,
    declarator: usize,
    params: Seq<TemplateParamView>,
) -> PatternShape {
    match t.by_field(n, FieldName::Type) {
        Some(m) => wrapped(pattern_at(t, m, params), t, Some(declarator)),
        None => PatternShape::Concrete("void"@),
    }
}

pub open spec fn function_key(t: SyntaxTree, n: usize, name: Seq<char>) -> Seq<char> {
    let return_type = match t.by_field(n, FieldName::Type) {
        Some(m) => match t.text_opt(m) {
            Some(s) => clean(s),
            None => "void"@,
        },
        None => "void"@,
    };
    let declarator = match t.by_field(n, FieldName::Declarator) {
        Some(m) => without_space(t.text(m)),
        None => Seq::empty(),
    };
    return_type + ":"@ + name + ":"@ + declarator
}

pub open spec fn class_key(t: SyntaxTree, n: usize, name: Seq<char>) -> Seq<char> {
    "class:"@ + name + ":"@ + without_space(t.text(n))
}

/// The name, the kind and the key of what a template declares.
pub open spec fn declared_parts(t: SyntaxTree, n: usize, params: Seq<TemplateParamView>) -> Option<
    (Seq<char>, DeclKindView, Seq<char>),
> {
    match class_in(t, n) {
        Some(class) => match class_name_node(t, class) {
            None => None,
            Some(m) => match t.text_opt(m) {
                None => None,
                Some(s) => {
                    let name = qualified(t, n, text::trimmed(s));
                    if name.len() == 0 {
                        None
                    } else {
                        Some(
                            (
                                name,
                                DeclKindView::Class {
                                    constructors: constructors_in(
                                        t,
                                        class,
                                        params,
                                        short_name(name),
                                    ),
                                },
                                class_key(t, class, name),
                            ),
                        )
                    }
                },
            },
        },
        None => match function_in(t, n) {
            None => None,
            Some(f) => match function_declarator(t, f) {
                None => None,
                Some(d) => match name_node(t, d) {
                    None => None,
                    Some(m) => match t.text_opt(m) {
                        None => None,
                        Some(s) => {
                            let name = qualified(t, n, text::trimmed(s));
                            if name.len() == 0 {
                                None
                            } else {
                                Some(
                                    (
                                        name,
                                        DeclKindView::Function {
                                            function_params: function_patterns(t, f, params),
                                            return_pattern: return_pattern(t, f, d, params),
                                        },
                                        function_key(t, f, name),
                                    ),
                                )
                            }
                        },
                    },
                },
            },
        },
    }
}

/// What a template declaration says.
pub open spec fn declaration(c: SemaView, t: SyntaxTree, n: usize) -> Option<DeclView> {
    match (c.source, t.text_opt(n)) {
        (Some(_), Some(whole)) => {
            let params = params_in(t, t.by_field(n, FieldName::Parameters));
            match declared_parts(t, n, params) {
                None => None,
                Some((name, kind, key)) => Some(
                    DeclView {
                        name,
                        params,
                        kind,
                        source: SourceRef {
                            line: t.at(n).start_row as u32,
                            column: t.at(n).start_column as u32,
                        },
                        end_source: SourceRef {
                            line: t.at(n).end_row as u32,
                            column: t.at(n).end_column as u32,
                        },
                        is_sfinae_guarded: constraint(t, n) != ConstraintState::Unconstrained,
                        sfinae_always_rejects: constraint(t, n) == ConstraintState::AlwaysReject,
                        is_explicit_specialization: text::starts(
                            text::trimmed_start(whole),
                            "template<>"@,
                        ) || text::starts(text::trimmed_start(whole), "template <>"@),
                        specialization_args: specialization_args(c, t, n),
                        signature_key: key,
                    },
                ),
            }
        },
        _ => None,
    }
}

fn normalize_signature_key(t: &SyntaxTree, n: usize, name: &str) -> (r: String)
    requires
        t.has(n),
    ensures
        r@ == function_key(*t, n, name@),
{
    let return_type = match t.child_by_field(n, FieldName::Type) {
        Some(m) => match &t.nodes[m].text {
            Some(s) => clean_type_string(s),
            None => text::copy_of("void"),
        },
        None => text::copy_of("void"),
    };
    let declarator = match t.child_by_field(n, FieldName::Declarator) {
        Some(m) => remove_space(t.text_of(m)),
        None => String::new(),
    };
    let head = text::concat3(&return_type, ":", name);
    text::concat3(&head, ":", &declarator)
}

fn normalize_class_signature_key(t: &SyntaxTree, n: usize, name: &str) -> (r: String)
    requires
        t.has(n),
    ensures
        r@ == class_key(*t, n, name@),
{
    let body = remove_space(t.text_of(n));
    let head = text::concat2("class:", name);
    text::concat3(&head, ":", &body)
}

fn parse_declared_parts(t: &SyntaxTree, n: usize, params: &Vec<TemplateParam>) -> (r: Option<
    (String, TemplateDeclKind, String),
>)
    requires
        t.has(n),
    ensures
        match r {
            Some(p) => declared_parts(*t, n, template_param_views(params@)) == Some(
                (p.0@, p.1@, p.2@),
            ),
            None => declared_parts(*t, n, template_param_views(params@)) is None,
        },
{
    match find_template_class_node(t, n) {
        Some(class) => {
            let m = match class_like_name_node(t, class) {
                Some(m) => m,
                None => {
                    return None;
                },
            };
            let name = match &t.nodes[m].text {
                Some(s) => qualify_template_decl_name(t, n, text::trim(s)),
                None => {
                    return None;
                },
            };
            if name.as_str().is_empty() {
                return None;
            }
            let constructors = parse_class_template_constructors(
                t,
                class,
                params,
                short_name_of(&name),
            );
            let key = normalize_class_signature_key(t, class, &name);
            Some((name, TemplateDeclKind::Class { constructors }, key))
        },
        None => {
            let f = match find_template_function_node(t, n) {
                Some(f) => f,
                None => {
                    return None;
                },
            };
            let d = match function_declarator_of(t, f) {
                Some(d) => d,
                None => {
                    return None;
                },
            };
            let m = match find_name_node(t, d) {
                Some(m) => m,
                None => {
                    return None;
                },
            };
            let name = match &t.nodes[m].text {
                Some(s) => qualify_template_decl_name(t, n, text::trim(s)),
                None => {
                    return None;
                },
            };
            if name.as_str().is_empty() {
                return None;
            }
            let function_params = parse_function_param_patterns(t, f, params);
            let return_pattern = match t.child_by_field(f, FieldName::Type) {
                Some(type_node) => {
                    let p = type_pattern_from_node(t, type_node, params);
                    apply_pattern_declarator_wrappers(p, t, Some(d))
                },
                None => TypePattern::Concrete(text::copy_of("void")),
            };
            let key = normalize_signature_key(t, f, &name);
            Some((name, TemplateDeclKind::Function { function_params, return_pattern }, key))
        },
    }
}

pub fn parse_template_decl(t: &SyntaxTree, n: usize, ctx: &SemaContext) -> (r: Option<TemplateDecl>)
    requires
        t.has(n),
    ensures
        match r {
            Some(d) => declaration(ctx@, *t, n) == Some(d@),
            None => declaration(ctx@, *t, n) is None,
        },
{
    match &ctx.source {
        Some(_) => {},
        None => {
            return None;
        },
    }
    let whole = match &t.nodes[n].text {
        Some(s) => text::trim_start(s),
        None => {
            return None;
        },
    };
    let params = parse_template_params(t, t.child_by_field(n, FieldName::Parameters));
    match parse_declared_parts(t, n, &params) {
        None => None,
        Some((name, kind, signature_key)) => {
            let state = template_constraint_state(t, n);
            let specialization_args = match explicit_specialization_arg_list(t, n) {
                Some(l) => explicit_template_args_from_arg_list(t, l, ctx),
                None => Vec::new(),
            };
            let node = &t.nodes[n];
            let decl = TemplateDecl {
                name,
                params,
                kind,
                source: SourceRef { line: node.start_row as u32, column: node.start_column as u32 },
                end_source: SourceRef { line: node.end_row as u32, column: node.end_column as u32 },
                is_sfinae_guarded: state != ConstraintState::Unconstrained,
                sfinae_always_rejects: state == ConstraintState::AlwaysReject,
                is_explicit_specialization: text::starts_with(whole, "template<>")
                    || text::starts_with(whole, "template <>"),
                specialization_args,
                signature_key,
            };
            proof {
                if specialization_list(*t, n) is None {
                    assert(arg_text_views(specialization_args@) =~= Seq::<ArgText>::empty());
                }
            }
            Some(decl)
        },
    }
}

} // verus!
