//! Templates as they are declared: their parameters and the types that they speak of.
use vstd::prelude::*;

use super::names::{clean, clean_type_string};
use super::syntax::{
    find_name_node, lemma_by_field, lemma_named, lemma_next_declarator, name_node,
    next_declarator, next_declarator_node, FieldName, NodeKind, SyntaxTree,
};
use crate::text;

verus! {

#[derive(Debug)]
pub enum ExplicitTemplateArg {
    Type(String),
    Value(String),
}

/// A template argument as written.
pub enum ArgText {
    Type(Seq<char>),
    Value(Seq<char>),
}

impl View for ExplicitTemplateArg {
    type V = ArgText;

    open spec fn view(&self) -> ArgText {
        match *self {
            ExplicitTemplateArg::Type(s) => ArgText::Type(s@),
            ExplicitTemplateArg::Value(s) => ArgText::Value(s@),
        }
    }
}

impl Clone for ExplicitTemplateArg {
    fn clone(&self) -> (r: Self)
        ensures
            r@ == self@,
    {
        match self {
            ExplicitTemplateArg::Type(s) => ExplicitTemplateArg::Type(text::copy_of(s)),
            ExplicitTemplateArg::Value(s) => ExplicitTemplateArg::Value(text::copy_of(s)),
        }
    }
}

pub open spec fn opt_arg_text(a: Option<ExplicitTemplateArg>) -> Option<ArgText> {
    match a {
        Some(a) => Some(a@),
        None => None,
    }
}

pub open spec fn arg_text_views(v: Seq<ExplicitTemplateArg>) -> Seq<ArgText> {
    v.map_values(|a: ExplicitTemplateArg| a@)
}

#[derive(Debug)]
pub enum TemplateParam {
    TypeParam { name: String, default_arg: Option<ExplicitTemplateArg> },
    NonTypeParam { name: String, declared_type: String, default_arg: Option<ExplicitTemplateArg> },
}

/// A template parameter as a mathematical value.
pub enum TemplateParamView {
    TypeParam { name: Seq<char>, default_arg: Option<ArgText> },
    NonTypeParam { name: Seq<char>, declared_type: Seq<char>, default_arg: Option<ArgText> },
}

impl View for TemplateParam {
    type V = TemplateParamView;

    open spec fn view(&self) -> TemplateParamView {
        match *self {
            TemplateParam::TypeParam { name, default_arg } => TemplateParamView::TypeParam {
                name: name@,
                default_arg: opt_arg_text(default_arg),
            },
            TemplateParam::NonTypeParam { name, declared_type, default_arg } =>
                TemplateParamView::NonTypeParam {
                name: name@,
                declared_type: declared_type@,
                default_arg: opt_arg_text(default_arg),
            },
        }
    }
}

pub open spec fn template_param_views(v: Seq<TemplateParam>) -> Seq<TemplateParamView> {
    v.map_values(|p: TemplateParam| p@)
}

/// A type as a template declaration writes it.
#[derive(Debug)]
pub enum TypePattern {
    TemplateParam(String),
    NonTypeParam(String),
    Pointer(Box<TypePattern>),
    Reference(Box<TypePattern>),
    TemplateInstance { base: String, args: Vec<TypePattern> },
    Concrete(String),
    Value(String),
}

#[verifier::ext_equal]
pub enum PatternShape {
    TemplateParam(Seq<char>),
    NonTypeParam(Seq<char>),
    Pointer(Box<PatternShape>),
    Reference(Box<PatternShape>),
    TemplateInstance { base: Seq<char>, args: Seq<PatternShape> },
    Concrete(Seq<char>),
    Value(Seq<char>),
}

pub open spec fn pattern_shape(p: TypePattern) -> PatternShape
    decreases p,
{
    match p {
        TypePattern::TemplateParam(s) => PatternShape::TemplateParam(s@),
        TypePattern::NonTypeParam(s) => PatternShape::NonTypeParam(s@),
        TypePattern::Pointer(q) => PatternShape::Pointer(Box::new(pattern_shape(*q))),
        TypePattern::Reference(q) => PatternShape::Reference(Box::new(pattern_shape(*q))),
        TypePattern::TemplateInstance { base, args } => PatternShape::TemplateInstance {
            base: base@,
            args: Seq::new(
                args@.len(),
                |i: int|
                    if 0 <= i < args@.len() {
                        pattern_shape(args@[i])
                    } else {
                        PatternShape::Value(Seq::empty())
                    },
            ),
        },
        TypePattern::Concrete(s) => PatternShape::Concrete(s@),
        TypePattern::Value(s) => PatternShape::Value(s@),
    }
}

impl View for TypePattern {
    type V = PatternShape;

    open spec fn view(&self) -> PatternShape {
        pattern_shape(*self)
    }
}

pub open spec fn pattern_views(v: Seq<TypePattern>) -> Seq<PatternShape> {
    v.map_values(|p: TypePattern| pattern_shape(p))
}

pub proof fn lemma_instance_shape(p: TypePattern)
    ensures
        p matches TypePattern::TemplateInstance { base, args } ==> pattern_shape(p)
            == (PatternShape::TemplateInstance { base: base@, args: pattern_views(args@) }),
{
    match p {
        TypePattern::TemplateInstance { base, args } => {
            assert(pattern_shape(p)->TemplateInstance_args =~= pattern_views(args@));
        },
        _ => {},
    }
}

pub open spec fn param_view_name(p: TemplateParamView) -> Seq<char> {
    match p {
        TemplateParamView::TypeParam { name, .. } => name,
        TemplateParamView::NonTypeParam { name, .. } => name,
    }
}

/// Whether the last parameter of this name, among the first `upto`, is a type.
pub open spec fn kind_among(params: Seq<TemplateParamView>, name: Seq<char>, upto: int) -> Option<bool>
    decreases upto,
{
    if upto <= 0 || upto > params.len() {
        None
    } else if param_view_name(params[upto - 1]) == name {
        Some(params[upto - 1] is TypeParam)
    } else {
        kind_among(params, name, upto - 1)
    }
}

pub open spec fn param_kind(params: Seq<TemplateParamView>, name: Seq<char>) -> Option<bool> {
    kind_among(params, name, params.len() as int)
}

pub fn find_param_kind(params: &Vec<TemplateParam>, name: &str) -> (r: Option<bool>)
    ensures
        r == param_kind(template_param_views(params@), name@),
{
    let ghost views = template_param_views(params@);
    let mut i: usize = params.len();
    while i > 0
        invariant
            i <= params@.len(),
            views == template_param_views(params@),
            param_kind(views, name@) == kind_among(views, name@, i as int),
        decreases i,
    {
        assert(views[i - 1] == params@[i - 1]@);
        match &params[i - 1] {
            TemplateParam::TypeParam { name: own, .. } => {
                if text::same(own, name) {
                    return Some(true);
                }
            },
            TemplateParam::NonTypeParam { name: own, .. } => {
                if text::same(own, name) {
                    return Some(false);
                }
            },
        }
        i = i - 1;
    }
    None
}

/// The cleaned text of a node, empty where there is none.
pub open spec fn clean_at(t: SyntaxTree, n: Option<usize>) -> Seq<char> {
    match n {
        Some(m) => match t.text_opt(m) {
            Some(s) => clean(s),
            None => Seq::empty(),
        },
        None => Seq::empty(),
    }
}

pub fn clean_text_at(t: &SyntaxTree, n: Option<usize>) -> (r: String)
    requires
        n matches Some(m) ==> t.has(m),
    ensures
        r@ == clean_at(*t, n),
{
    match n {
        Some(m) => match &t.nodes[m].text {
            Some(s) => clean_type_string(s),
            None => String::new(),
        },
        None => String::new(),
    }
}

/// The name that a declarator declares, empty where there is none.
pub open spec fn declared_name(t: SyntaxTree, n: Option<usize>) -> Seq<char> {
    match n {
        Some(d) => match name_node(t, d) {
            Some(m) => text::trimmed(t.text(m)),
            None => Seq::empty(),
        },
        None => Seq::empty(),
    }
}

pub fn declared_name_at(t: &SyntaxTree, n: Option<usize>) -> (r: String)
    requires
        n matches Some(m) ==> t.has(m),
    ensures
        r@ == declared_name(*t, n),
{
    match n {
        Some(d) => match find_name_node(t, d) {
            Some(m) => text::copy_of(text::trim(t.text_of(m))),
            None => String::new(),
        },
        None => String::new(),
    }
}

/// The name of a type parameter.
pub open spec fn type_param_name(t: SyntaxTree, n: usize) -> Seq<char> {
    let m = match t.descendant(n, NodeKind::TypeIdentifier) {
        Some(m) => Some(m),
        None => t.descendant(n, NodeKind::Identifier),
    };
    match m {
        Some(m) => text::trimmed(t.text(m)),
        None => Seq::empty(),
    }
}

pub fn type_param_name_at(t: &SyntaxTree, n: usize) -> (r: String)
    requires
        t.has(n),
    ensures
        r@ == type_param_name(*t, n),
{
    let m = match t.find_descendant(n, NodeKind::TypeIdentifier) {
        Some(m) => Some(m),
        None => t.find_descendant(n, NodeKind::Identifier),
    };
    match m {
        Some(m) => text::copy_of(text::trim(t.text_of(m))),
        None => String::new(),
    }
}

/// What stands behind the equals sign.
pub open spec fn default_text(t: SyntaxTree, n: usize) -> Option<Seq<char>> {
    match t.text_opt(n) {
        Some(s) => text::behind_first(s, '='),
        None => None,
    }
}

pub open spec fn type_default(t: SyntaxTree, n: usize) -> Option<ArgText> {
    match default_text(t, n) {
        Some(s) => if clean(s).len() == 0 {
            None
        } else {
            Some(ArgText::Type(clean(s)))
        },
        None => None,
    }
}

pub open spec fn value_default(t: SyntaxTree, n: usize) -> Option<ArgText> {
    match default_text(t, n) {
        Some(s) => if text::trimmed(s).len() == 0 {
            None
        } else {
            Some(ArgText::Value(text::trimmed(s)))
        },
        None => None,
    }
}

fn default_text_at(t: &SyntaxTree, n: usize) -> (r: Option<&str>)
    requires
        t.has(n),
    ensures
        text::opt_str(r) == default_text(*t, n),
{
    match &t.nodes[n].text {
        Some(s) => text::behind_first_of(s.as_str(), '='),
        None => None,
    }
}

fn parse_type_param_default(t: &SyntaxTree, n: usize) -> (r: Option<ExplicitTemplateArg>)
    requires
        t.has(n),
    ensures
        opt_arg_text(r) == type_default(*t, n),
{
    match default_text_at(t, n) {
        Some(s) => {
            let clean = clean_type_string(s);
            if clean.as_str().is_empty() {
                None
            } else {
                Some(ExplicitTemplateArg::Type(clean))
            }
        },
        None => None,
    }
}

fn parse_non_type_param_default(t: &SyntaxTree, n: usize) -> (r: Option<ExplicitTemplateArg>)
    requires
        t.has(n),
    ensures
        opt_arg_text(r) == value_default(*t, n),
{
    match default_text_at(t, n) {
        Some(s) => {
            let value = text::trim(s);
            if value.is_empty() {
                None
            } else {
                Some(ExplicitTemplateArg::Value(text::copy_of(value)))
            }
        },
        None => None,
    }
}

/// The parameter that a node declares, if it declares one.
pub open spec fn param_at(t: SyntaxTree, n: usize) -> Option<TemplateParamView> {
    let kind = t.at(n).kind;
    if kind == NodeKind::TypeParameterDeclaration || kind
        == NodeKind::OptionalTypeParameterDeclaration {
        if type_param_name(t, n).len() == 0 {
            None
        } else {
            Some(
                TemplateParamView::TypeParam {
                    name: type_param_name(t, n),
                    default_arg: type_default(t, n),
                },
            )
        }
    } else if kind == NodeKind::ParameterDeclaration {
        let declared_type = clean_at(t, t.by_field(n, FieldName::Type));
        let name = declared_name(t, t.by_field(n, FieldName::Declarator));
        if name.len() == 0 || declared_type.len() == 0 {
            None
        } else {
            Some(
                TemplateParamView::NonTypeParam {
                    name,
                    declared_type,
                    default_arg: value_default(t, n),
                },
            )
        }
    } else {
        None
    }
}

pub open spec fn params_from(t: SyntaxTree, n: usize, k: int) -> Seq<TemplateParamView>
    decreases t.kids(n).len() - k,
{
    if k < 0 || k >= t.kids(n).len() {
        Seq::empty()
    } else {
        match param_at(t, t.kids(n)[k]) {
            Some(p) => seq![p] + params_from(t, n, k + 1),
            None => params_from(t, n, k + 1),
        }
    }
}

/// The parameters that a list declares.
pub open spec fn params_in(t: SyntaxTree, n: Option<usize>) -> Seq<TemplateParamView> {
    match n {
        Some(n) => params_from(t, n, 0),
        None => Seq::empty(),
    }
}

fn parse_template_param(t: &SyntaxTree, n: usize) -> (r: Option<TemplateParam>)
    requires
        t.has(n),
    ensures
        match r {
            Some(p) => param_at(*t, n) == Some(p@),
            None => param_at(*t, n) is None,
        },
{
    match t.nodes[n].kind {
        NodeKind::TypeParameterDeclaration | NodeKind::OptionalTypeParameterDeclaration => {
            let name = type_param_name_at(t, n);
            if name.as_str().is_empty() {
                None
            } else {
                Some(
                    TemplateParam::TypeParam { name, default_arg: parse_type_param_default(t, n) },
                )
            }
        },
        NodeKind::ParameterDeclaration => {
            let declared_type = clean_text_at(t, t.child_by_field(n, FieldName::Type));
            let name = declared_name_at(t, t.child_by_field(n, FieldName::Declarator));
            if name.as_str().is_empty() || declared_type.as_str().is_empty() {
                None
            } else {
                Some(
                    TemplateParam::NonTypeParam {
                        name,
                        declared_type,
                        default_arg: parse_non_type_param_default(t, n),
                    },
                )
            }
        },
        _ => None,
    }
}

pub fn parse_template_params(t: &SyntaxTree, node: Option<usize>) -> (r: Vec<TemplateParam>)
    requires
        node matches Some(n) ==> t.has(n),
    ensures
        template_param_views(r@) == params_in(*t, node),
{
    let mut params: Vec<TemplateParam> = Vec::new();
    assert(template_param_views(params@) =~= Seq::<TemplateParamView>::empty());
    match node {
        None => {},
        Some(n) => {
            let c: usize = t.nodes[n].children.len();
            let mut k: usize = 0;
            while k < c
                invariant
                    t.has(n),
                    c == t.kids(n).len(),
                    k <= c,
                    params_from(*t, n, 0) =~= template_param_views(params@) + params_from(
                        *t,
                        n,
                        k as int,
                    ),
                decreases c - k,
            {
                let child: usize = t.nodes[n].children[k];
                assert(child == t.kids(n)[k as int]);
                let ghost before = template_param_views(params@);
                match parse_template_param(t, child) {
                    Some(p) => {
                        params.push(p);
                        assert(template_param_views(params@) =~= before.push(p@));
                    },
                    None => {},
                }
                k = k + 1;
            }
            assert(template_param_views(params@) =~= params_from(*t, n, 0));
        },
    }
    params
}

pub open spec fn type_arg_kind(kind: NodeKind) -> bool {
    matches!(
        kind,
        NodeKind::TypeDescriptor | NodeKind::TypeIdentifier | NodeKind::PrimitiveType
            | NodeKind::QualifiedIdentifier | NodeKind::TemplateType
    )
}

pub fn is_type_arg_kind(kind: NodeKind) -> (r: bool)
    ensures
        r == type_arg_kind(kind),
{
    matches!(
        kind,
        NodeKind::TypeDescriptor | NodeKind::TypeIdentifier | NodeKind::PrimitiveType
            | NodeKind::QualifiedIdentifier | NodeKind::TemplateType
    )
}

pub open spec fn literal_arg_kind(kind: NodeKind) -> bool {
    matches!(
        kind,
        NodeKind::NumberLiteral | NodeKind::CharLiteral | NodeKind::TrueLiteral
            | NodeKind::FalseLiteral
    )
}

pub fn is_literal_arg_kind(kind: NodeKind) -> (r: bool)
    ensures
        r == literal_arg_kind(kind),
{
    matches!(
        kind,
        NodeKind::NumberLiteral | NodeKind::CharLiteral | NodeKind::TrueLiteral
            | NodeKind::FalseLiteral
    )
}

/// What a plain name stands for under these parameters.
pub open spec fn named_pattern(name: Seq<char>, params: Seq<TemplateParamView>) -> PatternShape {
    match param_kind(params, name) {
        Some(true) => PatternShape::TemplateParam(name),
        Some(false) => PatternShape::NonTypeParam(name),
        None => PatternShape::Concrete(name),
    }
}

/// The type that a node writes.
pub open spec fn pattern_at(t: SyntaxTree, n: usize, params: Seq<TemplateParamView>) -> PatternShape
    decreases t.nodes@.len() - n, t.kids(n).len() + 1,
    when t.has(n)
{
    let kind = t.at(n).kind;
    if kind == NodeKind::TypeDescriptor {
        proof {
            lemma_named(t, n, 0);
        }
        match t.named_at(n, 0) {
            Some(m) => pattern_at(t, m, params),
            None => PatternShape::Concrete(clean(t.text(n))),
        }
    } else if kind == NodeKind::QualifiedIdentifier || kind
        == NodeKind::QualifiedUnrealTypeIdentifier {
        proof {
            lemma_by_field(t, n, FieldName::Name);
        }
        match t.by_field(n, FieldName::Name) {
            Some(m) => {
                let p = pattern_at(t, m, params);
                match (p, t.by_field(n, FieldName::Scope)) {
                    (PatternShape::TemplateInstance { base, args }, Some(s)) => {
                        if clean(t.text(s)).len() == 0 {
                            p
                        } else {
                            PatternShape::TemplateInstance {
                                base: clean(t.text(s)) + "::"@ + base,
                                args,
                            }
                        }
                    },
                    _ => p,
                }
            },
            None => PatternShape::Concrete(clean(t.text(n))),
        }
    } else if kind == NodeKind::TemplateType {
        proof {
            lemma_by_field(t, n, FieldName::Arguments);
        }
        PatternShape::TemplateInstance {
            base: clean_at(t, t.by_field(n, FieldName::Name)),
            args: match t.by_field(n, FieldName::Arguments) {
                Some(l) => pattern_args(t, l, 0, params),
                None => Seq::empty(),
            },
        }
    } else {
        named_pattern(clean(t.text(n)), params)
    }
}

/// The arguments that the children of a list write from position `k` on.
pub open spec fn pattern_args(t: SyntaxTree, n: usize, k: int, params: Seq<TemplateParamView>) -> Seq<
    PatternShape,
>
    decreases t.nodes@.len() - n, t.kids(n).len() - k,
    when t.has(n) && 0 <= k <= t.kids(n).len()
{
    if k >= t.kids(n).len() {
        Seq::empty()
    } else {
        let child = t.kids(n)[k];
        let kind = t.at(child).kind;
        let name = text::trimmed(t.text(child));
        let rest = pattern_args(t, n, k + 1, params);
        if type_arg_kind(kind) {
            seq![pattern_at(t, child, params)] + rest
        } else if kind == NodeKind::Identifier || kind == NodeKind::FieldIdentifier {
            match param_kind(params, name) {
                Some(true) => seq![PatternShape::TemplateParam(name)] + rest,
                Some(false) => seq![PatternShape::NonTypeParam(name)] + rest,
                None => if name.len() == 0 {
                    rest
                } else {
                    seq![PatternShape::Value(name)] + rest
                },
            }
        } else if literal_arg_kind(kind) && name.len() > 0 {
            seq![PatternShape::Value(name)] + rest
        } else {
            rest
        }
    }
}

pub fn type_pattern_from_node(t: &SyntaxTree, n: usize, params: &Vec<TemplateParam>) -> (r: TypePattern)
    requires
        t.has(n),
    ensures
        r@ == pattern_at(*t, n, template_param_views(params@)),
    decreases t.nodes@.len() - n, 1nat,
{
    match t.nodes[n].kind {
        NodeKind::TypeDescriptor => match t.named_child(n, 0) {
            Some(m) => type_pattern_from_node(t, m, params),
            None => TypePattern::Concrete(clean_type_string(t.text_of(n))),
        },
        NodeKind::QualifiedIdentifier | NodeKind::QualifiedUnrealTypeIdentifier => {
            match t.child_by_field(n, FieldName::Name) {
                None => TypePattern::Concrete(clean_type_string(t.text_of(n))),
                Some(m) => {
                    let p = type_pattern_from_node(t, m, params);
                    match p {
                        TypePattern::TemplateInstance { base, args } => {
                            proof {
                                lemma_instance_shape(p);
                            }
                            let full = match t.child_by_field(n, FieldName::Scope) {
                                Some(s) => {
                                    let scope = clean_type_string(t.text_of(s));
                                    if scope.as_str().is_empty() {
                                        base
                                    } else {
                                        text::concat3(&scope, "::", &base)
                                    }
                                },
                                None => base,
                            };
                            let r = TypePattern::TemplateInstance { base: full, args };
                            proof {
                                lemma_instance_shape(r);
                            }
                            r
                        },
                        other => other,
                    }
                },
            }
        },
        NodeKind::TemplateType => {
            let base = clean_text_at(t, t.child_by_field(n, FieldName::Name));
            let args = match t.child_by_field(n, FieldName::Arguments) {
                Some(l) => type_pattern_args(t, l, params),
                None => Vec::new(),
            };
            let r = TypePattern::TemplateInstance { base, args };
            proof {
                lemma_instance_shape(r);
                if t.by_field(n, FieldName::Arguments) is None {
                    assert(pattern_views(args@) =~= Seq::<PatternShape>::empty());
                }
            }
            r
        },
        _ => {
            let name = clean_type_string(t.text_of(n));
            match find_param_kind(params, &name) {
                Some(true) => TypePattern::TemplateParam(name),
                Some(false) => TypePattern::NonTypeParam(name),
                None => TypePattern::Concrete(name),
            }
        },
    }
}

fn type_pattern_arg(t: &SyntaxTree, child: usize, params: &Vec<TemplateParam>) -> (r: Option<TypePattern>)
    requires
        t.has(child),
    ensures
        type_arg_kind(t.at(child).kind) ==> r is Some && r->0@ == pattern_at(
            *t,
            child,
            template_param_views(params@),
        ),
        !type_arg_kind(t.at(child).kind) ==> {
            let kind = t.at(child).kind;
            let name = text::trimmed(t.text(child));
            if kind == NodeKind::Identifier || kind == NodeKind::FieldIdentifier {
                match param_kind(template_param_views(params@), name) {
                    Some(true) => r is Some && r->0@ == PatternShape::TemplateParam(name),
                    Some(false) => r is Some && r->0@ == PatternShape::NonTypeParam(name),
                    None => if name.len() == 0 {
                        r is None
                    } else {
                        r is Some && r->0@ == PatternShape::Value(name)
                    },
                }
            } else if literal_arg_kind(kind) && name.len() > 0 {
                r is Some && r->0@ == PatternShape::Value(name)
            } else {
                r is None
            }
        },
    decreases t.nodes@.len() - child, 2nat,
{
    let kind = t.nodes[child].kind;
    if is_type_arg_kind(kind) {
        return Some(type_pattern_from_node(t, child, params));
    }
    let name = text::trim(t.text_of(child));
    if kind == NodeKind::Identifier || kind == NodeKind::FieldIdentifier {
        return match find_param_kind(params, name) {
            Some(true) => Some(TypePattern::TemplateParam(text::copy_of(name))),
            Some(false) => Some(TypePattern::NonTypeParam(text::copy_of(name))),
            None => {
                if name.is_empty() {
                    None
                } else {
                    Some(TypePattern::Value(text::copy_of(name)))
                }
            },
        };
    }
    if is_literal_arg_kind(kind) && !name.is_empty() {
        return Some(TypePattern::Value(text::copy_of(name)));
    }
    None
}

fn type_pattern_args(t: &SyntaxTree, n: usize, params: &Vec<TemplateParam>) -> (r: Vec<TypePattern>)
    requires
        t.has(n),
    ensures
        pattern_views(r@) == pattern_args(*t, n, 0, template_param_views(params@)),
    decreases t.nodes@.len() - n, 0nat,
{
    let ghost views = template_param_views(params@);
    let mut args: Vec<TypePattern> = Vec::new();
    let c: usize = t.nodes[n].children.len();
    let mut k: usize = 0;
    assert(pattern_views(args@) =~= Seq::<PatternShape>::empty());
    while k < c
        invariant
            t.has(n),
            views == template_param_views(params@),
            c == t.kids(n).len(),
            k <= c,
            pattern_args(*t, n, 0, views) =~= pattern_views(args@) + pattern_args(
                *t,
                n,
                k as int,
                views,
            ),
        decreases c - k,
    {
        let child: usize = t.nodes[n].children[k];
        assert(child == t.kids(n)[k as int]);
        let ghost before = pattern_views(args@);
        match type_pattern_arg(t, child, params) {
            Some(p) => {
                args.push(p);
                assert(pattern_views(args@) =~= before.push(p@));
            },
            None => {},
        }
        k = k + 1;
    }
    assert(pattern_views(args@) =~= pattern_args(*t, n, 0, views));
    args
}

pub open spec fn place(t: SyntaxTree, cur: Option<usize>) -> int {
    match cur {
        Some(n) => t.nodes@.len() - n,
        None => 0,
    }
}

/// A type with the pointers and references that a declarator puts around it.
pub open spec fn wrapped(p: PatternShape, t: SyntaxTree, cur: Option<usize>) -> PatternShape
    decreases place(t, cur),
    when cur matches Some(n) ==> t.has(n)
{
    match cur {
        None => p,
        Some(n) => {
            proof {
                lemma_next_declarator(t, n);
            }
            let kind = t.at(n).kind;
            wrapped(
                if kind == NodeKind::PointerDeclarator {
                    PatternShape::Pointer(Box::new(p))
                } else if kind == NodeKind::ReferenceDeclarator {
                    PatternShape::Reference(Box::new(p))
                } else {
                    p
                },
                t,
                next_declarator(t, n),
            )
        },
    }
}

pub fn apply_pattern_declarator_wrappers(
    start: TypePattern,
    t: &SyntaxTree,
    declarator: Option<usize>,
) -> (r: TypePattern)
    requires
        declarator matches Some(n) ==> t.has(n),
    ensures
        r@ == wrapped(start@, *t, declarator),
{
    let mut pattern = start;
    let mut cursor: Option<usize> = declarator;
    loop
        invariant
            cursor matches Some(n) ==> t.has(n),
            wrapped(start@, *t, declarator) == wrapped(pattern@, *t, cursor),
        decreases place(*t, cursor),
    {
        match cursor {
            None => {
                return pattern;
            },
            Some(n) => {
                let kind = t.nodes[n].kind;
                if kind == NodeKind::PointerDeclarator {
                    pattern = TypePattern::Pointer(Box::new(pattern));
                } else if kind == NodeKind::ReferenceDeclarator {
                    pattern = TypePattern::Reference(Box::new(pattern));
                }
                cursor = next_declarator_node(t, n);
            },
        }
    }
}

/// The type of a function parameter.
pub open spec fn param_pattern(t: SyntaxTree, n: usize, params: Seq<TemplateParamView>) -> Option<
    PatternShape,
> {
    match t.by_field(n, FieldName::Type) {
        Some(m) => Some(
            wrapped(pattern_at(t, m, params), t, t.by_field(n, FieldName::Declarator)),
        ),
        None => None,
    }
}

pub open spec fn param_patterns(t: SyntaxTree, n: usize, k: int, params: Seq<TemplateParamView>) -> Seq<
    PatternShape,
>
    decreases t.kids(n).len() - k,
{
    if k < 0 || k >= t.kids(n).len() {
        Seq::empty()
    } else if t.at(t.kids(n)[k]).kind != NodeKind::ParameterDeclaration {
        param_patterns(t, n, k + 1, params)
    } else {
        match param_pattern(t, t.kids(n)[k], params) {
            Some(p) => seq![p] + param_patterns(t, n, k + 1, params),
            None => param_patterns(t, n, k + 1, params),
        }
    }
}

/// The declarator of a function.
pub open spec fn function_declarator(t: SyntaxTree, n: usize) -> Option<usize> {
    match t.by_field(n, FieldName::Declarator) {
        Some(d) => Some(d),
        None => t.descendant(n, NodeKind::FunctionDeclarator),
    }
}

pub fn function_declarator_of(t: &SyntaxTree, n: usize) -> (r: Option<usize>)
    requires
        t.has(n),
    ensures
        r == function_declarator(*t, n),
        r matches Some(d) ==> t.has(d) && d >= n,
{
    match t.child_by_field(n, FieldName::Declarator) {
        Some(d) => Some(d),
        None => t.find_descendant(n, NodeKind::FunctionDeclarator),
    }
}

/// The types of the parameters of a function.
pub open spec fn function_patterns(t: SyntaxTree, n: usize, params: Seq<TemplateParamView>) -> Seq<
    PatternShape,
> {
    match function_declarator(t, n) {
        None => Seq::empty(),
        Some(d) => match t.descendant(d, NodeKind::ParameterList) {
            None => Seq::empty(),
            Some(l) => param_patterns(t, l, 0, params),
        },
    }
}

fn parameter_pattern(t: &SyntaxTree, n: usize, params: &Vec<TemplateParam>) -> (r: Option<TypePattern>)
    requires
        t.has(n),
    ensures
        match r {
            Some(p) => param_pattern(*t, n, template_param_views(params@)) == Some(p@),
            None => param_pattern(*t, n, template_param_views(params@)) is None,
        },
{
    match t.child_by_field(n, FieldName::Type) {
        Some(m) => {
            let p = type_pattern_from_node(t, m, params);
            Some(
                apply_pattern_declarator_wrappers(
                    p,
                    t,
                    t.child_by_field(n, FieldName::Declarator),
                ),
            )
        },
        None => None,
    }
}

pub fn parse_function_param_patterns(t: &SyntaxTree, n: usize, params: &Vec<TemplateParam>) -> (r: Vec<
    TypePattern,
>)
    requires
        t.has(n),
    ensures
        pattern_views(r@) == function_patterns(*t, n, template_param_views(params@)),
{
    let ghost views = template_param_views(params@);
    let mut patterns: Vec<TypePattern> = Vec::new();
    assert(pattern_views(patterns@) =~= Seq::<PatternShape>::empty());
    match function_declarator_of(t, n) {
        None => {
            return patterns;
        },
        Some(d) => {
            match t.find_descendant(d, NodeKind::ParameterList) {
                None => {
                    return patterns;
                },
                Some(l) => {
                    let c: usize = t.nodes[l].children.len();
                    let mut k: usize = 0;
                    while k < c
                        invariant
                            t.has(l),
                            views == template_param_views(params@),
                            c == t.kids(l).len(),
                            k <= c,
                            param_patterns(*t, l, 0, views) =~= pattern_views(patterns@)
                                + param_patterns(*t, l, k as int, views),
                        decreases c - k,
                    {
                        let child: usize = t.nodes[l].children[k];
                        assert(child == t.kids(l)[k as int]);
                        let ghost before = pattern_views(patterns@);
                        if t.nodes[child].kind == NodeKind::ParameterDeclaration {
                            match parameter_pattern(t, child, params) {
                                Some(p) => {
                                    patterns.push(p);
                                    assert(pattern_views(patterns@) =~= before.push(p@));
                                },
                                None => {},
                            }
                        }
                        k = k + 1;
                    }
                    assert(pattern_views(patterns@) =~= param_patterns(*t, l, 0, views));
                    patterns
                },
            }
        },
    }
}

} // verus!
