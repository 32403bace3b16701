//! Which templates a source declares, and what a use of one means.
use vstd::prelude::*;

use super::declare::{
    declaration, explicit_template_args_from_arg_list, is_enable_if, is_enable_if_base,
    parse_template_decl, remove_space, short_name, short_name_of, strip_template_suffix,
    without_args, without_space, written_args, DeclKindView, DeclView, TemplateDecl,
    TemplateDeclKind,
};
use super::expr::{template_arg_types, template_argument_types};
use super::names::{clean, clean_type_string};
use super::pattern::{
    arg_text_views, lemma_instance_shape, pattern_views, template_param_views,
    ArgText, ExplicitTemplateArg, PatternShape, TemplateParam, TemplateParamView, TypePattern,
};
use super::resolve::existing_type;
use super::symbol::SourceRef;
use super::syntax::{FieldName, NodeKind, SyntaxTree};
use super::types::{
    arg_shapes, no_cv, ArgShape, CvQual, RefKind, TemplateArg, TypeId, TypeKind, TypeShape,
};
use super::{equivalent, or_unknown, render, SemaContext, SemaView};
use crate::text;
use crate::textmap::{key_position, lemma_key_position};

verus! {

#[derive(Clone, Copy, PartialEq, Eq, Structural, Debug)]
pub enum TemplateCallFailure {
    DeductionFail,
    ExplicitArityMismatch,
    NonTypeArgMismatch,
    SfinaeRejected,
}

#[derive(Clone, Copy, PartialEq, Eq, Structural, Debug)]
pub struct TemplateCallAnalysis {
    pub failure: TemplateCallFailure,
}

#[derive(Clone, Copy, PartialEq, Eq, Structural, Debug)]
pub struct SourceRange {
    pub start: SourceRef,
    pub end: SourceRef,
}

/// What a template parameter stands for.
pub enum TemplateBinding {
    Text(String),
    Type(TypeId),
    Value(String),
}

pub enum BindingShape {
    Text(Seq<char>),
    Type(TypeId),
    Value(Seq<char>),
}

impl View for TemplateBinding {
    type V = BindingShape;

    open spec fn view(&self) -> BindingShape {
        match *self {
            TemplateBinding::Text(s) => BindingShape::Text(s@),
            TemplateBinding::Type(t) => BindingShape::Type(t),
            TemplateBinding::Value(s) => BindingShape::Value(s@),
        }
    }
}

/// The parameters that stand for something, each once.
pub type TemplateBindings = Vec<(String, TemplateBinding)>;

pub open spec fn stands(b: Seq<(String, TemplateBinding)>) -> Seq<(Seq<char>, BindingShape)> {
    b.map_values(|e: (String, TemplateBinding)| (e.0@, e.1@))
}

pub open spec fn stands_for(b: Seq<(Seq<char>, BindingShape)>, name: Seq<char>) -> Option<BindingShape> {
    let i = key_position(b, name, 0);
    if i < b.len() {
        Some(b[i].1)
    } else {
        None
    }
}

pub open spec fn with_binding(b: Seq<(Seq<char>, BindingShape)>, name: Seq<char>, s: BindingShape) -> Seq<
    (Seq<char>, BindingShape),
> {
    let i = key_position(b, name, 0);
    if i < b.len() {
        b.update(i, (name, s))
    } else {
        b.push((name, s))
    }
}

fn position_of(b: &TemplateBindings, name: &str) -> (r: usize)
    ensures
        r == key_position(stands(b@), name@, 0),
        r <= b@.len(),
{
    let n: usize = b.len();
    let mut i: usize = 0;
    while i < n
        invariant
            n == b@.len(),
            i <= n,
            key_position(stands(b@), name@, 0) == key_position(stands(b@), name@, i as int),
        decreases n - i,
    {
        assert(stands(b@)[i as int] == (b@[i as int].0@, b@[i as int].1@));
        if text::same(&b[i].0, name) {
            return i;
        }
        i = i + 1;
    }
    n
}

pub open spec fn opt_stand(b: Option<&TemplateBinding>) -> Option<BindingShape> {
    match b {
        Some(b) => Some(b@),
        None => None,
    }
}

fn get_binding<'a>(b: &'a TemplateBindings, name: &str) -> (r: Option<&'a TemplateBinding>)
    ensures
        opt_stand(r) == stands_for(stands(b@), name@),
{
    let i = position_of(b, name);
    if i < b.len() {
        Some(&b[i].1)
    } else {
        None
    }
}

fn put_binding(b: &mut TemplateBindings, name: &str, s: TemplateBinding)
    ensures
        stands(final(b)@) == with_binding(stands(old(b)@), name@, s@),
{
    let i = position_of(b, name);
    let n: usize = b.len();
    let ghost before = stands(b@);
    if i < n {
        b.set(i, (text::copy_of(name), s));
        assert(stands(b@) =~= before.update(i as int, (name@, s@)));
    } else {
        b.push((text::copy_of(name), s));
        assert(stands(b@) =~= before.push((name@, s@)));
    }
}

fn copy_bindings(b: &TemplateBindings) -> (r: TemplateBindings)
    ensures
        stands(r@) == stands(b@),
{
    let mut r: TemplateBindings = Vec::new();
    let n: usize = b.len();
    let mut i: usize = 0;
    while i < n
        invariant
            n == b@.len(),
            i <= n,
            r@.len() == i,
            forall|j: int| 0 <= j < i ==> (#[trigger] r@[j]).0@ == b@[j].0@ && r@[j].1@ == b@[j].1@,
        decreases n - i,
    {
        let item = match &b[i].1 {
            TemplateBinding::Text(s) => TemplateBinding::Text(text::copy_of(s)),
            TemplateBinding::Type(t) => TemplateBinding::Type(*t),
            TemplateBinding::Value(s) => TemplateBinding::Value(text::copy_of(s)),
        };
        r.push((text::copy_of(&b[i].0), item));
        i = i + 1;
    }
    assert(stands(r@) =~= stands(b@));
    r
}

/// Whether a type is the one that a text stands for.
pub open spec fn is_written(c: SemaView, s: Seq<char>, id: TypeId) -> bool {
    match existing_type(c, s) {
        Some(e) => equivalent(c, e, id),
        None => or_unknown(render(c, id)) == s,
    }
}

fn is_type_written(ctx: &SemaContext, s: &str, id: TypeId) -> (r: bool)
    ensures
        r == is_written(ctx@, s@, id),
{
    match ctx.resolve_existing_type_text(s) {
        Some(e) => ctx.types_equivalent(e, id),
        None => match ctx.render_type(id) {
            Some(t) => text::same(&t, s),
            None => text::same("unknown", s),
        },
    }
}

/// The bindings after a parameter met a type; nothing where it already stands for another.
pub open spec fn bound_type(
    c: SemaView,
    name: Seq<char>,
    id: TypeId,
    b: Seq<(Seq<char>, BindingShape)>,
) -> Option<Seq<(Seq<char>, BindingShape)>> {
    match stands_for(b, name) {
        Some(BindingShape::Type(e)) => if equivalent(c, e, id) {
            Some(b)
        } else {
            None
        },
        Some(BindingShape::Text(s)) => if is_written(c, s, id) {
            Some(b)
        } else {
            None
        },
        Some(BindingShape::Value(_)) => None,
        None => Some(with_binding(b, name, BindingShape::Type(id))),
    }
}

pub open spec fn bound_value(
    name: Seq<char>,
    value: Seq<char>,
    b: Seq<(Seq<char>, BindingShape)>,
) -> Option<Seq<(Seq<char>, BindingShape)>> {
    match stands_for(b, name) {
        Some(BindingShape::Value(e)) => if e == value {
            Some(b)
        } else {
            None
        },
        Some(_) => None,
        None => Some(with_binding(b, name, BindingShape::Value(value))),
    }
}

/// The bindings under which a type is what a pattern writes.
pub open spec fn matched(
    c: SemaView,
    p: PatternShape,
    id: TypeId,
    b: Seq<(Seq<char>, BindingShape)>,
) -> Option<Seq<(Seq<char>, BindingShape)>>
    decreases p, 0nat,
{
    match p {
        PatternShape::TemplateParam(name) => bound_type(c, name, id, b),
        PatternShape::NonTypeParam(_) => None,
        PatternShape::Value(_) => None,
        PatternShape::Reference(inner) => matched(c, *inner, id, b),
        PatternShape::Pointer(inner) => match c.kind(id) {
            Some(TypeShape::Pointer { pointee, .. }) => matched(c, *inner, pointee, b),
            _ => None,
        },
        PatternShape::TemplateInstance { base, args } => match c.kind(id) {
            Some(TypeShape::Template { base: actual, args: list }) => if actual == base && list.len()
                == args.len() {
                matched_args(c, args, list, 0, b)
            } else {
                None
            },
            _ => None,
        },
        PatternShape::Concrete(s) => if is_written(c, s, id) {
            Some(b)
        } else {
            None
        },
    }
}

pub open spec fn matched_args(
    c: SemaView,
    args: Seq<PatternShape>,
    list: Seq<ArgShape>,
    k: int,
    b: Seq<(Seq<char>, BindingShape)>,
) -> Option<Seq<(Seq<char>, BindingShape)>>
    decreases args, args.len() - k,
{
    if k < 0 || k >= args.len() || k >= list.len() {
        Some(b)
    } else {
        let here = match (args[k], list[k]) {
            (_, ArgShape::Type(t)) => matched(c, args[k], t, b),
            (PatternShape::NonTypeParam(name), ArgShape::Value(v)) => bound_value(name, v, b),
            (PatternShape::Value(x), ArgShape::Value(y)) => if x == y {
                Some(b)
            } else {
                None
            },
            _ => None,
        };
        match here {
            Some(next) => matched_args(c, args, list, k + 1, next),
            None => None,
        }
    }
}

/// The bindings under which the types from position `k` on are what the patterns write.
pub open spec fn all_matched(
    c: SemaView,
    patterns: Seq<PatternShape>,
    ids: Seq<TypeId>,
    k: int,
    b: Seq<(Seq<char>, BindingShape)>,
) -> Option<Seq<(Seq<char>, BindingShape)>>
    decreases patterns.len() - k,
{
    if k < 0 || k >= patterns.len() || k >= ids.len() {
        Some(b)
    } else {
        match matched(c, patterns[k], ids[k], b) {
            Some(next) => all_matched(c, patterns, ids, k + 1, next),
            None => None,
        }
    }
}

pub open spec fn opt_stands(b: Option<TemplateBindings>) -> Option<Seq<(Seq<char>, BindingShape)>> {
    match b {
        Some(b) => Some(stands(b@)),
        None => None,
    }
}

fn bind_template_type(name: &str, id: TypeId, ctx: &SemaContext, b: TemplateBindings) -> (r: Option<
    TemplateBindings,
>)
    ensures
        opt_stands(r) == bound_type(ctx@, name@, id, stands(b@)),
{
    match get_binding(&b, name) {
        Some(TemplateBinding::Type(e)) => {
            if ctx.types_equivalent(*e, id) {
                Some(b)
            } else {
                None
            }
        },
        Some(TemplateBinding::Text(s)) => {
            if is_type_written(ctx, s, id) {
                Some(b)
            } else {
                None
            }
        },
        Some(TemplateBinding::Value(_)) => None,
        None => {
            let mut next = b;
            put_binding(&mut next, name, TemplateBinding::Type(id));
            Some(next)
        },
    }
}

fn bind_template_value(name: &str, value: &str, b: TemplateBindings) -> (r: Option<TemplateBindings>)
    ensures
        opt_stands(r) == bound_value(name@, value@, stands(b@)),
{
    match get_binding(&b, name) {
        Some(TemplateBinding::Value(e)) => {
            if text::same(e, value) {
                Some(b)
            } else {
                None
            }
        },
        Some(_) => None,
        None => {
            let mut next = b;
            put_binding(&mut next, name, TemplateBinding::Value(text::copy_of(value)));
            Some(next)
        },
    }
}

fn match_type_pattern(pattern: &TypePattern, id: TypeId, ctx: &SemaContext, b: TemplateBindings) -> (r:
    Option<TemplateBindings>)
    ensures
        opt_stands(r) == matched(ctx@, pattern@, id, stands(b@)),
    decreases *pattern, 0nat,
{
    match pattern {
        TypePattern::TemplateParam(name) => bind_template_type(name, id, ctx, b),
        TypePattern::NonTypeParam(_) => None,
        TypePattern::Value(_) => None,
        TypePattern::Reference(inner) => match_type_pattern(inner, id, ctx, b),
        TypePattern::Pointer(inner) => match ctx.types.get(id) {
            Some(TypeKind::Pointer { pointee, .. }) => match_type_pattern(inner, *pointee, ctx, b),
            _ => None,
        },
        TypePattern::TemplateInstance { base, args } => {
            proof {
                lemma_instance_shape(*pattern);
            }
            match ctx.types.get(id) {
                Some(TypeKind::Template { base: actual, args: list }) => {
                    assert(arg_shapes(list@).len() == list@.len());
                    assert(pattern_views(args@).len() == args@.len());
                    if text::same(actual, base) && list.len() == args.len() {
                        match_pattern_args(args, list, ctx, b)
                    } else {
                        None
                    }
                },
                _ => None,
            }
        },
        TypePattern::Concrete(s) => {
            if is_type_written(ctx, s, id) {
                Some(b)
            } else {
                None
            }
        },
    }
}

fn match_pattern_args(
    args: &Vec<TypePattern>,
    list: &Vec<TemplateArg>,
    ctx: &SemaContext,
    start: TemplateBindings,
) -> (r: Option<TemplateBindings>)
    ensures
        opt_stands(r) == matched_args(
            ctx@,
            pattern_views(args@),
            arg_shapes(list@),
            0,
            stands(start@),
        ),
    decreases *args, 1nat,
{
    let ghost p = pattern_views(args@);
    let ghost l = arg_shapes(list@);
    let ghost whole = matched_args(ctx@, p, l, 0, stands(start@));
    let mut b = start;
    let mut i: usize = 0;
    while i < args.len() && i < list.len()
        invariant
            p == pattern_views(args@),
            l == arg_shapes(list@),
            i <= args@.len(),
            i <= list@.len(),
            whole == matched_args(ctx@, p, l, 0, stands(start@)),
            whole == matched_args(ctx@, p, l, i as int, stands(b@)),
        decreases args@.len() - i,
    {
        assert(p[i as int] == args@[i as int]@);
        assert(l[i as int] == list@[i as int]@);
        proof {
            assert(decreases_to!(*args => args@));
            assert(decreases_to!(args@ => args@[i as int]));
        }
        let here: Option<TemplateBindings> = match &list[i] {
            TemplateArg::Type(t) => match_type_pattern(&args[i], *t, ctx, b),
            TemplateArg::Value(v) => match &args[i] {
                TypePattern::NonTypeParam(name) => bind_template_value(name, v, b),
                TypePattern::Value(x) => {
                    if text::same(x, v) {
                        Some(b)
                    } else {
                        None
                    }
                },
                _ => None,
            },
        };
        match here {
            Some(next) => {
                b = next;
            },
            None => {
                return None;
            },
        }
        i = i + 1;
    }
    Some(b)
}

fn match_all(patterns: &Vec<TypePattern>, ids: &Vec<TypeId>, ctx: &SemaContext, start: TemplateBindings) -> (r:
    Option<TemplateBindings>)
    ensures
        opt_stands(r) == all_matched(ctx@, pattern_views(patterns@), ids@, 0, stands(start@)),
{
    let ghost p = pattern_views(patterns@);
    let ghost whole = all_matched(ctx@, p, ids@, 0, stands(start@));
    let mut b = start;
    let mut i: usize = 0;
    while i < patterns.len() && i < ids.len()
        invariant
            p == pattern_views(patterns@),
            i <= patterns@.len(),
            i <= ids@.len(),
            whole == all_matched(ctx@, p, ids@, 0, stands(start@)),
            whole == all_matched(ctx@, p, ids@, i as int, stands(b@)),
        decreases patterns@.len() - i,
    {
        assert(p[i as int] == patterns@[i as int]@);
        match match_type_pattern(&patterns[i], ids[i], ctx, b) {
            Some(next) => {
                b = next;
            },
            None => {
                return None;
            },
        }
        i = i + 1;
    }
    Some(b)
}

/// Whether a value can stand for a parameter of this type.
pub open spec fn value_fits(value: Seq<char>, declared_type: Seq<char>) -> bool {
    if declared_type == "bool"@ {
        value == "true"@ || value == "false"@ || value == "TRUE"@ || value == "FALSE"@
    } else if declared_type == "char"@ {
        text::starts(value, "'"@) && text::ends(value, "'"@)
    } else {
        forall|i: int|
            0 <= i < value.len() ==> text::ascii_digit(#[trigger] value[i]) || value[i] == '-'
                || value[i] == '+'
    }
}

fn matches_non_type_value(value: &str, declared_type: &str) -> (r: bool)
    ensures
        r == value_fits(value@, declared_type@),
{
    if text::same(declared_type, "bool") {
        return text::same(value, "true") || text::same(value, "false") || text::same(value, "TRUE")
            || text::same(value, "FALSE");
    }
    if text::same(declared_type, "char") {
        return text::starts_with(value, "'") && text::ends_with(value, "'");
    }
    let v = text::chars_of(value);
    let n: usize = v.len();
    let mut i: usize = 0;
    while i < n
        invariant
            v@ == value@,
            declared_type@ != "bool"@,
            declared_type@ != "char"@,
            n == v@.len(),
            i <= n,
            forall|j: int|
                0 <= j < i ==> text::ascii_digit(#[trigger] value@[j]) || value@[j] == '-'
                    || value@[j] == '+',
        decreases n - i,
    {
        if !(text::is_ascii_digit(v[i]) || v[i] == '-' || v[i] == '+') {
            assert(!(text::ascii_digit(value@[i as int]) || value@[i as int] == '-'
                || value@[i as int] == '+'));
            return false;
        }
        i = i + 1;
    }
    true
}

pub type Bound = Result<Seq<(Seq<char>, BindingShape)>, TemplateCallFailure>;

/// The bindings after a parameter was given an argument.
pub open spec fn with_arg(
    c: SemaView,
    p: TemplateParamView,
    a: ArgText,
    b: Seq<(Seq<char>, BindingShape)>,
) -> Bound {
    match (p, a) {
        (TemplateParamView::TypeParam { name, .. }, ArgText::Type(s)) => Ok(
            with_binding(
                b,
                name,
                match existing_type(c, s) {
                    Some(t) => BindingShape::Type(t),
                    None => BindingShape::Text(s),
                },
            ),
        ),
        (TemplateParamView::NonTypeParam { name, .. }, ArgText::Value(s)) => Ok(
            with_binding(b, name, BindingShape::Value(s)),
        ),
        (TemplateParamView::NonTypeParam { .. }, ArgText::Type(_)) => Err(
            TemplateCallFailure::NonTypeArgMismatch,
        ),
        (TemplateParamView::TypeParam { .. }, ArgText::Value(_)) => Err(
            TemplateCallFailure::DeductionFail,
        ),
    }
}

/// The bindings after the explicit arguments from position `k` on.
pub open spec fn with_explicit(
    c: SemaView,
    params: Seq<TemplateParamView>,
    args: Seq<ArgText>,
    k: int,
    b: Seq<(Seq<char>, BindingShape)>,
) -> Bound
    decreases args.len() - k,
{
    if k < 0 || k >= args.len() {
        Ok(b)
    } else if k >= params.len() {
        Err(TemplateCallFailure::ExplicitArityMismatch)
    } else {
        match with_arg(c, params[k], args[k], b) {
            Ok(next) => with_explicit(c, params, args, k + 1, next),
            Err(e) => Err(e),
        }
    }
}

pub open spec fn default_of(p: TemplateParamView) -> Option<ArgText> {
    match p {
        TemplateParamView::TypeParam { default_arg, .. } => default_arg,
        TemplateParamView::NonTypeParam { default_arg, .. } => default_arg,
    }
}

pub open spec fn name_of_param(p: TemplateParamView) -> Seq<char> {
    match p {
        TemplateParamView::TypeParam { name, .. } => name,
        TemplateParamView::NonTypeParam { name, .. } => name,
    }
}

/// The bindings after the defaults of the parameters from position `k` on that stand for nothing.
pub open spec fn with_defaults(
    c: SemaView,
    params: Seq<TemplateParamView>,
    k: int,
    b: Seq<(Seq<char>, BindingShape)>,
) -> Bound
    decreases params.len() - k,
{
    if k < 0 || k >= params.len() {
        Ok(b)
    } else {
        match (stands_for(b, name_of_param(params[k])), default_of(params[k])) {
            (None, Some(a)) => match with_arg(c, params[k], a, b) {
                Ok(next) => with_defaults(c, params, k + 1, next),
                Err(e) => Err(e),
            },
            _ => with_defaults(c, params, k + 1, b),
        }
    }
}

pub open spec fn unmatched(guarded: bool) -> TemplateCallFailure {
    if guarded {
        TemplateCallFailure::SfinaeRejected
    } else {
        TemplateCallFailure::DeductionFail
    }
}

/// What keeps the parameters from position `k` on from all standing for something that fits.
pub open spec fn unbound(
    params: Seq<TemplateParamView>,
    k: int,
    b: Seq<(Seq<char>, BindingShape)>,
    guarded: bool,
) -> Option<TemplateCallFailure>
    decreases params.len() - k,
{
    if k < 0 || k >= params.len() {
        None
    } else {
        match (params[k], stands_for(b, name_of_param(params[k]))) {
            (TemplateParamView::TypeParam { .. }, None) => Some(unmatched(guarded)),
            (TemplateParamView::TypeParam { .. }, Some(_)) => unbound(params, k + 1, b, guarded),
            (TemplateParamView::NonTypeParam { .. }, None) => Some(
                TemplateCallFailure::DeductionFail,
            ),
            (
                TemplateParamView::NonTypeParam { declared_type, .. },
                Some(BindingShape::Value(v)),
            ) => if value_fits(v, declared_type) {
                unbound(params, k + 1, b, guarded)
            } else {
                Some(TemplateCallFailure::NonTypeArgMismatch)
            },
            (TemplateParamView::NonTypeParam { .. }, Some(_)) => Some(
                TemplateCallFailure::NonTypeArgMismatch,
            ),
        }
    }
}

/// The bindings under which the arguments are those of the first constructor from position `k` on
/// that takes them.
pub open spec fn constructed_from(
    c: SemaView,
    constructors: Seq<Seq<PatternShape>>,
    ids: Seq<TypeId>,
    k: int,
    b: Seq<(Seq<char>, BindingShape)>,
) -> Option<Seq<(Seq<char>, BindingShape)>>
    decreases constructors.len() - k,
{
    if k < 0 || k >= constructors.len() {
        None
    } else if constructors[k].len() != ids.len() {
        constructed_from(c, constructors, ids, k + 1, b)
    } else {
        match all_matched(c, constructors[k], ids, 0, b) {
            Some(next) => Some(next),
            None => constructed_from(c, constructors, ids, k + 1, b),
        }
    }
}

pub open spec fn constructed(
    c: SemaView,
    params: Seq<TemplateParamView>,
    constructors: Seq<Seq<PatternShape>>,
    ids: Seq<TypeId>,
    b: Seq<(Seq<char>, BindingShape)>,
) -> Option<Seq<(Seq<char>, BindingShape)>> {
    if constructors.len() == 0 {
        if ids.len() == 0 || b.len() == params.len() {
            Some(b)
        } else {
            None
        }
    } else {
        constructed_from(c, constructors, ids, 0, b)
    }
}

/// What the parameters of a template stand for in a call.
pub open spec fn call_bindings(c: SemaView, d: DeclView, explicit: Seq<ArgText>, ids: Seq<TypeId>) -> Bound {
    match with_explicit(c, d.params, explicit, 0, Seq::empty()) {
        Err(e) => Err(e),
        Ok(b) => {
            let deduced = match d.kind {
                DeclKindView::Function { function_params, .. } => if ids.len()
                    != function_params.len() {
                    Err(TemplateCallFailure::DeductionFail)
                } else {
                    match all_matched(c, function_params, ids, 0, b) {
                        Some(next) => Ok(next),
                        None => Err(unmatched(d.is_sfinae_guarded)),
                    }
                },
                DeclKindView::Class { constructors } => match constructed(
                    c,
                    d.params,
                    constructors,
                    ids,
                    b,
                ) {
                    Some(next) => Ok(next),
                    None => Err(unmatched(d.is_sfinae_guarded)),
                },
            };
            match deduced {
                Err(e) => Err(e),
                Ok(b1) => match with_defaults(c, d.params, explicit.len() as int, b1) {
                    Err(e) => Err(e),
                    Ok(b2) => match unbound(d.params, 0, b2, d.is_sfinae_guarded) {
                        Some(e) => Err(e),
                        None => if d.sfinae_always_rejects {
                            Err(TemplateCallFailure::SfinaeRejected)
                        } else {
                            Ok(b2)
                        },
                    },
                },
            }
        },
    }
}

pub open spec fn bound_result(r: Result<TemplateBindings, TemplateCallFailure>) -> Bound {
    match r {
        Ok(b) => Ok(stands(b@)),
        Err(e) => Err(e),
    }
}

fn bind_explicit_template_arg(
    param: &TemplateParam,
    arg: &ExplicitTemplateArg,
    ctx: &SemaContext,
    b: TemplateBindings,
) -> (r: Result<TemplateBindings, TemplateCallFailure>)
    ensures
        bound_result(r) == with_arg(ctx@, param@, arg@, stands(b@)),
{
    let mut next = b;
    match (param, arg) {
        (TemplateParam::TypeParam { name, .. }, ExplicitTemplateArg::Type(value)) => {
            let item = match ctx.resolve_existing_type_text(value) {
                Some(t) => TemplateBinding::Type(t),
                None => TemplateBinding::Text(text::copy_of(value)),
            };
            put_binding(&mut next, name, item);
            Ok(next)
        },
        (TemplateParam::NonTypeParam { name, .. }, ExplicitTemplateArg::Value(value)) => {
            put_binding(&mut next, name, TemplateBinding::Value(text::copy_of(value)));
            Ok(next)
        },
        (TemplateParam::NonTypeParam { .. }, ExplicitTemplateArg::Type(_)) => Err(
            TemplateCallFailure::NonTypeArgMismatch,
        ),
        (TemplateParam::TypeParam { .. }, ExplicitTemplateArg::Value(_)) => Err(
            TemplateCallFailure::DeductionFail,
        ),
    }
}

fn bind_explicit_args(
    params: &Vec<TemplateParam>,
    args: &Vec<ExplicitTemplateArg>,
    ctx: &SemaContext,
) -> (r: Result<TemplateBindings, TemplateCallFailure>)
    ensures
        bound_result(r) == with_explicit(
            ctx@,
            template_param_views(params@),
            arg_text_views(args@),
            0,
            Seq::empty(),
        ),
{
    let ghost p = template_param_views(params@);
    let ghost a = arg_text_views(args@);
    let ghost whole = with_explicit(ctx@, p, a, 0, Seq::empty());
    let mut b: TemplateBindings = Vec::new();
    assert(stands(b@) =~= Seq::<(Seq<char>, BindingShape)>::empty());
    let n: usize = args.len();
    let mut i: usize = 0;
    while i < n
        invariant
            p == template_param_views(params@),
            a == arg_text_views(args@),
            n == args@.len(),
            i <= n,
            whole == with_explicit(ctx@, p, a, 0, Seq::empty()),
            whole == with_explicit(ctx@, p, a, i as int, stands(b@)),
        decreases n - i,
    {
        assert(a[i as int] == args@[i as int]@);
        if i >= params.len() {
            return Err(TemplateCallFailure::ExplicitArityMismatch);
        }
        assert(p[i as int] == params@[i as int]@);
        match bind_explicit_template_arg(&params[i], &args[i], ctx, b) {
            Ok(next) => {
                b = next;
            },
            Err(e) => {
                return Err(e);
            },
        }
        i = i + 1;
    }
    Ok(b)
}

fn param_parts(param: &TemplateParam) -> (r: (&str, &Option<ExplicitTemplateArg>))
    ensures
        r.0@ == name_of_param(param@),
        super::pattern::opt_arg_text(*r.1) == default_of(param@),
{
    match param {
        TemplateParam::TypeParam { name, default_arg } => (name.as_str(), default_arg),
        TemplateParam::NonTypeParam { name, default_arg, .. } => (name.as_str(), default_arg),
    }
}

fn bind_default_args(
    params: &Vec<TemplateParam>,
    from: usize,
    ctx: &SemaContext,
    start: TemplateBindings,
) -> (r: Result<TemplateBindings, TemplateCallFailure>)
    ensures
        bound_result(r) == with_defaults(
            ctx@,
            template_param_views(params@),
            from as int,
            stands(start@),
        ),
{
    let ghost p = template_param_views(params@);
    let ghost whole = with_defaults(ctx@, p, from as int, stands(start@));
    let mut b = start;
    let n: usize = params.len();
    let mut i: usize = from;
    while i < n
        invariant
            p == template_param_views(params@),
            n == params@.len(),
            whole == with_defaults(ctx@, p, from as int, stands(start@)),
            whole == with_defaults(ctx@, p, i as int, stands(b@)),
        decreases n - i,
    {
        assert(p[i as int] == params@[i as int]@);
        let (name, default_arg) = param_parts(&params[i]);
        let is_bound = match get_binding(&b, name) {
            Some(_) => true,
            None => false,
        };
        if !is_bound {
            match default_arg {
                Some(a) => {
                    match bind_explicit_template_arg(&params[i], a, ctx, b) {
                        Ok(next) => {
                            b = next;
                        },
                        Err(e) => {
                            return Err(e);
                        },
                    }
                },
                None => {},
            }
        }
        i = i + 1;
    }
    Ok(b)
}

fn failure_unmatched(guarded: bool) -> (r: TemplateCallFailure)
    ensures
        r == unmatched(guarded),
{
    if guarded {
        TemplateCallFailure::SfinaeRejected
    } else {
        TemplateCallFailure::DeductionFail
    }
}

fn find_unbound(params: &Vec<TemplateParam>, b: &TemplateBindings, guarded: bool) -> (r: Option<
    TemplateCallFailure,
>)
    ensures
        r == unbound(template_param_views(params@), 0, stands(b@), guarded),
{
    let ghost p = template_param_views(params@);
    let n: usize = params.len();
    let mut i: usize = 0;
    while i < n
        invariant
            p == template_param_views(params@),
            n == params@.len(),
            i <= n,
            unbound(p, 0, stands(b@), guarded) == unbound(p, i as int, stands(b@), guarded),
        decreases n - i,
    {
        assert(p[i as int] == params@[i as int]@);
        match &params[i] {
            TemplateParam::TypeParam { name, .. } => {
                match get_binding(b, name) {
                    Some(_) => {},
                    None => {
                        return Some(failure_unmatched(guarded));
                    },
                }
            },
            TemplateParam::NonTypeParam { name, declared_type, .. } => {
                match get_binding(b, name) {
                    None => {
                        return Some(TemplateCallFailure::DeductionFail);
                    },
                    Some(TemplateBinding::Value(v)) => {
                        if !matches_non_type_value(v, declared_type) {
                            return Some(TemplateCallFailure::NonTypeArgMismatch);
                        }
                    },
                    Some(_) => {
                        return Some(TemplateCallFailure::NonTypeArgMismatch);
                    },
                }
            },
        }
        i = i + 1;
    }
    None
}

fn bind_class_template_ctor(
    params: &Vec<TemplateParam>,
    constructors: &Vec<Vec<TypePattern>>,
    ids: &Vec<TypeId>,
    ctx: &SemaContext,
    b: TemplateBindings,
) -> (r: Option<TemplateBindings>)
    ensures
        opt_stands(r) == constructed(
            ctx@,
            template_param_views(params@),
            super::declare::constructor_views(constructors@),
            ids@,
            stands(b@),
        ),
{
    let ghost list = super::declare::constructor_views(constructors@);
    let n: usize = constructors.len();
    assert(list.len() == n);
    assert(stands(b@).len() == b@.len());
    assert(template_param_views(params@).len() == params@.len());
    if n == 0 {
        return if ids.len() == 0 || b.len() == params.len() {
            Some(b)
        } else {
            None
        };
    }
    let mut i: usize = 0;
    while i < n
        invariant
            list == super::declare::constructor_views(constructors@),
            n == constructors@.len(),
            i <= n,
            constructed(
                ctx@,
                template_param_views(params@),
                list,
                ids@,
                stands(b@),
            ) == constructed_from(ctx@, list, ids@, i as int, stands(b@)),
        decreases n - i,
    {
        assert(list[i as int] == pattern_views(constructors@[i as int]@));
        if constructors[i].len() == ids.len() {
            match match_all(&constructors[i], ids, ctx, copy_bindings(&b)) {
                Some(next) => {
                    return Some(next);
                },
                None => {},
            }
        }
        i = i + 1;
    }
    None
}

fn bind_decl_call(
    decl: &TemplateDecl,
    explicit_args: &Vec<ExplicitTemplateArg>,
    arg_types: &Vec<TypeId>,
    ctx: &SemaContext,
) -> (r: Result<TemplateBindings, TemplateCallFailure>)
    ensures
        bound_result(r) == call_bindings(
            ctx@,
            decl@,
            arg_text_views(explicit_args@),
            arg_types@,
        ),
{
    let b = match bind_explicit_args(&decl.params, explicit_args, ctx) {
        Ok(b) => b,
        Err(e) => {
            return Err(e);
        },
    };
    let deduced = match &decl.kind {
        TemplateDeclKind::Function { function_params, .. } => {
            assert(pattern_views(function_params@).len() == function_params@.len());
            if arg_types.len() != function_params.len() {
                return Err(TemplateCallFailure::DeductionFail);
            }
            match_all(function_params, arg_types, ctx, b)
        },
        TemplateDeclKind::Class { constructors } => bind_class_template_ctor(
            &decl.params,
            constructors,
            arg_types,
            ctx,
            b,
        ),
    };
    let b1 = match deduced {
        Some(b) => b,
        None => {
            return Err(failure_unmatched(decl.is_sfinae_guarded));
        },
    };
    assert(arg_text_views(explicit_args@).len() == explicit_args@.len());
    let b2 = match bind_default_args(&decl.params, explicit_args.len(), ctx, b1) {
        Ok(b) => b,
        Err(e) => {
            return Err(e);
        },
    };
    match find_unbound(&decl.params, &b2, decl.is_sfinae_guarded) {
        Some(e) => {
            return Err(e);
        },
        None => {},
    }
    if decl.sfinae_always_rejects {
        return Err(TemplateCallFailure::SfinaeRejected);
    }
    Ok(b2)
}

/// Whether two argument texts write the same type.
pub open spec fn same_written(c: Option<SemaView>, expected: Seq<char>, actual: Seq<char>) -> bool {
    clean(expected) == clean(actual) || match c {
        None => false,
        Some(c) => match (existing_type(c, clean(expected)), existing_type(c, clean(actual))) {
            (Some(l), Some(r)) => l == r,
            _ => false,
        },
    }
}

/// What keeps the arguments from position `k` on from being those of a specialization.
pub open spec fn unlike_from(
    c: Option<SemaView>,
    expected: Seq<ArgText>,
    actual: Seq<ArgText>,
    k: int,
) -> Option<TemplateCallFailure>
    decreases expected.len() - k,
{
    if k < 0 || k >= expected.len() || k >= actual.len() {
        None
    } else {
        match (expected[k], actual[k]) {
            (ArgText::Type(x), ArgText::Type(y)) => if same_written(c, x, y) {
                unlike_from(c, expected, actual, k + 1)
            } else {
                Some(TemplateCallFailure::DeductionFail)
            },
            (ArgText::Value(x), ArgText::Value(y)) => if without_space(x) == without_space(y) {
                unlike_from(c, expected, actual, k + 1)
            } else {
                Some(TemplateCallFailure::NonTypeArgMismatch)
            },
            _ => Some(TemplateCallFailure::NonTypeArgMismatch),
        }
    }
}

pub open spec fn unlike(c: Option<SemaView>, expected: Seq<ArgText>, actual: Seq<ArgText>) -> Option<
    TemplateCallFailure,
> {
    if expected.len() == 0 || actual.len() == 0 {
        None
    } else if actual.len() != expected.len() {
        Some(TemplateCallFailure::ExplicitArityMismatch)
    } else {
        unlike_from(c, expected, actual, 0)
    }
}

pub open spec fn opt_context(c: Option<&SemaContext>) -> Option<SemaView> {
    match c {
        Some(c) => Some(c@),
        None => None,
    }
}

fn template_arg_type_texts_match(expected: &str, actual: &str, ctx: Option<&SemaContext>) -> (r: bool)
    ensures
        r == same_written(opt_context(ctx), expected@, actual@),
{
    let x = clean_type_string(expected);
    let y = clean_type_string(actual);
    if text::same(&x, &y) {
        return true;
    }
    match ctx {
        None => false,
        Some(ctx) => match (
            ctx.resolve_existing_type_text(&x),
            ctx.resolve_existing_type_text(&y),
        ) {
            (Some(left), Some(right)) => left == right,
            _ => false,
        },
    }
}

fn explicit_specialization_args_match(
    decl: &TemplateDecl,
    explicit_args: &Vec<ExplicitTemplateArg>,
    ctx: Option<&SemaContext>,
) -> (r: Option<TemplateCallFailure>)
    ensures
        r == unlike(
            opt_context(ctx),
            decl@.specialization_args,
            arg_text_views(explicit_args@),
        ),
{
    let ghost e = decl@.specialization_args;
    let ghost a = arg_text_views(explicit_args@);
    let n: usize = decl.specialization_args.len();
    assert(e.len() == n);
    assert(a.len() == explicit_args@.len());
    if n == 0 || explicit_args.len() == 0 {
        return None;
    }
    if explicit_args.len() != n {
        return Some(TemplateCallFailure::ExplicitArityMismatch);
    }
    let mut i: usize = 0;
    while i < n
        invariant
            e == decl@.specialization_args,
            a == arg_text_views(explicit_args@),
            n == decl.specialization_args@.len(),
            n == explicit_args@.len(),
            i <= n,
            unlike(opt_context(ctx), e, a) == unlike_from(opt_context(ctx), e, a, i as int),
        decreases n - i,
    {
        assert(e[i as int] == decl.specialization_args@[i as int]@);
        assert(a[i as int] == explicit_args@[i as int]@);
        match (&decl.specialization_args[i], &explicit_args[i]) {
            (ExplicitTemplateArg::Type(x), ExplicitTemplateArg::Type(y)) => {
                if !template_arg_type_texts_match(x, y, ctx) {
                    return Some(TemplateCallFailure::DeductionFail);
                }
            },
            (ExplicitTemplateArg::Value(x), ExplicitTemplateArg::Value(y)) => {
                let left = remove_space(x);
                let right = remove_space(y);
                if !text::same(&left, &right) {
                    return Some(TemplateCallFailure::NonTypeArgMismatch);
                }
            },
            _ => {
                return Some(TemplateCallFailure::NonTypeArgMismatch);
            },
        }
        i = i + 1;
    }
    None
}

/// Whether a constructor from position `k` on takes arguments of these types, each pattern alone.
pub open spec fn constructor_takes(
    c: SemaView,
    constructors: Seq<Seq<PatternShape>>,
    ids: Seq<TypeId>,
    k: int,
) -> bool
    decreases constructors.len() - k,
{
    if k < 0 || k >= constructors.len() {
        false
    } else {
        (constructors[k].len() == ids.len() && each_matches(c, constructors[k], ids, 0))
            || constructor_takes(c, constructors, ids, k + 1)
    }
}

pub open spec fn each_matches(c: SemaView, patterns: Seq<PatternShape>, ids: Seq<TypeId>, k: int) -> bool
    decreases patterns.len() - k,
{
    if k < 0 || k >= patterns.len() || k >= ids.len() {
        true
    } else {
        matched(c, patterns[k], ids[k], Seq::empty()) is Some && each_matches(
            c,
            patterns,
            ids,
            k + 1,
        )
    }
}

/// What keeps a call from meaning an explicit specialization.
pub open spec fn specialization_failure(
    c: SemaView,
    d: DeclView,
    explicit: Seq<ArgText>,
    ids: Seq<TypeId>,
) -> Option<TemplateCallFailure> {
    match unlike(Some(c), d.specialization_args, explicit) {
        Some(e) => Some(e),
        None => {
            let own = match d.kind {
                DeclKindView::Function { function_params, .. } => if ids.len()
                    != function_params.len() {
                    Some(TemplateCallFailure::DeductionFail)
                } else if all_matched(c, function_params, ids, 0, Seq::empty()) is None {
                    Some(unmatched(d.is_sfinae_guarded))
                } else {
                    None
                },
                DeclKindView::Class { constructors } => if constructors.len() > 0
                    && !constructor_takes(c, constructors, ids, 0) {
                    Some(unmatched(d.is_sfinae_guarded))
                } else {
                    None
                },
            };
            match own {
                Some(e) => Some(e),
                None => if d.sfinae_always_rejects {
                    Some(TemplateCallFailure::SfinaeRejected)
                } else {
                    None
                },
            }
        },
    }
}

fn no_bindings() -> (r: TemplateBindings)
    ensures
        stands(r@) == Seq::<(Seq<char>, BindingShape)>::empty(),
{
    let r: TemplateBindings = Vec::new();
    assert(stands(r@) =~= Seq::<(Seq<char>, BindingShape)>::empty());
    r
}

fn constructor_matches(constructor: &Vec<TypePattern>, ids: &Vec<TypeId>, ctx: &SemaContext) -> (r: bool)
    ensures
        r == each_matches(ctx@, pattern_views(constructor@), ids@, 0),
{
    let ghost p = pattern_views(constructor@);
    let mut i: usize = 0;
    while i < constructor.len() && i < ids.len()
        invariant
            p == pattern_views(constructor@),
            i <= constructor@.len(),
            i <= ids@.len(),
            each_matches(ctx@, p, ids@, 0) == each_matches(ctx@, p, ids@, i as int),
        decreases constructor@.len() - i,
    {
        assert(p[i as int] == constructor@[i as int]@);
        match match_type_pattern(&constructor[i], ids[i], ctx, no_bindings()) {
            Some(_) => {},
            None => {
                return false;
            },
        }
        i = i + 1;
    }
    true
}

fn some_constructor_matches(constructors: &Vec<Vec<TypePattern>>, ids: &Vec<TypeId>, ctx: &SemaContext) -> (r:
    bool)
    ensures
        r == constructor_takes(
            ctx@,
            super::declare::constructor_views(constructors@),
            ids@,
            0,
        ),
{
    let ghost list = super::declare::constructor_views(constructors@);
    let n: usize = constructors.len();
    let mut i: usize = 0;
    while i < n
        invariant
            list == super::declare::constructor_views(constructors@),
            n == constructors@.len(),
            i <= n,
            constructor_takes(ctx@, list, ids@, 0) == constructor_takes(ctx@, list, ids@, i as int),
        decreases n - i,
    {
        assert(list[i as int] == pattern_views(constructors@[i as int]@));
        if constructors[i].len() == ids.len() && constructor_matches(&constructors[i], ids, ctx) {
            return true;
        }
        i = i + 1;
    }
    false
}

fn analyze_explicit_specialization_call(
    decl: &TemplateDecl,
    explicit_args: &Vec<ExplicitTemplateArg>,
    arg_types: &Vec<TypeId>,
    ctx: &SemaContext,
) -> (r: Option<TemplateCallFailure>)
    ensures
        r == specialization_failure(
            ctx@,
            decl@,
            arg_text_views(explicit_args@),
            arg_types@,
        ),
{
    match explicit_specialization_args_match(decl, explicit_args, Some(ctx)) {
        Some(e) => {
            return Some(e);
        },
        None => {},
    }
    match &decl.kind {
        TemplateDeclKind::Function { function_params, .. } => {
            assert(pattern_views(function_params@).len() == function_params@.len());
            if arg_types.len() != function_params.len() {
                return Some(TemplateCallFailure::DeductionFail);
            }
            match match_all(function_params, arg_types, ctx, no_bindings()) {
                Some(_) => {},
                None => {
                    return Some(failure_unmatched(decl.is_sfinae_guarded));
                },
            }
        },
        TemplateDeclKind::Class { constructors } => {
            assert(super::declare::constructor_views(constructors@).len() == constructors@.len());
            if constructors.len() > 0 && !some_constructor_matches(constructors, arg_types, ctx) {
                return Some(failure_unmatched(decl.is_sfinae_guarded));
            }
        },
    }
    if decl.sfinae_always_rejects {
        return Some(TemplateCallFailure::SfinaeRejected);
    }
    None
}

/// What keeps a call from meaning this template.
pub open spec fn call_failure(c: SemaView, d: DeclView, explicit: Seq<ArgText>, ids: Seq<TypeId>) -> Option<
    TemplateCallFailure,
> {
    if d.is_explicit_specialization {
        specialization_failure(c, d, explicit, ids)
    } else {
        match call_bindings(c, d, explicit, ids) {
            Ok(_) => None,
            Err(e) => Some(e),
        }
    }
}

fn analyze_decl_call(
    decl: &TemplateDecl,
    explicit_args: &Vec<ExplicitTemplateArg>,
    arg_types: &Vec<TypeId>,
    ctx: &SemaContext,
) -> (r: Option<TemplateCallFailure>)
    ensures
        r == call_failure(ctx@, decl@, arg_text_views(explicit_args@), arg_types@),
{
    if decl.is_explicit_specialization {
        return analyze_explicit_specialization_call(decl, explicit_args, arg_types, ctx);
    }
    match bind_decl_call(decl, explicit_args, arg_types, ctx) {
        Ok(_) => None,
        Err(e) => Some(e),
    }
}

/// The arguments with the defaults of the parameters from position `k` on behind them.
pub open spec fn filled(params: Seq<TemplateParamView>, args: Seq<ArgText>, k: int) -> Result<
    Seq<ArgText>,
    TemplateCallFailure,
>
    decreases params.len() - k,
{
    if k < 0 || k >= params.len() {
        Ok(args)
    } else {
        match default_of(params[k]) {
            Some(a) => filled(params, args.push(a), k + 1),
            None => Err(TemplateCallFailure::ExplicitArityMismatch),
        }
    }
}

/// What keeps the arguments from position `k` on from fitting their parameters.
pub open spec fn misfit(params: Seq<TemplateParamView>, args: Seq<ArgText>, k: int) -> Option<
    TemplateCallFailure,
>
    decreases params.len() - k,
{
    if k < 0 || k >= params.len() || k >= args.len() {
        None
    } else {
        match (params[k], args[k]) {
            (TemplateParamView::TypeParam { .. }, ArgText::Type(_)) => misfit(params, args, k + 1),
            (TemplateParamView::NonTypeParam { declared_type, .. }, ArgText::Value(v)) => if value_fits(
                v,
                declared_type,
            ) {
                misfit(params, args, k + 1)
            } else {
                Some(TemplateCallFailure::NonTypeArgMismatch)
            },
            (TemplateParamView::NonTypeParam { .. }, ArgText::Type(_)) => Some(
                TemplateCallFailure::NonTypeArgMismatch,
            ),
            (TemplateParamView::TypeParam { .. }, ArgText::Value(_)) => Some(
                TemplateCallFailure::DeductionFail,
            ),
        }
    }
}

/// What keeps an instance from meaning this class template.
pub open spec fn usage_failure(d: DeclView, explicit: Seq<ArgText>) -> Option<TemplateCallFailure> {
    if !(d.kind is Class) {
        None
    } else if d.is_explicit_specialization {
        unlike(None, d.specialization_args, explicit)
    } else if explicit.len() > d.params.len() {
        Some(TemplateCallFailure::ExplicitArityMismatch)
    } else {
        match filled(d.params, explicit, explicit.len() as int) {
            Err(e) => Some(e),
            Ok(args) => match misfit(d.params, args, 0) {
                Some(e) => Some(e),
                None => if d.sfinae_always_rejects {
                    Some(TemplateCallFailure::SfinaeRejected)
                } else {
                    None
                },
            },
        }
    }
}

fn apply_default_template_args(params: &Vec<TemplateParam>, explicit_args: &Vec<ExplicitTemplateArg>) -> (r:
    Result<Vec<ExplicitTemplateArg>, TemplateCallFailure>)
    requires
        explicit_args@.len() <= params@.len(),
    ensures
        match r {
            Ok(v) => filled(
                template_param_views(params@),
                arg_text_views(explicit_args@),
                explicit_args@.len() as int,
            ) == Ok::<Seq<ArgText>, TemplateCallFailure>(arg_text_views(v@)),
            Err(e) => filled(
                template_param_views(params@),
                arg_text_views(explicit_args@),
                explicit_args@.len() as int,
            ) == Err::<Seq<ArgText>, TemplateCallFailure>(e),
        },
{
    let ghost p = template_param_views(params@);
    let ghost whole = filled(p, arg_text_views(explicit_args@), explicit_args@.len() as int);
    let mut out: Vec<ExplicitTemplateArg> = Vec::new();
    let m: usize = explicit_args.len();
    let mut i: usize = 0;
    while i < m
        invariant
            m == explicit_args@.len(),
            i <= m,
            out@.len() == i,
            forall|j: int| 0 <= j < i ==> (#[trigger] out@[j])@ == explicit_args@[j]@,
        decreases m - i,
    {
        out.push(explicit_args[i].clone());
        i = i + 1;
    }
    assert(arg_text_views(out@) =~= arg_text_views(explicit_args@));
    let n: usize = params.len();
    let mut k: usize = m;
    while k < n
        invariant
            p == template_param_views(params@),
            n == params@.len(),
            m == explicit_args@.len(),
            k <= n,
            whole == filled(p, arg_text_views(explicit_args@), explicit_args@.len() as int),
            whole == filled(p, arg_text_views(out@), k as int),
        decreases n - k,
    {
        assert(p[k as int] == params@[k as int]@);
        let (_name, default_arg) = param_parts(&params[k]);
        match default_arg {
            Some(a) => {
                let ghost before = arg_text_views(out@);
                let item = a.clone();
                out.push(item);
                assert(arg_text_views(out@) =~= before.push(item@));
            },
            None => {
                return Err(TemplateCallFailure::ExplicitArityMismatch);
            },
        }
        k = k + 1;
    }
    Ok(out)
}

fn analyze_class_template_usage(decl: &TemplateDecl, explicit_args: &Vec<ExplicitTemplateArg>) -> (r: Option<
    TemplateCallFailure,
>)
    ensures
        r == usage_failure(decl@, arg_text_views(explicit_args@)),
{
    match &decl.kind {
        TemplateDeclKind::Class { .. } => {},
        TemplateDeclKind::Function { .. } => {
            return None;
        },
    }
    if decl.is_explicit_specialization {
        return explicit_specialization_args_match(decl, explicit_args, None);
    }
    assert(arg_text_views(explicit_args@).len() == explicit_args@.len());
    assert(decl@.params.len() == decl.params@.len());
    if explicit_args.len() > decl.params.len() {
        return Some(TemplateCallFailure::ExplicitArityMismatch);
    }
    let args = match apply_default_template_args(&decl.params, explicit_args) {
        Ok(v) => v,
        Err(e) => {
            return Some(e);
        },
    };
    let ghost p = decl@.params;
    let ghost a = arg_text_views(args@);
    let mut i: usize = 0;
    while i < decl.params.len() && i < args.len()
        invariant
            p == decl@.params,
            a == arg_text_views(args@),
            i <= decl.params@.len(),
            i <= args@.len(),
            usage_failure(decl@, arg_text_views(explicit_args@)) == (match misfit(p, a, i as int) {
                Some(e) => Some(e),
                None => if decl@.sfinae_always_rejects {
                    Some(TemplateCallFailure::SfinaeRejected)
                } else {
                    None
                },
            }),
        decreases decl.params@.len() - i,
    {
        assert(p[i as int] == decl.params@[i as int]@);
        assert(a[i as int] == args@[i as int]@);
        match (&decl.params[i], &args[i]) {
            (TemplateParam::TypeParam { .. }, ExplicitTemplateArg::Type(_)) => {},
            (
                TemplateParam::NonTypeParam { declared_type, .. },
                ExplicitTemplateArg::Value(value),
            ) => {
                if !matches_non_type_value(value, declared_type) {
                    return Some(TemplateCallFailure::NonTypeArgMismatch);
                }
            },
            (TemplateParam::NonTypeParam { .. }, ExplicitTemplateArg::Type(_)) => {
                return Some(TemplateCallFailure::NonTypeArgMismatch);
            },
            (TemplateParam::TypeParam { .. }, ExplicitTemplateArg::Value(_)) => {
                return Some(TemplateCallFailure::DeductionFail);
            },
        }
        i = i + 1;
    }
    if decl.sfinae_always_rejects {
        return Some(TemplateCallFailure::SfinaeRejected);
    }
    None
}

/// The truth value that a text writes.
pub open spec fn truth(s: Seq<char>) -> Option<bool> {
    let v = without_space(s);
    if v == "true"@ || v == "TRUE"@ {
        Some(true)
    } else if v == "false"@ || v == "FALSE"@ {
        Some(false)
    } else {
        None
    }
}

fn parse_bool_token(s: &str) -> (r: Option<bool>)
    ensures
        r == truth(s@),
{
    let v = remove_space(s);
    if text::same(&v, "true") || text::same(&v, "TRUE") {
        Some(true)
    } else if text::same(&v, "false") || text::same(&v, "FALSE") {
        Some(false)
    } else {
        None
    }
}

pub open spec fn binding_truth(c: SemaView, b: Option<BindingShape>) -> Option<bool> {
    match b {
        None => None,
        Some(BindingShape::Value(s)) => truth(s),
        Some(BindingShape::Text(s)) => truth(s),
        Some(BindingShape::Type(t)) => match render(c, t) {
            Some(s) => truth(s),
            None => None,
        },
    }
}

fn template_binding_bool(b: Option<&TemplateBinding>, ctx: &SemaContext) -> (r: Option<bool>)
    ensures
        r == binding_truth(ctx@, opt_stand(b)),
{
    match b {
        None => None,
        Some(TemplateBinding::Value(s)) => parse_bool_token(s),
        Some(TemplateBinding::Text(s)) => parse_bool_token(s),
        Some(TemplateBinding::Type(t)) => match ctx.render_type(*t) {
            Some(s) => parse_bool_token(&s),
            None => None,
        },
    }
}

/// The truth value of a condition on template parameters.
pub open spec fn condition_truth(c: SemaView, p: PatternShape, b: Seq<(Seq<char>, BindingShape)>) -> Option<
    bool,
> {
    match p {
        PatternShape::Value(s) => match truth(s) {
            Some(v) => Some(v),
            None => binding_truth(c, stands_for(b, s)),
        },
        PatternShape::Concrete(s) => match truth(s) {
            Some(v) => Some(v),
            None => binding_truth(c, stands_for(b, s)),
        },
        PatternShape::NonTypeParam(name) => binding_truth(c, stands_for(b, name)),
        PatternShape::TemplateParam(name) => binding_truth(c, stands_for(b, name)),
        _ => None,
    }
}

fn template_condition_value(p: &TypePattern, b: &TemplateBindings, ctx: &SemaContext) -> (r: Option<bool>)
    ensures
        r == condition_truth(ctx@, p@, stands(b@)),
{
    match p {
        TypePattern::Value(s) => match parse_bool_token(s) {
            Some(v) => Some(v),
            None => template_binding_bool(get_binding(b, s), ctx),
        },
        TypePattern::Concrete(s) => match parse_bool_token(s) {
            Some(v) => Some(v),
            None => template_binding_bool(get_binding(b, s), ctx),
        },
        TypePattern::NonTypeParam(name) => template_binding_bool(get_binding(b, name), ctx),
        TypePattern::TemplateParam(name) => template_binding_bool(get_binding(b, name), ctx),
        _ => None,
    }
}

/// The type that a bound parameter stands for.
pub open spec fn bound_parameter(c: SemaView, b: Option<BindingShape>) -> Option<TypeId> {
    match b {
        Some(BindingShape::Type(t)) => Some(t),
        Some(BindingShape::Text(s)) => existing_type(c, s),
        _ => None,
    }
}

/// The known type that a pattern writes under these bindings.
pub open spec fn instantiated(c: SemaView, p: PatternShape, b: Seq<(Seq<char>, BindingShape)>) -> Option<
    TypeId,
>
    decreases p, 0nat,
{
    match p {
        PatternShape::TemplateParam(name) => bound_parameter(c, stands_for(b, name)),
        PatternShape::NonTypeParam(_) => None,
        PatternShape::Value(_) => None,
        PatternShape::Pointer(inner) => match instantiated(c, *inner, b) {
            Some(pointee) => c.types.find(TypeShape::Pointer { pointee, cv: no_cv() }),
            None => None,
        },
        PatternShape::Reference(inner) => match instantiated(c, *inner, b) {
            Some(referent) => c.types.find(
                TypeShape::Reference { referent, kind: RefKind::LValue },
            ),
            None => None,
        },
        PatternShape::TemplateInstance { base, args } => if is_enable_if(base) {
            if args.len() == 0 || condition_truth(c, args[0], b) != Some(true) {
                None
            } else if args.len() > 1 {
                instantiated(c, args[1], b)
            } else {
                existing_type(c, "void"@)
            }
        } else {
            match instantiated_args(c, args, 0, b) {
                Some(list) => c.types.find(TypeShape::Template { base, args: list }),
                None => None,
            }
        },
        PatternShape::Concrete(s) => existing_type(c, s),
    }
}

pub open spec fn instantiated_args(
    c: SemaView,
    args: Seq<PatternShape>,
    k: int,
    b: Seq<(Seq<char>, BindingShape)>,
) -> Option<Seq<ArgShape>>
    decreases args, args.len() - k,
{
    if k < 0 || k >= args.len() {
        Some(Seq::empty())
    } else {
        let first = match args[k] {
            PatternShape::NonTypeParam(name) => match stands_for(b, name) {
                Some(BindingShape::Value(v)) => Some(ArgShape::Value(v)),
                _ => None,
            },
            PatternShape::Value(v) => Some(ArgShape::Value(v)),
            _ => match instantiated(c, args[k], b) {
                Some(t) => Some(ArgShape::Type(t)),
                None => None,
            },
        };
        match (first, instantiated_args(c, args, k + 1, b)) {
            (Some(x), Some(rest)) => Some(seq![x] + rest),
            _ => None,
        }
    }
}

fn instantiate_return_pattern(p: &TypePattern, b: &TemplateBindings, ctx: &SemaContext) -> (r: Option<
    TypeId,
>)
    ensures
        r == instantiated(ctx@, p@, stands(b@)),
    decreases *p, 0nat,
{
    match p {
        TypePattern::TemplateParam(name) => match get_binding(b, name) {
            Some(TemplateBinding::Type(t)) => Some(*t),
            Some(TemplateBinding::Text(s)) => ctx.resolve_existing_type_text(s),
            _ => None,
        },
        TypePattern::NonTypeParam(_) => None,
        TypePattern::Value(_) => None,
        TypePattern::Pointer(inner) => match instantiate_return_pattern(inner, b, ctx) {
            Some(pointee) => ctx.types.find(
                &TypeKind::Pointer { pointee, cv: CvQual::default() },
            ),
            None => None,
        },
        TypePattern::Reference(inner) => match instantiate_return_pattern(inner, b, ctx) {
            Some(referent) => ctx.types.find(
                &TypeKind::Reference { referent, kind: RefKind::LValue },
            ),
            None => None,
        },
        TypePattern::TemplateInstance { base, args } => {
            proof {
                lemma_instance_shape(*p);
                assert(decreases_to!(*args => args@));
            }
            let ghost views = pattern_views(args@);
            assert(views.len() == args@.len());
            if is_enable_if_base(base) {
                if args.len() == 0 {
                    return None;
                }
                assert(views[0] == args@[0]@);
                let holds = match template_condition_value(&args[0], b, ctx) {
                    Some(v) => v,
                    None => false,
                };
                if !holds {
                    return None;
                }
                if args.len() > 1 {
                    assert(views[1] == args@[1]@);
                    assert(decreases_to!(args@ => args@[1]));
                    instantiate_return_pattern(&args[1], b, ctx)
                } else {
                    ctx.resolve_existing_type_text("void")
                }
            } else {
                match instantiate_pattern_args(args, b, ctx) {
                    Some(list) => ctx.types.find(
                        &TypeKind::Template { base: text::copy_of(base), args: list },
                    ),
                    None => None,
                }
            }
        },
        TypePattern::Concrete(s) => ctx.resolve_existing_type_text(s),
    }
}

fn instantiate_pattern_args(args: &Vec<TypePattern>, b: &TemplateBindings, ctx: &SemaContext) -> (r: Option<
    Vec<TemplateArg>,
>)
    ensures
        match r {
            Some(v) => instantiated_args(ctx@, pattern_views(args@), 0, stands(b@)) == Some(
                arg_shapes(v@),
            ),
            None => instantiated_args(ctx@, pattern_views(args@), 0, stands(b@)) is None,
        },
    decreases *args, 1nat,
{
    let ghost p = pattern_views(args@);
    let ghost bb = stands(b@);
    let ghost whole = instantiated_args(ctx@, p, 0, bb);
    let mut list: Vec<TemplateArg> = Vec::new();
    let n: usize = args.len();
    let mut i: usize = 0;
    assert(arg_shapes(list@) =~= Seq::<ArgShape>::empty());
    assert(whole matches Some(w) ==> w =~= arg_shapes(list@) + w);
    while i < n
        invariant
            p == pattern_views(args@),
            bb == stands(b@),
            n == args@.len(),
            i <= n,
            whole == instantiated_args(ctx@, pattern_views(args@), 0, stands(b@)),
            match instantiated_args(ctx@, p, i as int, bb) {
                Some(rest) => whole == Some(arg_shapes(list@) + rest),
                None => whole is None,
            },
        decreases n - i,
    {
        assert(p[i as int] == args@[i as int]@);
        proof {
            assert(decreases_to!(*args => args@));
            assert(decreases_to!(args@ => args@[i as int]));
        }
        let ghost before = arg_shapes(list@);
        let item: Option<TemplateArg> = match &args[i] {
            TypePattern::NonTypeParam(name) => match get_binding(b, name) {
                Some(TemplateBinding::Value(v)) => Some(TemplateArg::Value(text::copy_of(v))),
                _ => None,
            },
            TypePattern::Value(v) => Some(TemplateArg::Value(text::copy_of(v))),
            _ => match instantiate_return_pattern(&args[i], b, ctx) {
                Some(t) => Some(TemplateArg::Type(t)),
                None => None,
            },
        };
        match item {
            Some(x) => {
                list.push(x);
                assert(arg_shapes(list@) =~= before.push(x@));
                proof {
                    match instantiated_args(ctx@, p, i + 1, bb) {
                        Some(rest) => {
                            assert(before + (seq![x@] + rest) =~= arg_shapes(list@) + rest);
                        },
                        None => {},
                    }
                }
            },
            None => {
                return None;
            },
        }
        i = i + 1;
    }
    assert(arg_shapes(list@) + Seq::<ArgShape>::empty() =~= arg_shapes(list@));
    Some(list)
}

/// The arguments that the parameters from position `k` on stand for.
pub open spec fn param_args(
    c: SemaView,
    params: Seq<TemplateParamView>,
    k: int,
    b: Seq<(Seq<char>, BindingShape)>,
) -> Option<Seq<ArgShape>>
    decreases params.len() - k,
{
    if k < 0 || k >= params.len() {
        Some(Seq::empty())
    } else {
        let first = match params[k] {
            TemplateParamView::TypeParam { name, .. } => match bound_parameter(
                c,
                stands_for(b, name),
            ) {
                Some(t) => Some(ArgShape::Type(t)),
                None => None,
            },
            TemplateParamView::NonTypeParam { name, .. } => match stands_for(b, name) {
                Some(BindingShape::Value(v)) => Some(ArgShape::Value(v)),
                _ => None,
            },
        };
        match (first, param_args(c, params, k + 1, b)) {
            (Some(x), Some(rest)) => Some(seq![x] + rest),
            _ => None,
        }
    }
}

/// The known instance of a class template under these bindings.
pub open spec fn instance_of(c: SemaView, d: DeclView, b: Seq<(Seq<char>, BindingShape)>) -> Option<TypeId> {
    match param_args(c, d.params, 0, b) {
        Some(args) => c.types.find(TypeShape::Template { base: d.name, args }),
        None => None,
    }
}

fn instantiate_decl_type(decl: &TemplateDecl, b: &TemplateBindings, ctx: &SemaContext) -> (r: Option<TypeId>)
    ensures
        r == instance_of(ctx@, decl@, stands(b@)),
{
    let ghost p = decl@.params;
    let ghost bb = stands(b@);
    let ghost whole = param_args(ctx@, p, 0, bb);
    let mut list: Vec<TemplateArg> = Vec::new();
    let n: usize = decl.params.len();
    let mut i: usize = 0;
    assert(arg_shapes(list@) =~= Seq::<ArgShape>::empty());
    assert(whole matches Some(w) ==> w =~= arg_shapes(list@) + w);
    while i < n
        invariant
            p == decl@.params,
            bb == stands(b@),
            n == decl.params@.len(),
            i <= n,
            whole == param_args(ctx@, decl@.params, 0, stands(b@)),
            match param_args(ctx@, p, i as int, bb) {
                Some(rest) => whole == Some(arg_shapes(list@) + rest),
                None => whole is None,
            },
        decreases n - i,
    {
        assert(p[i as int] == decl.params@[i as int]@);
        let ghost before = arg_shapes(list@);
        let item: Option<TemplateArg> = match &decl.params[i] {
            TemplateParam::TypeParam { name, .. } => match get_binding(b, name) {
                Some(TemplateBinding::Type(t)) => Some(TemplateArg::Type(*t)),
                Some(TemplateBinding::Text(s)) => match ctx.resolve_existing_type_text(s) {
                    Some(t) => Some(TemplateArg::Type(t)),
                    None => None,
                },
                _ => None,
            },
            TemplateParam::NonTypeParam { name, .. } => match get_binding(b, name) {
                Some(TemplateBinding::Value(v)) => Some(TemplateArg::Value(text::copy_of(v))),
                _ => None,
            },
        };
        match item {
            Some(x) => {
                list.push(x);
                assert(arg_shapes(list@) =~= before.push(x@));
                proof {
                    match param_args(ctx@, p, i + 1, bb) {
                        Some(rest) => {
                            assert(before + (seq![x@] + rest) =~= arg_shapes(list@) + rest);
                        },
                        None => {},
                    }
                }
            },
            None => {
                return None;
            },
        }
        i = i + 1;
    }
    assert(arg_shapes(list@) + Seq::<ArgShape>::empty() =~= arg_shapes(list@));
    ctx.types.find(&TypeKind::Template { base: text::copy_of(&decl.name), args: list })
}

pub open spec fn text_of_arg(a: ArgText) -> Seq<char> {
    match a {
        ArgText::Type(s) => s,
        ArgText::Value(s) => s,
    }
}

/// The known instance that an explicit specialization is.
pub open spec fn specialized(c: SemaView, d: DeclView) -> Option<TypeId> {
    if d.specialization_args.len() == 0 {
        None
    } else {
        existing_type(
            c,
            d.name + "<"@ + text::joined(
                d.specialization_args.map_values(|a: ArgText| text_of_arg(a)),
                ", "@,
            ) + ">"@,
        )
    }
}

fn instantiate_specialization_decl_type(decl: &TemplateDecl, ctx: &SemaContext) -> (r: Option<TypeId>)
    ensures
        r == specialized(ctx@, decl@),
{
    let n: usize = decl.specialization_args.len();
    assert(decl@.specialization_args.len() == n);
    if n == 0 {
        return None;
    }
    let mut list: Vec<String> = Vec::new();
    let mut i: usize = 0;
    while i < n
        invariant
            n == decl.specialization_args@.len(),
            i <= n,
            list@.len() == i,
            forall|j: int|
                0 <= j < i ==> (#[trigger] list@[j])@ == text_of_arg(
                    decl.specialization_args@[j]@,
                ),
        decreases n - i,
    {
        let item = match &decl.specialization_args[i] {
            ExplicitTemplateArg::Type(s) => text::copy_of(s),
            ExplicitTemplateArg::Value(s) => text::copy_of(s),
        };
        list.push(item);
        i = i + 1;
    }
    assert(text::texts(list@) =~= decl@.specialization_args.map_values(
        |a: ArgText| text_of_arg(a),
    ));
    let inner = text::join(&list, ", ");
    let head = text::concat3(&decl.name, "<", &inner);
    let rendered = text::concat2(&head, ">");
    ctx.resolve_existing_type_text(&rendered)
}

/// The templates that a source declares, in the order of their declarations.
pub struct TemplateIndex {
    pub decls: Vec<TemplateDecl>,
}

pub open spec fn decl_views(v: Seq<TemplateDecl>) -> Seq<DeclView> {
    v.map_values(|d: TemplateDecl| d@)
}

impl View for TemplateIndex {
    type V = Seq<DeclView>;

    open spec fn view(&self) -> Seq<DeclView> {
        decl_views(self.decls@)
    }
}

/// The template declared at a node, if one is.
pub open spec fn declared_at(c: SemaView, t: SyntaxTree, n: usize) -> Seq<DeclView> {
    if t.at(n).kind == NodeKind::TemplateDeclaration {
        match declaration(c, t, n) {
            Some(d) => seq![d],
            None => Seq::empty(),
        }
    } else {
        Seq::empty()
    }
}

/// The templates declared from a node downwards.
pub open spec fn collected(c: SemaView, t: SyntaxTree, n: usize) -> Seq<DeclView>
    decreases t.nodes@.len() - n, t.kids(n).len() + 1,
    when t.has(n)
{
    declared_at(c, t, n) + collected_from(c, t, n, 0)
}

pub open spec fn collected_from(c: SemaView, t: SyntaxTree, n: usize, k: int) -> Seq<DeclView>
    decreases t.nodes@.len() - n, t.kids(n).len() - k,
    when t.has(n) && 0 <= k <= t.kids(n).len()
{
    if k >= t.kids(n).len() {
        Seq::empty()
    } else {
        collected(c, t, t.kids(n)[k]) + collected_from(c, t, n, k + 1)
    }
}

/// Whether a template is found under this name.
pub open spec fn goes_by(d: DeclView, name: Seq<char>) -> bool {
    d.name == name || short_name(d.name) == name
}

/// The templates from position `k` on that go by the name and are, or are not, specializations.
pub open spec fn chosen(list: Seq<DeclView>, name: Seq<char>, explicit: bool, k: int) -> Seq<DeclView>
    decreases list.len() - k,
{
    if k < 0 || k >= list.len() {
        Seq::empty()
    } else if goes_by(list[k], name) && list[k].is_explicit_specialization == explicit {
        seq![list[k]] + chosen(list, name, explicit, k + 1)
    } else {
        chosen(list, name, explicit, k + 1)
    }
}

/// The templates that go by the name, specializations first.
pub open spec fn candidates(list: Seq<DeclView>, name: Seq<char>) -> Seq<DeclView> {
    chosen(list, name, true, 0) + chosen(list, name, false, 0)
}

/// What was seen to fail.
#[derive(Clone, Copy, PartialEq, Eq, Structural)]
pub struct Seen {
    pub arity: bool,
    pub non_type: bool,
    pub sfinae: bool,
    pub deduction: bool,
}

pub open spec fn nothing_seen() -> Seen {
    Seen { arity: false, non_type: false, sfinae: false, deduction: false }
}

pub open spec fn also_seen(s: Seen, f: TemplateCallFailure) -> Seen {
    match f {
        TemplateCallFailure::ExplicitArityMismatch => Seen { arity: true, ..s },
        TemplateCallFailure::NonTypeArgMismatch => Seen { non_type: true, ..s },
        TemplateCallFailure::SfinaeRejected => Seen { sfinae: true, ..s },
        TemplateCallFailure::DeductionFail => Seen { deduction: true, ..s },
    }
}

fn see(s: Seen, f: TemplateCallFailure) -> (r: Seen)
    ensures
        r == also_seen(s, f),
{
    match f {
        TemplateCallFailure::ExplicitArityMismatch => Seen {
            arity: true,
            non_type: s.non_type,
            sfinae: s.sfinae,
            deduction: s.deduction,
        },
        TemplateCallFailure::NonTypeArgMismatch => Seen {
            arity: s.arity,
            non_type: true,
            sfinae: s.sfinae,
            deduction: s.deduction,
        },
        TemplateCallFailure::SfinaeRejected => Seen {
            arity: s.arity,
            non_type: s.non_type,
            sfinae: true,
            deduction: s.deduction,
        },
        TemplateCallFailure::DeductionFail => Seen {
            arity: s.arity,
            non_type: s.non_type,
            sfinae: s.sfinae,
            deduction: true,
        },
    }
}

/// What the candidates from position `k` on were seen to fail in; nothing where one is meant.
pub open spec fn call_failures(
    c: SemaView,
    ds: Seq<DeclView>,
    explicit: Seq<ArgText>,
    ids: Seq<TypeId>,
    k: int,
    s: Seen,
) -> Option<Seen>
    decreases ds.len() - k,
{
    if k < 0 || k >= ds.len() {
        Some(s)
    } else {
        match call_failure(c, ds[k], explicit, ids) {
            None => None,
            Some(f) => call_failures(c, ds, explicit, ids, k + 1, also_seen(s, f)),
        }
    }
}

/// The failure to report, the first of those that say most.
pub open spec fn reported(s: Seen, deduction: bool) -> Option<TemplateCallAnalysis> {
    if s.arity {
        Some(TemplateCallAnalysis { failure: TemplateCallFailure::ExplicitArityMismatch })
    } else if s.non_type {
        Some(TemplateCallAnalysis { failure: TemplateCallFailure::NonTypeArgMismatch })
    } else if s.sfinae {
        Some(TemplateCallAnalysis { failure: TemplateCallFailure::SfinaeRejected })
    } else if deduction {
        Some(TemplateCallAnalysis { failure: TemplateCallFailure::DeductionFail })
    } else {
        None
    }
}

fn report(s: Seen, deduction: bool) -> (r: Option<TemplateCallAnalysis>)
    ensures
        r == reported(s, deduction),
{
    if s.arity {
        Some(TemplateCallAnalysis { failure: TemplateCallFailure::ExplicitArityMismatch })
    } else if s.non_type {
        Some(TemplateCallAnalysis { failure: TemplateCallFailure::NonTypeArgMismatch })
    } else if s.sfinae {
        Some(TemplateCallAnalysis { failure: TemplateCallFailure::SfinaeRejected })
    } else if deduction {
        Some(TemplateCallAnalysis { failure: TemplateCallFailure::DeductionFail })
    } else {
        None
    }
}

/// The name of the template that a callee names.
pub open spec fn callee_name(c: SemaView, t: SyntaxTree, n: usize) -> Option<Seq<char>> {
    let kind = t.at(n).kind;
    let m = if kind == NodeKind::TemplateFunction || kind == NodeKind::TemplateMethod {
        t.by_field(n, FieldName::Name)
    } else if kind == NodeKind::Identifier || kind == NodeKind::FieldIdentifier || kind
        == NodeKind::QualifiedIdentifier {
        Some(n)
    } else {
        None
    };
    match (c.source, m) {
        (Some(_), Some(m)) => match t.text_opt(m) {
            None => None,
            Some(s) => {
                let name = without_args(text::trimmed(s));
                if name.len() == 0 {
                    None
                } else {
                    Some(name)
                }
            },
        },
        _ => None,
    }
}

fn template_callee_name(t: &SyntaxTree, n: usize, ctx: &SemaContext) -> (r: Option<String>)
    requires
        t.has(n),
    ensures
        text::opt_text(r) == callee_name(ctx@, *t, n),
{
    let m: Option<usize> = match t.nodes[n].kind {
        NodeKind::TemplateFunction | NodeKind::TemplateMethod => t.child_by_field(
            n,
            FieldName::Name,
        ),
        NodeKind::Identifier | NodeKind::FieldIdentifier | NodeKind::QualifiedIdentifier => Some(n),
        _ => None,
    };
    match m {
        None => None,
        Some(m) => match ctx.node_text(t, m) {
            None => None,
            Some(s) => {
                let name = strip_template_suffix(text::trim(s));
                if name.is_empty() {
                    None
                } else {
                    Some(text::copy_of(name))
                }
            },
        },
    }
}

/// The arguments written in the first argument list below a callee.
pub open spec fn explicit_args(c: SemaView, t: SyntaxTree, callee: usize) -> Seq<ArgText> {
    match (c.source, t.descendant(callee, NodeKind::TemplateArgumentList)) {
        (Some(_), Some(l)) => written_args(c, t, l, 0),
        _ => Seq::empty(),
    }
}

pub open spec fn explicit_args_of_type(c: SemaView, t: SyntaxTree, n: usize) -> Seq<ArgText> {
    match (c.source, t.by_field(n, FieldName::Arguments)) {
        (Some(_), Some(l)) => written_args(c, t, l, 0),
        _ => Seq::empty(),
    }
}

fn no_args() -> (r: Vec<ExplicitTemplateArg>)
    ensures
        arg_text_views(r@) == Seq::<ArgText>::empty(),
{
    let r: Vec<ExplicitTemplateArg> = Vec::new();
    assert(arg_text_views(r@) =~= Seq::<ArgText>::empty());
    r
}

pub fn explicit_template_args(t: &SyntaxTree, callee: usize, ctx: &SemaContext) -> (r: Vec<
    ExplicitTemplateArg,
>)
    requires
        t.has(callee),
    ensures
        arg_text_views(r@) == explicit_args(ctx@, *t, callee),
{
    match &ctx.source {
        None => no_args(),
        Some(_) => match t.find_descendant(callee, NodeKind::TemplateArgumentList) {
            Some(l) => explicit_template_args_from_arg_list(t, l, ctx),
            None => no_args(),
        },
    }
}

pub fn explicit_template_args_from_type(t: &SyntaxTree, template_type: usize, ctx: &SemaContext) -> (r: Vec<
    ExplicitTemplateArg,
>)
    requires
        t.has(template_type),
    ensures
        arg_text_views(r@) == explicit_args_of_type(ctx@, *t, template_type),
{
    match &ctx.source {
        None => no_args(),
        Some(_) => match t.child_by_field(template_type, FieldName::Arguments) {
            Some(l) => explicit_template_args_from_arg_list(t, l, ctx),
            None => no_args(),
        },
    }
}

/// The node of a call's callee.
pub open spec fn callee_of(t: SyntaxTree, call: usize) -> Option<usize> {
    match t.by_field(call, FieldName::Function) {
        Some(m) => Some(m),
        None => t.child_at(call, 0),
    }
}

pub fn callee_node(t: &SyntaxTree, call: usize) -> (r: Option<usize>)
    requires
        t.has(call),
    ensures
        r == callee_of(*t, call),
        r matches Some(m) ==> t.has(m) && m > call,
{
    match t.child_by_field(call, FieldName::Function) {
        Some(m) => Some(m),
        None => t.child(call, 0),
    }
}

/// What a template call is found to fail in.
pub open spec fn call_analysis(c: SemaView, list: Seq<DeclView>, t: SyntaxTree, call: usize) -> Option<
    TemplateCallAnalysis,
> {
    match callee_of(t, call) {
        None => None,
        Some(callee) => match callee_name(c, t, callee) {
            None => None,
            Some(name) => {
                let ds = candidates(list, name);
                let ids = template_arg_types(c, t, call);
                if ds.len() == 0 {
                    None
                } else {
                    match call_failures(
                        c,
                        ds,
                        explicit_args(c, t, callee),
                        ids,
                        0,
                        nothing_seen(),
                    ) {
                        None => None,
                        Some(s) => reported(
                            s,
                            s.deduction || t.descendant(callee, NodeKind::TemplateArgumentList) is Some
                                || ids.len() > 0,
                        ),
                    }
                }
            },
        },
    }
}

/// The type that a call of this template returns.
pub open spec fn returned_by(c: SemaView, d: DeclView, explicit: Seq<ArgText>, ids: Seq<TypeId>) -> Option<
    TypeId,
> {
    if d.is_explicit_specialization {
        if specialization_failure(c, d, explicit, ids) is Some {
            None
        } else {
            match d.kind {
                DeclKindView::Function { return_pattern, .. } => instantiated(
                    c,
                    return_pattern,
                    Seq::empty(),
                ),
                DeclKindView::Class { .. } => specialized(c, d),
            }
        }
    } else {
        match call_bindings(c, d, explicit, ids) {
            Err(_) => None,
            Ok(b) => match d.kind {
                DeclKindView::Function { return_pattern, .. } => instantiated(c, return_pattern, b),
                DeclKindView::Class { .. } => instance_of(c, d, b),
            },
        }
    }
}

/// The type that the first candidate from position `k` on returns.
pub open spec fn first_returned(
    c: SemaView,
    ds: Seq<DeclView>,
    explicit: Seq<ArgText>,
    ids: Seq<TypeId>,
    k: int,
) -> Option<TypeId>
    decreases ds.len() - k,
{
    if k < 0 || k >= ds.len() {
        None
    } else {
        match returned_by(c, ds[k], explicit, ids) {
            Some(t) => Some(t),
            None => first_returned(c, ds, explicit, ids, k + 1),
        }
    }
}

/// The type that a template call with arguments of these types returns.
pub open spec fn call_return(
    c: SemaView,
    list: Seq<DeclView>,
    t: SyntaxTree,
    call: usize,
    ids: Seq<TypeId>,
) -> Option<TypeId> {
    match callee_of(t, call) {
        None => None,
        Some(callee) => match callee_name(c, t, callee) {
            None => None,
            Some(name) => first_returned(
                c,
                candidates(list, name),
                explicit_args(c, t, callee),
                ids,
                0,
            ),
        },
    }
}

/// What the class templates from position `k` on were seen to fail in.
pub open spec fn usage_failures(ds: Seq<DeclView>, explicit: Seq<ArgText>, k: int, s: Seen) -> Option<Seen>
    decreases ds.len() - k,
{
    if k < 0 || k >= ds.len() {
        Some(s)
    } else if !(ds[k].kind is Class) {
        usage_failures(ds, explicit, k + 1, s)
    } else {
        match usage_failure(ds[k], explicit) {
            None => None,
            Some(f) => usage_failures(ds, explicit, k + 1, also_seen(s, f)),
        }
    }
}

/// The name of the template that a type is an instance of, as written.
pub open spec fn instance_name(c: SemaView, t: SyntaxTree, n: usize) -> Option<Seq<char>> {
    match (c.source, t.by_field(n, FieldName::Name)) {
        (Some(_), Some(m)) => match t.text_opt(m) {
            None => None,
            Some(s) => {
                let name = without_args(text::trimmed(s));
                if name.len() == 0 {
                    None
                } else {
                    Some(name)
                }
            },
        },
        _ => None,
    }
}

/// What an instance of a class template is found to fail in.
pub open spec fn type_analysis(c: SemaView, list: Seq<DeclView>, t: SyntaxTree, n: usize) -> Option<
    TemplateCallAnalysis,
> {
    if t.at(n).kind != NodeKind::TemplateType {
        None
    } else {
        match instance_name(c, t, n) {
            None => None,
            Some(name) => {
                let ds = candidates(list, name);
                if ds.len() == 0 {
                    None
                } else {
                    match usage_failures(ds, explicit_args_of_type(c, t, n), 0, nothing_seen()) {
                        None => None,
                        Some(s) => reported(s, false),
                    }
                }
            },
        }
    }
}

/// The first of several specializations with one key.
pub open spec fn first_of_conflict(list: Seq<DeclView>, k: int) -> bool {
    &&& list[k].is_explicit_specialization
    &&& forall|j: int| 0 <= j < k ==> !#[trigger] specializes_alike(list, j, k)
    &&& exists|j: int| k < j < list.len() && #[trigger] specializes_alike(list, j, k)
}

pub open spec fn specializes_alike(list: Seq<DeclView>, j: int, k: int) -> bool {
    list[j].is_explicit_specialization && list[j].signature_key == list[k].signature_key
}

pub open spec fn conflict_keys(list: Seq<DeclView>, k: int) -> Seq<Seq<char>>
    decreases list.len() - k,
{
    if k < 0 || k >= list.len() {
        Seq::empty()
    } else if first_of_conflict(list, k) {
        seq![list[k].signature_key] + conflict_keys(list, k + 1)
    } else {
        conflict_keys(list, k + 1)
    }
}

pub open spec fn range_of(d: DeclView) -> SourceRange {
    SourceRange { start: d.source, end: d.end_source }
}

/// The places of the specializations with this key from position `k` on.
pub open spec fn places(list: Seq<DeclView>, key: Seq<char>, k: int) -> Seq<(Seq<char>, SourceRange)>
    decreases list.len() - k,
{
    if k < 0 || k >= list.len() {
        Seq::empty()
    } else if list[k].is_explicit_specialization && list[k].signature_key == key {
        seq![(key, range_of(list[k]))] + places(list, key, k + 1)
    } else {
        places(list, key, k + 1)
    }
}

pub open spec fn conflict_places(list: Seq<DeclView>, keys: Seq<Seq<char>>, k: int) -> Seq<
    (Seq<char>, SourceRange),
>
    decreases keys.len() - k,
{
    if k < 0 || k >= keys.len() {
        Seq::empty()
    } else {
        places(list, keys[k], 0) + conflict_places(list, keys, k + 1)
    }
}

pub open spec fn entry_views(v: Seq<(String, SourceRange)>) -> Seq<(Seq<char>, SourceRange)> {
    v.map_values(|e: (String, SourceRange)| (e.0@, e.1))
}

fn collect_template_decls(t: &SyntaxTree, n: usize, ctx: &SemaContext, out: &mut Vec<TemplateDecl>)
    requires
        t.has(n),
    ensures
        decl_views(final(out)@) == decl_views(old(out)@) + collected(ctx@, *t, n),
    decreases t.nodes@.len() - n,
{
    let ghost start = decl_views(out@);
    if t.nodes[n].kind == NodeKind::TemplateDeclaration {
        match parse_template_decl(t, n, ctx) {
            Some(d) => {
                out.push(d);
                assert(decl_views(out@) =~= start.push(d@));
            },
            None => {},
        }
    }
    assert(decl_views(out@) =~= start + declared_at(ctx@, *t, n));
    let c: usize = t.nodes[n].children.len();
    let mut k: usize = 0;
    while k < c
        invariant
            t.has(n),
            c == t.kids(n).len(),
            k <= c,
            start + collected(ctx@, *t, n) =~= decl_views(out@) + collected_from(
                ctx@,
                *t,
                n,
                k as int,
            ),
        decreases c - k,
    {
        let child: usize = t.nodes[n].children[k];
        assert(child == t.kids(n)[k as int]);
        collect_template_decls(t, child, ctx, out);
        k = k + 1;
    }
    assert(decl_views(out@) =~= start + collected(ctx@, *t, n));
}

impl TemplateIndex {
    pub fn collect(t: &SyntaxTree, root: usize, ctx: &SemaContext) -> (r: Self)
        requires
            t.has(root),
        ensures
            r@ == collected(ctx@, *t, root),
    {
        let mut decls: Vec<TemplateDecl> = Vec::new();
        assert(decl_views(decls@) =~= Seq::<DeclView>::empty());
        collect_template_decls(t, root, ctx, &mut decls);
        assert(Seq::<DeclView>::empty() + collected(ctx@, *t, root) =~= collected(ctx@, *t, root));
        TemplateIndex { decls }
    }

    fn choose_decls(&self, name: &str, explicit: bool) -> (r: Vec<usize>)
        ensures
            forall|j: int| 0 <= j < r@.len() ==> #[trigger] r@[j] < self.decls@.len(),
            r@.map_values(|i: usize| self@[i as int]) == chosen(self@, name@, explicit, 0),
    {
        let ghost list = self@;
        let mut r: Vec<usize> = Vec::new();
        let n: usize = self.decls.len();
        let mut i: usize = 0;
        assert(r@.map_values(|i: usize| list[i as int]) =~= Seq::<DeclView>::empty());
        while i < n
            invariant
                list == self@,
                n == self.decls@.len(),
                i <= n,
                forall|j: int| 0 <= j < r@.len() ==> #[trigger] r@[j] < n,
                chosen(list, name@, explicit, 0) =~= r@.map_values(|i: usize| list[i as int])
                    + chosen(list, name@, explicit, i as int),
            decreases n - i,
        {
            assert(list[i as int] == self.decls@[i as int]@);
            let ghost before = r@.map_values(|i: usize| list[i as int]);
            let d = &self.decls[i];
            if (text::same(&d.name, name) || text::same(short_name_of(&d.name), name))
                && d.is_explicit_specialization == explicit {
                r.push(i);
                assert(r@.map_values(|i: usize| list[i as int]) =~= before.push(list[i as int]));
            }
            i = i + 1;
        }
        assert(r@.map_values(|i: usize| list[i as int]) =~= chosen(list, name@, explicit, 0));
        r
    }

    fn ordered_template_decls(&self, name: &str) -> (r: Vec<usize>)
        ensures
            forall|j: int| 0 <= j < r@.len() ==> #[trigger] r@[j] < self.decls@.len(),
            r@.map_values(|i: usize| self@[i as int]) == candidates(self@, name@),
    {
        let mut r = self.choose_decls(name, true);
        let mut rest = self.choose_decls(name, false);
        let ghost a = r@;
        let ghost b = rest@;
        r.append(&mut rest);
        assert(r@.map_values(|i: usize| self@[i as int]) =~= a.map_values(
            |i: usize| self@[i as int],
        ) + b.map_values(|i: usize| self@[i as int]));
        r
    }

    pub fn analyze_call(&self, t: &SyntaxTree, call: usize, ctx: &SemaContext) -> (r: Option<
        TemplateCallAnalysis,
    >)
        requires
            t.has(call),
        ensures
            r == call_analysis(ctx@, self@, *t, call),
    {
        let callee = match callee_node(t, call) {
            Some(m) => m,
            None => {
                return None;
            },
        };
        let name = match template_callee_name(t, callee, ctx) {
            Some(s) => s,
            None => {
                return None;
            },
        };
        let order = self.ordered_template_decls(&name);
        let ghost ds = candidates(self@, name@);
        assert(order@.map_values(|i: usize| self@[i as int]).len() == order@.len());
        let n: usize = order.len();
        if n == 0 {
            return None;
        }
        let explicit = explicit_template_args(t, callee, ctx);
        let ids = template_argument_types(ctx, t, call);
        let ghost e = arg_text_views(explicit@);
        let mut s = Seen { arity: false, non_type: false, sfinae: false, deduction: false };
        let mut i: usize = 0;
        while i < n
            invariant
                n == order@.len(),
                n == ds.len(),
                i <= n,
                forall|j: int| 0 <= j < order@.len() ==> #[trigger] order@[j] < self.decls@.len(),
                order@.map_values(|i: usize| self@[i as int]) == ds,
                e == arg_text_views(explicit@),
                call_failures(ctx@, ds, e, ids@, 0, nothing_seen()) == call_failures(
                    ctx@,
                    ds,
                    e,
                    ids@,
                    i as int,
                    s,
                ),
                call_failures(ctx@, ds, e, ids@, 0, nothing_seen()) is None ==> call_analysis(
                    ctx@,
                    self@,
                    *t,
                    call,
                ) is None,
            decreases n - i,
        {
            assert(ds[i as int] == order@.map_values(|i: usize| self@[i as int])[i as int]);
            let d = &self.decls[order[i]];
            assert(d@ == ds[i as int]);
            match analyze_decl_call(d, &explicit, &ids, ctx) {
                None => {
                    return None;
                },
                Some(f) => {
                    s = see(s, f);
                },
            }
            i = i + 1;
        }
        let listed = match t.find_descendant(callee, NodeKind::TemplateArgumentList) {
            Some(_) => true,
            None => false,
        };
        report(s, s.deduction || listed || ids.len() > 0)
    }

    pub fn infer_with_types(&self, t: &SyntaxTree, call: usize, ctx: &SemaContext, ids: &Vec<TypeId>) -> (r:
        Option<TypeId>)
        requires
            t.has(call),
        ensures
            r == call_return(ctx@, self@, *t, call, ids@),
    {
        let callee = match callee_node(t, call) {
            Some(m) => m,
            None => {
                return None;
            },
        };
        let name = match template_callee_name(t, callee, ctx) {
            Some(s) => s,
            None => {
                return None;
            },
        };
        let order = self.ordered_template_decls(&name);
        let ghost ds = candidates(self@, name@);
        assert(order@.map_values(|i: usize| self@[i as int]).len() == order@.len());
        let explicit = explicit_template_args(t, callee, ctx);
        let ghost e = arg_text_views(explicit@);
        let n: usize = order.len();
        let mut i: usize = 0;
        while i < n
            invariant
                n == order@.len(),
                n == ds.len(),
                i <= n,
                forall|j: int| 0 <= j < order@.len() ==> #[trigger] order@[j] < self.decls@.len(),
                order@.map_values(|i: usize| self@[i as int]) == ds,
                e == arg_text_views(explicit@),
                call_return(ctx@, self@, *t, call, ids@) == first_returned(
                    ctx@,
                    ds,
                    e,
                    ids@,
                    i as int,
                ),
            decreases n - i,
        {
            assert(ds[i as int] == order@.map_values(|i: usize| self@[i as int])[i as int]);
            let d = &self.decls[order[i]];
            assert(d@ == ds[i as int]);
            match return_of_decl(d, &explicit, ids, ctx) {
                Some(found) => {
                    return Some(found);
                },
                None => {},
            }
            i = i + 1;
        }
        None
    }

    pub fn infer_call_return_type(&self, t: &SyntaxTree, call: usize, ctx: &SemaContext) -> (r: Option<
        TypeId,
    >)
        requires
            t.has(call),
        ensures
            r == call_return(ctx@, self@, *t, call, template_arg_types(ctx@, *t, call)),
    {
        let ids = template_argument_types(ctx, t, call);
        self.infer_with_types(t, call, ctx, &ids)
    }

    pub fn analyze_template_type(&self, t: &SyntaxTree, n: usize, ctx: &SemaContext) -> (r: Option<
        TemplateCallAnalysis,
    >)
        requires
            t.has(n),
        ensures
            r == type_analysis(ctx@, self@, *t, n),
    {
        if t.nodes[n].kind != NodeKind::TemplateType {
            return None;
        }
        let m = match t.child_by_field(n, FieldName::Name) {
            Some(m) => m,
            None => {
                return None;
            },
        };
        let name = match ctx.node_text(t, m) {
            Some(s) => strip_template_suffix(text::trim(s)),
            None => {
                return None;
            },
        };
        if name.is_empty() {
            return None;
        }
        let order = self.ordered_template_decls(name);
        let ghost ds = candidates(self@, name@);
        assert(order@.map_values(|i: usize| self@[i as int]).len() == order@.len());
        let c: usize = order.len();
        if c == 0 {
            return None;
        }
        let explicit = explicit_template_args_from_type(t, n, ctx);
        let ghost e = arg_text_views(explicit@);
        let mut s = Seen { arity: false, non_type: false, sfinae: false, deduction: false };
        let mut i: usize = 0;
        while i < c
            invariant
                c == order@.len(),
                c == ds.len(),
                i <= c,
                forall|j: int| 0 <= j < order@.len() ==> #[trigger] order@[j] < self.decls@.len(),
                order@.map_values(|i: usize| self@[i as int]) == ds,
                e == arg_text_views(explicit@),
                usage_failures(ds, e, 0, nothing_seen()) == usage_failures(ds, e, i as int, s),
                usage_failures(ds, e, 0, nothing_seen()) is None ==> type_analysis(
                    ctx@,
                    self@,
                    *t,
                    n,
                ) is None,
            decreases c - i,
        {
            assert(ds[i as int] == order@.map_values(|i: usize| self@[i as int])[i as int]);
            let d = &self.decls[order[i]];
            assert(d@ == ds[i as int]);
            let is_class = match &d.kind {
                TemplateDeclKind::Class { .. } => true,
                TemplateDeclKind::Function { .. } => false,
            };
            if is_class {
                match analyze_class_template_usage(d, &explicit) {
                    None => {
                        return None;
                    },
                    Some(f) => {
                        s = see(s, f);
                    },
                }
            }
            i = i + 1;
        }
        report(s, false)
    }

    fn starts_conflict(&self, k: usize) -> (r: bool)
        requires
            k < self.decls@.len(),
        ensures
            r == first_of_conflict(self@, k as int),
    {
        let ghost list = self@;
        assert(list[k as int] == self.decls@[k as int]@);
        if !self.decls[k].is_explicit_specialization {
            return false;
        }
        let n: usize = self.decls.len();
        let mut i: usize = 0;
        while i < k
            invariant
                list == self@,
                n == self.decls@.len(),
                k < n,
                i <= k,
                forall|j: int| 0 <= j < i ==> !#[trigger] specializes_alike(list, j, k as int),
            decreases k - i,
        {
            assert(list[i as int] == self.decls@[i as int]@);
            assert(list[k as int] == self.decls@[k as int]@);
            if self.decls[i].is_explicit_specialization && text::same(
                &self.decls[i].signature_key,
                &self.decls[k].signature_key,
            ) {
                assert(specializes_alike(list, i as int, k as int));
                return false;
            }
            i = i + 1;
        }
        let mut i: usize = k + 1;
        while i < n
            invariant
                list == self@,
                n == self.decls@.len(),
                k < i <= n,
                list[k as int].is_explicit_specialization,
                forall|j: int| 0 <= j < k ==> !#[trigger] specializes_alike(list, j, k as int),
                forall|j: int| k < j < i ==> !#[trigger] specializes_alike(list, j, k as int),
            decreases n - i,
        {
            assert(list[i as int] == self.decls@[i as int]@);
            assert(list[k as int] == self.decls@[k as int]@);
            if self.decls[i].is_explicit_specialization && text::same(
                &self.decls[i].signature_key,
                &self.decls[k].signature_key,
            ) {
                assert(specializes_alike(list, i as int, k as int));
                return true;
            }
            i = i + 1;
        }
        false
    }

    pub fn specialization_conflicts(&self) -> (r: Vec<String>)
        ensures
            text::texts(r@) == conflict_keys(self@, 0),
    {
        let mut r: Vec<String> = Vec::new();
        let n: usize = self.decls.len();
        let mut i: usize = 0;
        assert(text::texts(r@) =~= Seq::<Seq<char>>::empty());
        while i < n
            invariant
                n == self.decls@.len(),
                i <= n,
                conflict_keys(self@, 0) =~= text::texts(r@) + conflict_keys(self@, i as int),
            decreases n - i,
        {
            let ghost before = text::texts(r@);
            if self.starts_conflict(i) {
                r.push(text::copy_of(&self.decls[i].signature_key));
                assert(text::texts(r@) =~= before.push(self@[i as int].signature_key));
            }
            i = i + 1;
        }
        assert(text::texts(r@) =~= conflict_keys(self@, 0));
        r
    }

    pub fn specialization_conflict_entries(&self) -> (r: Vec<(String, SourceRange)>)
        ensures
            entry_views(r@) == conflict_places(self@, conflict_keys(self@, 0), 0),
    {
        let keys = self.specialization_conflicts();
        let ghost kk = text::texts(keys@);
        let mut r: Vec<(String, SourceRange)> = Vec::new();
        let m: usize = keys.len();
        let n: usize = self.decls.len();
        let mut k: usize = 0;
        assert(entry_views(r@) =~= Seq::<(Seq<char>, SourceRange)>::empty());
        while k < m
            invariant
                kk == text::texts(keys@),
                m == keys@.len(),
                n == self.decls@.len(),
                k <= m,
                conflict_places(self@, kk, 0) =~= entry_views(r@) + conflict_places(
                    self@,
                    kk,
                    k as int,
                ),
            decreases m - k,
        {
            let ghost key = kk[k as int];
            let ghost done = entry_views(r@);
            let mut i: usize = 0;
            while i < n
                invariant
                    kk == text::texts(keys@),
                    k < m,
                    m == keys@.len(),
                    n == self.decls@.len(),
                    i <= n,
                    key == kk[k as int],
                    done + places(self@, key, 0) =~= entry_views(r@) + places(
                        self@,
                        key,
                        i as int,
                    ),
                decreases n - i,
            {
                assert(self@[i as int] == self.decls@[i as int]@);
                assert(key == keys@[k as int]@);
                let ghost before = entry_views(r@);
                let d = &self.decls[i];
                if d.is_explicit_specialization && text::same(&d.signature_key, &keys[k]) {
                    let range = SourceRange { start: d.source, end: d.end_source };
                    r.push((text::copy_of(&keys[k]), range));
                    assert(entry_views(r@) =~= before.push((key, range)));
                }
                i = i + 1;
            }
            assert(entry_views(r@) =~= done + places(self@, key, 0));
            k = k + 1;
        }
        assert(entry_views(r@) =~= conflict_places(self@, kk, 0));
        r
    }
}

fn return_of_decl(
    d: &TemplateDecl,
    explicit: &Vec<ExplicitTemplateArg>,
    ids: &Vec<TypeId>,
    ctx: &SemaContext,
) -> (r: Option<TypeId>)
    ensures
        r == returned_by(ctx@, d@, arg_text_views(explicit@), ids@),
{
    if d.is_explicit_specialization {
        match analyze_explicit_specialization_call(d, explicit, ids, ctx) {
            Some(_) => {
                return None;
            },
            None => {},
        }
        return match &d.kind {
            TemplateDeclKind::Function { return_pattern, .. } => instantiate_return_pattern(
                return_pattern,
                &no_bindings(),
                ctx,
            ),
            TemplateDeclKind::Class { .. } => instantiate_specialization_decl_type(d, ctx),
        };
    }
    match bind_decl_call(d, explicit, ids, ctx) {
        Err(_) => None,
        Ok(b) => match &d.kind {
            TemplateDeclKind::Function { return_pattern, .. } => instantiate_return_pattern(
                return_pattern,
                &b,
                ctx,
            ),
            TemplateDeclKind::Class { .. } => instantiate_decl_type(d, &b, ctx),
        },
    }
}

// ---------------------------------------------------------------------------
// What holds of bindings
// ---------------------------------------------------------------------------
/// What a parameter stands for already, it stands for afterwards.
pub open spec fn keeps(b: Seq<(Seq<char>, BindingShape)>, next: Seq<(Seq<char>, BindingShape)>) -> bool {
    forall|name: Seq<char>|
        (#[trigger] stands_for(b, name)) is Some ==> stands_for(next, name) == stands_for(b, name)
}

/// A parameter stands for what it was bound to, and the others for what they did.
pub proof fn binding_is_read_back(
    b: Seq<(Seq<char>, BindingShape)>,
    name: Seq<char>,
    s: BindingShape,
    other: Seq<char>,
)
    ensures
        stands_for(with_binding(b, name, s), other) == if other == name {
            Some(s)
        } else {
            stands_for(b, other)
        },
{
    let w = with_binding(b, name, s);
    let i = key_position(b, name, 0);
    lemma_key_position(b, name, 0);
    lemma_key_position(b, other, 0);
    lemma_key_position(w, other, 0);
    let x = key_position(b, other, 0);
    let y = key_position(w, other, 0);
    if other == name {
        assert(w[i].0 == name);
        if y < i {
            assert(w[y] == b[y]);
        }
    } else if x < b.len() {
        assert(w[x] == b[x]);
        if y < x {
            assert(y != i);
            assert(w[y] == b[y]);
        }
    } else if y < w.len() {
        assert(y != i);
        assert(w[y] == b[y]);
    }
}

proof fn lemma_new_binding_keeps(b: Seq<(Seq<char>, BindingShape)>, name: Seq<char>, s: BindingShape)
    requires
        stands_for(b, name) is None,
    ensures
        keeps(b, with_binding(b, name, s)),
{
    assert forall|other: Seq<char>| (#[trigger] stands_for(b, other)) is Some implies stands_for(
        with_binding(b, name, s),
        other,
    ) == stands_for(b, other) by {
        binding_is_read_back(b, name, s, other);
    }
}

proof fn lemma_matched_keeps(c: SemaView, p: PatternShape, id: TypeId, b: Seq<(Seq<char>, BindingShape)>)
    ensures
        matched(c, p, id, b) matches Some(next) ==> keeps(b, next),
    decreases p, 0nat,
{
    match p {
        PatternShape::TemplateParam(name) => {
            if stands_for(b, name) is None {
                lemma_new_binding_keeps(b, name, BindingShape::Type(id));
            }
        },
        PatternShape::Reference(inner) => {
            lemma_matched_keeps(c, *inner, id, b);
        },
        PatternShape::Pointer(inner) => {
            if let Some(TypeShape::Pointer { pointee, .. }) = c.kind(id) {
                lemma_matched_keeps(c, *inner, pointee, b);
            }
        },
        PatternShape::TemplateInstance { base, args } => {
            if let Some(TypeShape::Template { base: actual, args: list }) = c.kind(id) {
                lemma_matched_args_keeps(c, args, list, 0, b);
            }
        },
        _ => {},
    }
}

proof fn lemma_matched_args_keeps(
    c: SemaView,
    args: Seq<PatternShape>,
    list: Seq<ArgShape>,
    k: int,
    b: Seq<(Seq<char>, BindingShape)>,
)
    ensures
        matched_args(c, args, list, k, b) matches Some(next) ==> keeps(b, next),
    decreases args, args.len() - k,
{
    if 0 <= k < args.len() && k < list.len() {
        match (args[k], list[k]) {
            (_, ArgShape::Type(t)) => {
                lemma_matched_keeps(c, args[k], t, b);
                if let Some(next) = matched(c, args[k], t, b) {
                    lemma_matched_args_keeps(c, args, list, k + 1, next);
                }
            },
            (PatternShape::NonTypeParam(name), ArgShape::Value(v)) => {
                if stands_for(b, name) is None {
                    lemma_new_binding_keeps(b, name, BindingShape::Value(v));
                }
                if let Some(next) = bound_value(name, v, b) {
                    lemma_matched_args_keeps(c, args, list, k + 1, next);
                }
            },
            _ => {
                lemma_matched_args_keeps(c, args, list, k + 1, b);
            },
        }
    }
}

/// Deduction from the arguments of a call changes nothing that a parameter stands for already.
pub proof fn deduction_keeps_bindings(
    c: SemaView,
    patterns: Seq<PatternShape>,
    ids: Seq<TypeId>,
    k: int,
    b: Seq<(Seq<char>, BindingShape)>,
)
    ensures
        all_matched(c, patterns, ids, k, b) matches Some(next) ==> keeps(b, next),
    decreases patterns.len() - k,
{
    if 0 <= k < patterns.len() && k < ids.len() {
        lemma_matched_keeps(c, patterns[k], ids[k], b);
        if let Some(next) = matched(c, patterns[k], ids[k], b) {
            deduction_keeps_bindings(c, patterns, ids, k + 1, next);
        }
    }
}

proof fn lemma_constructed_keeps(
    c: SemaView,
    constructors: Seq<Seq<PatternShape>>,
    ids: Seq<TypeId>,
    k: int,
    b: Seq<(Seq<char>, BindingShape)>,
)
    ensures
        constructed_from(c, constructors, ids, k, b) matches Some(next) ==> keeps(b, next),
    decreases constructors.len() - k,
{
    if 0 <= k < constructors.len() {
        deduction_keeps_bindings(c, constructors[k], ids, 0, b);
        lemma_constructed_keeps(c, constructors, ids, k + 1, b);
    }
}

proof fn lemma_defaults_keep(
    c: SemaView,
    params: Seq<TemplateParamView>,
    k: int,
    b: Seq<(Seq<char>, BindingShape)>,
)
    ensures
        with_defaults(c, params, k, b) matches Ok(next) ==> keeps(b, next),
    decreases params.len() - k,
{
    if 0 <= k < params.len() {
        match (stands_for(b, name_of_param(params[k])), default_of(params[k])) {
            (None, Some(a)) => {
                if let Ok(next) = with_arg(c, params[k], a, b) {
                    let name = name_of_param(params[k]);
                    assert(exists|s: BindingShape| next == with_binding(b, name, s));
                    let s = choose|s: BindingShape| next == with_binding(b, name, s);
                    lemma_new_binding_keeps(b, name, s);
                    lemma_defaults_keep(c, params, k + 1, next);
                }
            },
            _ => {
                lemma_defaults_keep(c, params, k + 1, b);
            },
        }
    }
}

proof fn lemma_all_bound(
    params: Seq<TemplateParamView>,
    k: int,
    b: Seq<(Seq<char>, BindingShape)>,
    guarded: bool,
    i: int,
)
    requires
        0 <= k <= i < params.len(),
        unbound(params, k, b, guarded) is None,
    ensures
        stands_for(b, name_of_param(params[i])) is Some,
    decreases params.len() - k,
{
    if k < i {
        lemma_all_bound(params, k + 1, b, guarded, i);
    }
}

/// A call that is accepted leaves no parameter without a meaning, and an argument that was given
/// explicitly is never overridden, neither by deduction nor by a default.
pub proof fn accepted_call_binds_every_parameter(
    c: SemaView,
    d: DeclView,
    explicit: Seq<ArgText>,
    ids: Seq<TypeId>,
    i: int,
)
    requires
        call_bindings(c, d, explicit, ids) is Ok,
        0 <= i < d.params.len(),
    ensures
        stands_for(call_bindings(c, d, explicit, ids)->Ok_0, name_of_param(d.params[i])) is Some,
        with_explicit(c, d.params, explicit, 0, Seq::empty()) is Ok,
        keeps(
            with_explicit(c, d.params, explicit, 0, Seq::empty())->Ok_0,
            call_bindings(c, d, explicit, ids)->Ok_0,
        ),
{
    let b = with_explicit(c, d.params, explicit, 0, Seq::empty())->Ok_0;
    let last = call_bindings(c, d, explicit, ids)->Ok_0;
    match d.kind {
        DeclKindView::Function { function_params, .. } => {
            deduction_keeps_bindings(c, function_params, ids, 0, b);
            let b1 = all_matched(c, function_params, ids, 0, b)->0;
            lemma_defaults_keep(c, d.params, explicit.len() as int, b1);
            assert(keeps(b, b1) && keeps(b1, last));
        },
        DeclKindView::Class { constructors } => {
            lemma_constructed_keeps(c, constructors, ids, 0, b);
            let b1 = constructed(c, d.params, constructors, ids, b)->0;
            lemma_defaults_keep(c, d.params, explicit.len() as int, b1);
            assert(keeps(b, b1) && keeps(b1, last));
        },
    }
    lemma_all_bound(d.params, 0, last, d.is_sfinae_guarded, i);
}

} // verus!
