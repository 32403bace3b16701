//! What a call of a template means, and what is reported where it means none.
use vstd::prelude::*;

use super::declare::{is_enable_if, DeclKindView, DeclView};
use super::expr::template_arg_types;
use super::pattern::{ArgText, PatternShape, TemplateParamView};
use super::syntax::{NodeKind, SyntaxTree};
use super::template::{
    all_matched, also_seen, binding_is_read_back, call_analysis, call_bindings, call_failure,
    call_failures, call_return, callee_name, callee_of, candidates, chosen, condition_truth, explicit_args,
    explicit_args_of_type, first_returned, instance_name, instantiated, matched, nothing_seen, returned_by,
    stands_for, type_analysis, unbound, usage_failure, usage_failures, value_fits, with_binding,
    with_defaults, with_explicit, BindingShape, Seen, TemplateCallFailure,
};
use super::types::{TypeId, TypeShape};
use super::{equivalent, SemaView};
use crate::text;

verus! {

// ---------------------------------------------------------------------------
// Candidates
// ---------------------------------------------------------------------------
/// The template bears the name, alone or behind the names of scopes.
pub open spec fn bears(d: DeclView, name: Seq<char>) -> bool {
    d.name == name || text::last_segment(d.name, "::"@) == name
}

proof fn lemma_chosen(list: Seq<DeclView>, name: Seq<char>, explicit: bool, k: int, d: DeclView)
    requires
        0 <= k <= list.len(),
    ensures
        chosen(list, name, explicit, k).contains(d) <==> bears(d, name)
            && d.is_explicit_specialization == explicit && exists|i: int|
            k <= i < list.len() && #[trigger] list[i] == d,
    decreases list.len() - k,
{
    if k < list.len() {
        lemma_chosen(list, name, explicit, k + 1, d);
        let rest = chosen(list, name, explicit, k + 1);
        let all = chosen(list, name, explicit, k);
        if bears(list[k], name) && list[k].is_explicit_specialization == explicit {
            assert(all == seq![list[k]] + rest);
            if list[k] == d {
                assert(all[0] == d);
            }
            if rest.contains(d) {
                let m = choose|m: int| 0 <= m < rest.len() && rest[m] == d;
                assert(all[m + 1] == d);
            }
            if all.contains(d) {
                let m = choose|m: int| 0 <= m < all.len() && all[m] == d;
                if m > 0 {
                    assert(rest[m - 1] == d);
                }
            }
        }
    }
}

/// A name stands for every template that bears it, and explicit specializations are tried before
/// all others.
pub proof fn specializations_are_tried_first(list: Seq<DeclView>, name: Seq<char>)
    ensures
        forall|d: DeclView| #[trigger]
            candidates(list, name).contains(d) <==> list.contains(d) && bears(d, name),
        forall|i: int, j: int|
            0 <= i < j < candidates(list, name).len() && (#[trigger] candidates(
                list,
                name,
            )[j]).is_explicit_specialization ==> (#[trigger] candidates(
                list,
                name,
            )[i]).is_explicit_specialization,
{
    let a = chosen(list, name, true, 0);
    let b = chosen(list, name, false, 0);
    let all = candidates(list, name);
    assert forall|d: DeclView| #[trigger] all.contains(d) <==> list.contains(d) && bears(d, name) by {
        lemma_chosen(list, name, true, 0, d);
        lemma_chosen(list, name, false, 0, d);
        if a.contains(d) {
            let i = choose|i: int| 0 <= i < a.len() && a[i] == d;
            assert(all[i] == d);
        }
        if b.contains(d) {
            let i = choose|i: int| 0 <= i < b.len() && b[i] == d;
            assert(all[a.len() + i] == d);
        }
        if all.contains(d) {
            let i = choose|i: int| 0 <= i < all.len() && all[i] == d;
            if i < a.len() {
                assert(a[i] == d);
            } else {
                assert(b[i - a.len()] == d);
            }
        }
    }
    assert forall|i: int, j: int|
        0 <= i < j < all.len() && (#[trigger] all[j]).is_explicit_specialization implies (
    #[trigger] all[i]).is_explicit_specialization by {
        if j >= a.len() {
            let d = all[j];
            assert(b[j - a.len()] == d);
            lemma_chosen(list, name, false, 0, d);
        }
        let d = all[i];
        assert(a[i] == d);
        lemma_chosen(list, name, true, 0, d);
    }
}

// ---------------------------------------------------------------------------
// What is reported
// ---------------------------------------------------------------------------
/// Some candidate from position `k` on is not meant for this reason.
pub open spec fn fails_with(
    c: SemaView,
    ds: Seq<DeclView>,
    explicit: Seq<ArgText>,
    ids: Seq<TypeId>,
    k: int,
    f: TemplateCallFailure,
) -> bool {
    exists|i: int|
        k <= i < ds.len() && call_failure(c, #[trigger] ds[i], explicit, ids) == Some(f)
}

proof fn lemma_call_failures(
    c: SemaView,
    ds: Seq<DeclView>,
    explicit: Seq<ArgText>,
    ids: Seq<TypeId>,
    k: int,
    s: Seen,
)
    requires
        0 <= k <= ds.len(),
    ensures
        match call_failures(c, ds, explicit, ids, k, s) {
            None => exists|i: int|
                k <= i < ds.len() && call_failure(c, #[trigger] ds[i], explicit, ids) is None,
            Some(r) => {
                &&& forall|i: int|
                    k <= i < ds.len() ==> call_failure(c, #[trigger] ds[i], explicit, ids) is Some
                &&& r.arity <==> s.arity || fails_with(
                    c,
                    ds,
                    explicit,
                    ids,
                    k,
                    TemplateCallFailure::ExplicitArityMismatch,
                )
                &&& r.non_type <==> s.non_type || fails_with(
                    c,
                    ds,
                    explicit,
                    ids,
                    k,
                    TemplateCallFailure::NonTypeArgMismatch,
                )
                &&& r.sfinae <==> s.sfinae || fails_with(
                    c,
                    ds,
                    explicit,
                    ids,
                    k,
                    TemplateCallFailure::SfinaeRejected,
                )
                &&& r.deduction <==> s.deduction || fails_with(
                    c,
                    ds,
                    explicit,
                    ids,
                    k,
                    TemplateCallFailure::DeductionFail,
                )
            },
        },
    decreases ds.len() - k,
{
    if k < ds.len() {
        match call_failure(c, ds[k], explicit, ids) {
            None => {
                assert(call_failure(c, ds[k], explicit, ids) is None);
            },
            Some(f) => {
                lemma_call_failures(c, ds, explicit, ids, k + 1, also_seen(s, f));
                assert forall|g: TemplateCallFailure| #[trigger]
                    fails_with(c, ds, explicit, ids, k, g) <==> f == g || fails_with(
                        c,
                        ds,
                        explicit,
                        ids,
                        k + 1,
                        g,
                    ) by {
                    if f == g {
                        assert(call_failure(c, ds[k], explicit, ids) == Some(g));
                    }
                    if fails_with(c, ds, explicit, ids, k + 1, g) {
                        let i = choose|i: int|
                            k + 1 <= i < ds.len() && call_failure(c, #[trigger] ds[i], explicit, ids)
                                == Some(g);
                        assert(call_failure(c, ds[i], explicit, ids) == Some(g));
                    }
                }
            },
        }
    }
}

/// A call of a template is found to fail only where no template of the name is meant. What is
/// reported is a wrong number of arguments where one of them fails in that, else a wrong value, else
/// a rejected substitution, and only else that nothing could be deduced.
pub proof fn the_plainest_failure_is_reported(
    c: SemaView,
    list: Seq<DeclView>,
    t: SyntaxTree,
    call: usize,
    callee: usize,
    name: Seq<char>,
)
    requires
        callee_of(t, call) == Some(callee),
        callee_name(c, t, callee) == Some(name),
    ensures
        ({
            let ds = candidates(list, name);
            let explicit = explicit_args(c, t, callee);
            let ids = template_arg_types(c, t, call);
            let arity = fails_with(
                c,
                ds,
                explicit,
                ids,
                0,
                TemplateCallFailure::ExplicitArityMismatch,
            );
            let value = fails_with(c, ds, explicit, ids, 0, TemplateCallFailure::NonTypeArgMismatch);
            let sfinae = fails_with(c, ds, explicit, ids, 0, TemplateCallFailure::SfinaeRejected);
            match call_analysis(c, list, t, call) {
                None => ds.len() == 0 || exists|i: int|
                    0 <= i < ds.len() && call_failure(c, #[trigger] ds[i], explicit, ids) is None,
                Some(a) => {
                    &&& forall|i: int|
                        0 <= i < ds.len() ==> call_failure(c, #[trigger] ds[i], explicit, ids) is Some
                    &&& a.failure == TemplateCallFailure::ExplicitArityMismatch <==> arity
                    &&& a.failure == TemplateCallFailure::NonTypeArgMismatch <==> !arity && value
                    &&& a.failure == TemplateCallFailure::SfinaeRejected <==> !arity && !value
                        && sfinae
                },
            }
        }),
{
    let ds = candidates(list, name);
    let explicit = explicit_args(c, t, callee);
    let ids = template_arg_types(c, t, call);
    lemma_call_failures(c, ds, explicit, ids, 0, nothing_seen());
    if ds.len() > 0 {
        assert(ds[0] == ds[0]);
        if call_failures(c, ds, explicit, ids, 0, nothing_seen()) is Some {
            let f = call_failure(c, ds[0], explicit, ids)->0;
            assert(fails_with(c, ds, explicit, ids, 0, f));
        }
    }
}

/// Some class template from position `k` on is not meant for this reason.
pub open spec fn misused_with(
    ds: Seq<DeclView>,
    explicit: Seq<ArgText>,
    k: int,
    f: TemplateCallFailure,
) -> bool {
    exists|i: int|
        k <= i < ds.len() && (#[trigger] ds[i]).kind is Class && usage_failure(ds[i], explicit)
            == Some(f)
}

proof fn lemma_usage_failures(ds: Seq<DeclView>, explicit: Seq<ArgText>, k: int, s: Seen)
    requires
        0 <= k <= ds.len(),
    ensures
        match usage_failures(ds, explicit, k, s) {
            None => exists|i: int|
                k <= i < ds.len() && (#[trigger] ds[i]).kind is Class && usage_failure(
                    ds[i],
                    explicit,
                ) is None,
            Some(r) => {
                &&& forall|i: int|
                    k <= i < ds.len() && (#[trigger] ds[i]).kind is Class ==> usage_failure(
                        ds[i],
                        explicit,
                    ) is Some
                &&& r.arity <==> s.arity || misused_with(
                    ds,
                    explicit,
                    k,
                    TemplateCallFailure::ExplicitArityMismatch,
                )
                &&& r.non_type <==> s.non_type || misused_with(
                    ds,
                    explicit,
                    k,
                    TemplateCallFailure::NonTypeArgMismatch,
                )
                &&& r.sfinae <==> s.sfinae || misused_with(
                    ds,
                    explicit,
                    k,
                    TemplateCallFailure::SfinaeRejected,
                )
            },
        },
    decreases ds.len() - k,
{
    if k < ds.len() {
        if !(ds[k].kind is Class) {
            lemma_usage_failures(ds, explicit, k + 1, s);
            assert forall|g: TemplateCallFailure| #[trigger]
                misused_with(ds, explicit, k, g) <==> misused_with(ds, explicit, k + 1, g) by {
                if misused_with(ds, explicit, k + 1, g) {
                    let i = choose|i: int|
                        k + 1 <= i < ds.len() && (#[trigger] ds[i]).kind is Class && usage_failure(
                            ds[i],
                            explicit,
                        ) == Some(g);
                    assert(ds[i].kind is Class);
                }
            }
        } else {
            match usage_failure(ds[k], explicit) {
                None => {
                    assert(ds[k].kind is Class);
                },
                Some(f) => {
                    lemma_usage_failures(ds, explicit, k + 1, also_seen(s, f));
                    assert forall|g: TemplateCallFailure| #[trigger]
                        misused_with(ds, explicit, k, g) <==> f == g || misused_with(
                            ds,
                            explicit,
                            k + 1,
                            g,
                        ) by {
                        if f == g {
                            assert(ds[k].kind is Class);
                        }
                        if misused_with(ds, explicit, k + 1, g) {
                            let i = choose|i: int|
                                k + 1 <= i < ds.len() && (#[trigger] ds[i]).kind is Class
                                    && usage_failure(ds[i], explicit) == Some(g);
                            assert(ds[i].kind is Class);
                        }
                    }
                },
            }
        }
    }
}

/// An instance of a class template is found to fail where no class template of the name takes the
/// arguments; a wrong number of them is reported before a wrong value, and that before a rejected
/// substitution.
pub proof fn misused_classes_are_reported(
    c: SemaView,
    list: Seq<DeclView>,
    t: SyntaxTree,
    n: usize,
    name: Seq<char>,
)
    requires
        t.at(n).kind == NodeKind::TemplateType,
        instance_name(c, t, n) == Some(name),
    ensures
        ({
            let ds = candidates(list, name);
            let explicit = explicit_args_of_type(c, t, n);
            let arity = misused_with(ds, explicit, 0, TemplateCallFailure::ExplicitArityMismatch);
            let value = misused_with(ds, explicit, 0, TemplateCallFailure::NonTypeArgMismatch);
            let sfinae = misused_with(ds, explicit, 0, TemplateCallFailure::SfinaeRejected);
            let taken = exists|i: int|
                0 <= i < ds.len() && (#[trigger] ds[i]).kind is Class && usage_failure(
                    ds[i],
                    explicit,
                ) is None;
            match type_analysis(c, list, t, n) {
                None => taken || (!arity && !value && !sfinae),
                Some(a) => {
                    &&& !taken
                    &&& a.failure == TemplateCallFailure::ExplicitArityMismatch <==> arity
                    &&& a.failure == TemplateCallFailure::NonTypeArgMismatch <==> !arity && value
                    &&& a.failure == TemplateCallFailure::SfinaeRejected <==> !arity && !value
                        && sfinae
                },
            }
        }),
{
    let ds = candidates(list, name);
    lemma_usage_failures(ds, explicit_args_of_type(c, t, n), 0, nothing_seen());
}

// ---------------------------------------------------------------------------
// What is refused
// ---------------------------------------------------------------------------
proof fn lemma_too_many(
    c: SemaView,
    params: Seq<TemplateParamView>,
    args: Seq<ArgText>,
    k: int,
    b: Seq<(Seq<char>, BindingShape)>,
)
    requires
        0 <= k <= params.len() < args.len(),
    ensures
        with_explicit(c, params, args, k, b) is Err,
    decreases args.len() - k,
{
    if k < params.len() {
        match super::template::with_arg(c, params[k], args[k], b) {
            Ok(next) => {
                lemma_too_many(c, params, args, k + 1, next);
            },
            Err(_) => {},
        }
    }
}

/// A template is not meant by a call with more template arguments than it has parameters, nor a
/// template of a function by one with more or fewer arguments than the function takes, nor one whose
/// condition never holds.
pub proof fn calls_must_fit_the_template(
    c: SemaView,
    d: DeclView,
    explicit: Seq<ArgText>,
    ids: Seq<TypeId>,
)
    requires
        !d.is_explicit_specialization,
    ensures
        explicit.len() > d.params.len() ==> call_failure(c, d, explicit, ids) is Some
            && returned_by(c, d, explicit, ids) is None,
        d.sfinae_always_rejects ==> call_failure(c, d, explicit, ids) is Some && returned_by(
            c,
            d,
            explicit,
            ids,
        ) is None,
        (d.kind matches DeclKindView::Function { function_params, .. } && function_params.len()
            != ids.len()) ==> call_failure(c, d, explicit, ids) is Some && returned_by(
            c,
            d,
            explicit,
            ids,
        ) is None,
{
    if explicit.len() > d.params.len() {
        lemma_too_many(c, d.params, explicit, 0, Seq::empty());
    }
}

/// A class template does not take more arguments than it has parameters, nor fewer where a parameter
/// without an argument has no default.
pub proof fn instances_must_fit_the_class(d: DeclView, explicit: Seq<ArgText>)
    requires
        d.kind is Class,
        !d.is_explicit_specialization,
    ensures
        explicit.len() > d.params.len() ==> usage_failure(d, explicit) == Some(
            TemplateCallFailure::ExplicitArityMismatch,
        ),
        (exists|i: int|
            explicit.len() <= i < d.params.len() && super::template::default_of(
                #[trigger] d.params[i],
            ) is None) ==> usage_failure(d, explicit) == Some(
            TemplateCallFailure::ExplicitArityMismatch,
        ),
        d.sfinae_always_rejects ==> usage_failure(d, explicit) is Some,
{
    if exists|i: int|
        explicit.len() <= i < d.params.len() && super::template::default_of(#[trigger] d.params[i])
            is None {
        let i = choose|i: int|
            explicit.len() <= i < d.params.len() && super::template::default_of(
                #[trigger] d.params[i],
            ) is None;
        lemma_not_filled(d.params, explicit, explicit.len() as int, i);
    }
}

proof fn lemma_not_filled(params: Seq<TemplateParamView>, args: Seq<ArgText>, k: int, i: int)
    requires
        0 <= k <= i < params.len(),
        super::template::default_of(params[i]) is None,
    ensures
        super::template::filled(params, args, k) == Err::<Seq<ArgText>, TemplateCallFailure>(
            TemplateCallFailure::ExplicitArityMismatch,
        ),
    decreases params.len() - k,
{
    if let Some(a) = super::template::default_of(params[k]) {
        lemma_not_filled(params, args.push(a), k + 1, i);
    }
}

/// A class template with one parameter takes a type where the parameter is one of types, and a value
/// that is one of its type where it is one of values.
pub proof fn types_and_values_are_told_apart(d: DeclView, a: ArgText)
    requires
        d.kind is Class,
        !d.is_explicit_specialization,
        !d.sfinae_always_rejects,
        d.params.len() == 1,
    ensures
        usage_failure(d, seq![a]) is None <==> match d.params[0] {
            TemplateParamView::TypeParam { .. } => a is Type,
            TemplateParamView::NonTypeParam { declared_type, .. } => a matches ArgText::Value(v)
                && value_fits(v, declared_type),
        },
        d.params[0] is NonTypeParam && a is Type ==> usage_failure(d, seq![a]) == Some(
            TemplateCallFailure::NonTypeArgMismatch,
        ),
        d.params[0] is TypeParam && a is Value ==> usage_failure(d, seq![a]) == Some(
            TemplateCallFailure::DeductionFail,
        ),
{
    reveal_with_fuel(super::template::misfit, 2);
    reveal_with_fuel(super::template::filled, 2);
}

/// What a `bool` is given is a truth value, what a `char` is given stands in quotes, and every other
/// parameter takes numbers and no words.
pub proof fn values_fit_their_types(v: Seq<char>, declared_type: Seq<char>)
    ensures
        value_fits(v, "bool"@) <==> (v == "true"@ || v == "false"@ || v == "TRUE"@ || v == "FALSE"@),
        v.len() > 0 && v[0] != '\'' ==> !value_fits(v, "char"@),
        v.len() > 0 && v.last() != '\'' ==> !value_fits(v, "char"@),
        declared_type != "bool"@ && declared_type != "char"@ && (exists|i: int|
            0 <= i < v.len() && 'a' <= text::lower_char(#[trigger] v[i]) <= 'z') ==> !value_fits(
            v,
            declared_type,
        ),
        declared_type != "bool"@ && declared_type != "char"@ && (forall|i: int|
            0 <= i < v.len() ==> '0' <= #[trigger] v[i] <= '9') ==> value_fits(v, declared_type),
{
    reveal_strlit("bool");
    reveal_strlit("char");
    reveal_strlit("'");
    assert("bool"@[0] != "char"@[0]);
    if v.len() > 0 {
        assert(v.subrange(0, 1)[0] == v[0]);
        assert(v.subrange(v.len() - 1, v.len() as int)[0] == v.last());
    }
    if exists|i: int| 0 <= i < v.len() && 'a' <= text::lower_char(#[trigger] v[i]) <= 'z' {
        let i = choose|i: int| 0 <= i < v.len() && 'a' <= text::lower_char(#[trigger] v[i]) <= 'z';
        crate::text_laws::capitals_become_small(v[i]);
        assert(!text::ascii_digit(v[i]) && v[i] != '-' && v[i] != '+');
    }
}

// ---------------------------------------------------------------------------
// What is deduced
// ---------------------------------------------------------------------------
/// The template is that of a function with one parameter, whose type this pattern writes.
pub open spec fn takes_one(d: DeclView, name: Seq<char>, p: PatternShape) -> bool {
    &&& !d.is_explicit_specialization && !d.sfinae_always_rejects
    &&& d.params.len() == 1
    &&& d.params[0] matches TemplateParamView::TypeParam { name: n, .. }
    &&& n == name
    &&& d.kind matches DeclKindView::Function { function_params, .. }
    &&& function_params == seq![p]
}

/// Called without template arguments, `T` as the type of a parameter stands for the type of the
/// argument, and `T*` for that of a pointer makes it stand for what is pointed to; for anything but a
/// pointer the call then fails. A function that returns `T` returns what `T` stands for.
pub proof fn parameters_stand_for_the_arguments_types(
    c: SemaView,
    d: DeclView,
    name: Seq<char>,
    id: TypeId,
)
    ensures
        takes_one(d, name, PatternShape::TemplateParam(name)) ==> {
            &&& call_failure(c, d, Seq::empty(), seq![id]) is None
            &&& d.kind->return_pattern == PatternShape::TemplateParam(name) ==> returned_by(
                c,
                d,
                Seq::empty(),
                seq![id],
            ) == Some(id)
        },
        takes_one(
            d,
            name,
            PatternShape::Pointer(Box::new(PatternShape::TemplateParam(name))),
        ) ==> match c.kind(id) {
            Some(TypeShape::Pointer { pointee, .. }) => {
                &&& call_failure(c, d, Seq::empty(), seq![id]) is None
                &&& d.kind->return_pattern == PatternShape::TemplateParam(name) ==> returned_by(
                    c,
                    d,
                    Seq::empty(),
                    seq![id],
                ) == Some(pointee)
            },
            _ => call_failure(c, d, Seq::empty(), seq![id]) is Some,
        },
{
    reveal_with_fuel(all_matched, 2);
    reveal_with_fuel(unbound, 2);
    reveal_with_fuel(with_defaults, 2);
    reveal_with_fuel(with_explicit, 2);
    reveal_with_fuel(matched, 3);
    reveal_with_fuel(instantiated, 2);
    let none = Seq::<(Seq<char>, BindingShape)>::empty();
    assert(stands_for(none, name) is None);
    binding_is_read_back(none, name, BindingShape::Type(id), name);
    match c.kind(id) {
        Some(TypeShape::Pointer { pointee, .. }) => {
            binding_is_read_back(none, name, BindingShape::Type(pointee), name);
        },
        _ => {},
    }
}

/// A parameter that stands for a type already meets another one only if the two are equivalent.
pub proof fn parameters_stand_for_one_type(
    c: SemaView,
    name: Seq<char>,
    first: TypeId,
    second: TypeId,
    b: Seq<(Seq<char>, BindingShape)>,
)
    requires
        stands_for(b, name) is None,
    ensures
        ({
            let p = PatternShape::TemplateParam(name);
            all_matched(c, seq![p, p], seq![first, second], 0, b) is Some <==> equivalent(
                c,
                first,
                second,
            )
        }),
{
    reveal_with_fuel(all_matched, 3);
    reveal_with_fuel(matched, 2);
    binding_is_read_back(b, name, BindingShape::Type(first), name);
}

/// `enable_if` gives its type where its condition holds, and nothing where it does not, or where
/// that is not known.
pub proof fn enabled_types_need_their_condition(
    c: SemaView,
    base: Seq<char>,
    args: Seq<PatternShape>,
    b: Seq<(Seq<char>, BindingShape)>,
)
    requires
        is_enable_if(base),
        args.len() == 2,
    ensures
        instantiated(c, PatternShape::TemplateInstance { base, args }, b) == if condition_truth(
            c,
            args[0],
            b,
        ) == Some(true) {
            instantiated(c, args[1], b)
        } else {
            None
        },
{
}

proof fn lemma_first_returned(
    c: SemaView,
    ds: Seq<DeclView>,
    explicit: Seq<ArgText>,
    ids: Seq<TypeId>,
    k: int,
    i: int,
)
    requires
        0 <= k <= i < ds.len(),
        returned_by(c, ds[i], explicit, ids) is Some,
        forall|j: int| k <= j < i ==> returned_by(c, #[trigger] ds[j], explicit, ids) is None,
    ensures
        first_returned(c, ds, explicit, ids, k) == returned_by(c, ds[i], explicit, ids),
    decreases i - k,
{
    if k < i {
        assert(returned_by(c, ds[k], explicit, ids) is None);
        lemma_first_returned(c, ds, explicit, ids, k + 1, i);
    }
}

/// A call of a template has the type that the first template of the name returns that is meant.
pub proof fn the_first_template_meant_is_called(
    c: SemaView,
    list: Seq<DeclView>,
    t: SyntaxTree,
    call: usize,
    callee: usize,
    name: Seq<char>,
    ids: Seq<TypeId>,
    i: int,
)
    requires
        callee_of(t, call) == Some(callee),
        callee_name(c, t, callee) == Some(name),
        0 <= i < candidates(list, name).len(),
        returned_by(c, candidates(list, name)[i], explicit_args(c, t, callee), ids) is Some,
        forall|j: int|
            0 <= j < i ==> returned_by(
                c,
                #[trigger] candidates(list, name)[j],
                explicit_args(c, t, callee),
                ids,
            ) is None,
    ensures
        call_return(c, list, t, call, ids) == returned_by(
            c,
            candidates(list, name)[i],
            explicit_args(c, t, callee),
            ids,
        ),
{
    lemma_first_returned(c, candidates(list, name), explicit_args(c, t, callee), ids, 0, i);
}

} // verus!
