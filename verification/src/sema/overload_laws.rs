//! What the choice among overloads means for the types of the arguments.
use vstd::prelude::*;

use super::overload::{
    above, best_are, best_candidate_is_chosen, callable_from, lemma_not_above_self, resolved,
    resolved_among, scores, verdict, with_score, CallShape, Verdict,
};
use super::members::{signature_of, type_of_symbol};
use super::symbol::SymbolId;
use super::types::{rank_of, Compat, TypeId};
use super::{compat, SemaView, SignatureView};
use crate::text;

verus! {

/// Conversions that change a value less rank higher: none at all above one to a base class, that
/// above one to an untyped pointer, that above a widening of a number, and that above the rest.
pub proof fn closer_conversions_rank_higher()
    ensures
        rank_of(Compat::Same) > rank_of(Compat::DerivedToBase),
        rank_of(Compat::DerivedToBase) > rank_of(Compat::PointerToVoid),
        rank_of(Compat::PointerToVoid) > rank_of(Compat::NumericPromote),
        rank_of(Compat::NumericPromote) > rank_of(Compat::NumericConvert),
        rank_of(Compat::NumericConvert) == rank_of(Compat::NullptrToPointer),
        rank_of(Compat::NullptrToPointer) > rank_of(Compat::Incompatible),
{
}

/// How many of the arguments meet a parameter.
pub open spec fn met(s: SignatureView, args: Seq<TypeId>) -> int {
    if args.len() <= s.params.len() {
        args.len() as int
    } else {
        s.params.len() as int
    }
}

/// A function can be called with the arguments: there are enough, not too many, and each fits its
/// parameter.
pub open spec fn accepts(c: SemaView, s: SignatureView, args: Seq<TypeId>) -> bool {
    &&& s.min_arity <= args.len()
    &&& s.is_variadic || args.len() <= s.params.len()
    &&& forall|i: int|
        0 <= i < met(s, args) ==> compat(c, #[trigger] args[i], s.params[i])
            != Compat::Incompatible
}

/// How well an argument fits the parameter in its place.
pub open spec fn fit(c: SemaView, s: SignatureView, args: Seq<TypeId>, i: int) -> u8 {
    rank_of(compat(c, args[i], s.params[i]))
}

/// One function takes every argument at least as well as the other, and some argument better.
pub open spec fn takes_better(
    c: SemaView,
    a: SignatureView,
    b: SignatureView,
    args: Seq<TypeId>,
) -> bool {
    &&& met(a, args) == met(b, args)
    &&& forall|i: int| 0 <= i < met(a, args) ==> #[trigger] fit(c, a, args, i) >= fit(c, b, args, i)
    &&& exists|i: int| 0 <= i < met(a, args) && #[trigger] fit(c, a, args, i) > fit(c, b, args, i)
}

/// The functions that a call may mean.
pub open spec fn meant(shape: CallShape) -> Seq<SymbolId> {
    match shape {
        CallShape::Match(id) => seq![id],
        CallShape::Ambiguous(ids) => ids,
        CallShape::NoMatch { .. } => Seq::empty(),
    }
}

proof fn lemma_scores(c: SemaView, args: Seq<TypeId>, s: SignatureView, k: int)
    requires
        0 <= k <= met(s, args),
    ensures
        match scores(c, args, s.params, k) {
            Some(list) => list.len() == met(s, args) - k && (forall|i: int|
                0 <= i < list.len() ==> #[trigger] list[i] == fit(c, s, args, k + i)) && (forall|
                i: int,
            |
                k <= i < met(s, args) ==> compat(c, #[trigger] args[i], s.params[i])
                    != Compat::Incompatible),
            None => exists|i: int|
                k <= i < met(s, args) && compat(c, #[trigger] args[i], s.params[i])
                    == Compat::Incompatible,
        },
    decreases met(s, args) - k,
{
    if k < met(s, args) {
        lemma_scores(c, args, s, k + 1);
        let here = compat(c, args[k], s.params[k]);
        if here != Compat::Incompatible {
            if let Some(rest) = scores(c, args, s.params, k + 1) {
                let list = seq![rank_of(here)] + rest;
                assert forall|i: int| 0 <= i < list.len() implies #[trigger] list[i] == fit(
                    c,
                    s,
                    args,
                    k + i,
                ) by {
                    if i > 0 {
                        assert(list[i] == rest[i - 1]);
                        assert(rest[i - 1] == fit(c, s, args, k + 1 + (i - 1)));
                    }
                }
            }
        }
    }
}

proof fn lemma_verdict(c: SemaView, id: SymbolId, s: SignatureView, args: Seq<TypeId>)
    ensures
        verdict(c, id, s, args) is Scored <==> accepts(c, s, args),
        verdict(c, id, s, args) matches Verdict::Scored(list) ==> list.len() == met(s, args)
            && forall|i: int| 0 <= i < list.len() ==> #[trigger] list[i] == fit(c, s, args, i),
{
    lemma_scores(c, args, s, 0);
}

/// A list that is nowhere below and somewhere above comes before.
proof fn lemma_dominates(a: Seq<u8>, b: Seq<u8>, i: int, w: int)
    requires
        a.len() == b.len(),
        0 <= i <= w < a.len(),
        a[w] > b[w],
        forall|j: int| 0 <= j < a.len() ==> #[trigger] a[j] >= b[j],
    ensures
        above(a, b, i),
        !above(b, a, i),
    decreases w - i,
{
    if a[i] == b[i] {
        lemma_dominates(a, b, i + 1, w);
    }
}

proof fn lemma_in_score(
    c: SemaView,
    list: Seq<(SymbolId, SignatureView)>,
    args: Seq<TypeId>,
    score: Seq<u8>,
    upto: int,
    id: SymbolId,
)
    requires
        0 <= upto <= list.len(),
    ensures
        with_score(c, list, args, score, upto).contains(id) <==> exists|k: int|
            0 <= k < upto && (#[trigger] list[k]).0 == id && verdict(c, list[k].0, list[k].1, args)
                == Verdict::Scored(score),
    decreases upto,
{
    if upto > 0 {
        lemma_in_score(c, list, args, score, upto - 1, id);
        let before = with_score(c, list, args, score, upto - 1);
        let last = list[upto - 1];
        let now = with_score(c, list, args, score, upto);
        if now.contains(id) {
            let i = choose|i: int| 0 <= i < now.len() && now[i] == id;
            if i < before.len() {
                assert(before[i] == id);
                assert(before.contains(id));
            }
        }
        if before.contains(id) {
            let i = choose|i: int| 0 <= i < before.len() && before[i] == id;
            assert(now[i] == id);
        }
        if last.0 == id && verdict(c, last.0, last.1, args) == Verdict::Scored(score) {
            assert(now[before.len() as int] == id);
        }
    }
}

/// What a call means is among the functions that have the score that none is above.
proof fn lemma_meant(
    c: SemaView,
    list: Seq<(SymbolId, SignatureView)>,
    args: Seq<TypeId>,
) -> (score: Seq<u8>)
    ensures
        !(resolved(c, list, args) is NoMatch) ==> best_are(
            c,
            list,
            args,
            score,
            meant(resolved(c, list, args)),
        ),
{
    best_candidate_is_chosen(c, list, args);
    match resolved(c, list, args) {
        CallShape::Match(id) => {
            let (score, ids) = choose|score: Seq<u8>, ids: Seq<SymbolId>| #[trigger]
                best_are(c, list, args, score, ids) && ids == seq![id];
            score
        },
        CallShape::Ambiguous(ids) => choose|score: Seq<u8>| #[trigger]
            best_are(c, list, args, score, ids),
        _ => Seq::empty(),
    }
}

/// A call means only functions that can be called with the arguments, and there is no match exactly
/// where no candidate can be.
pub proof fn calls_mean_what_accepts_them(
    c: SemaView,
    list: Seq<(SymbolId, SignatureView)>,
    args: Seq<TypeId>,
)
    ensures
        resolved(c, list, args) is NoMatch <==> forall|k: int|
            0 <= k < list.len() ==> !accepts(c, (#[trigger] list[k]).1, args),
        forall|id: SymbolId| #[trigger]
            meant(resolved(c, list, args)).contains(id) ==> exists|k: int|
                0 <= k < list.len() && (#[trigger] list[k]).0 == id && accepts(c, list[k].1, args),
{
    best_candidate_is_chosen(c, list, args);
    let shape = resolved(c, list, args);
    assert forall|k: int| 0 <= k < list.len() implies (verdict(
        c,
        (#[trigger] list[k]).0,
        list[k].1,
        args,
    ) is Scored <==> accepts(c, list[k].1, args)) by {
        lemma_verdict(c, list[k].0, list[k].1, args);
    }
    if !(shape is NoMatch) {
        let score = lemma_meant(c, list, args);
        let n = list.len() as int;
        assert forall|id: SymbolId| #[trigger] meant(shape).contains(id) implies exists|k: int|
            0 <= k < list.len() && (#[trigger] list[k]).0 == id && accepts(
                c,
                list[k].1,
                args,
            ) by {
            lemma_in_score(c, list, args, score, n, id);
        }
        assert(meant(shape).contains(meant(shape)[0]));
    }
}

/// A candidate is not meant where another takes every argument at least as well and one better.
pub proof fn better_candidates_win(
    c: SemaView,
    list: Seq<(SymbolId, SignatureView)>,
    args: Seq<TypeId>,
    i: int,
    j: int,
)
    requires
        0 <= i < list.len(),
        0 <= j < list.len(),
        accepts(c, list[i].1, args),
        takes_better(c, list[i].1, list[j].1, args),
        forall|k: int| 0 <= k < list.len() && (#[trigger] list[k]).0 == list[j].0 ==> k == j,
    ensures
        !meant(resolved(c, list, args)).contains(list[j].0),
{
    let shape = resolved(c, list, args);
    if meant(shape).contains(list[j].0) {
        let score = lemma_meant(c, list, args);
        lemma_in_score(c, list, args, score, list.len() as int, list[j].0);
        let k = choose|k: int|
            0 <= k < list.len() && (#[trigger] list[k]).0 == list[j].0 && verdict(
                c,
                list[k].0,
                list[k].1,
                args,
            ) == Verdict::Scored(score);
        assert(k == j);
        lemma_verdict(c, list[i].0, list[i].1, args);
        lemma_verdict(c, list[j].0, list[j].1, args);
        let other = verdict(c, list[i].0, list[i].1, args)->Scored_0;
        let w = choose|w: int|
            0 <= w < met(list[i].1, args) && #[trigger] fit(c, list[i].1, args, w) > fit(
                c,
                list[j].1,
                args,
                w,
            );
        assert(other[w] == fit(c, list[i].1, args, w));
        assert(score[w] == fit(c, list[j].1, args, w));
        assert forall|x: int| 0 <= x < other.len() implies #[trigger] other[x] >= score[x] by {
            assert(fit(c, list[i].1, args, x) >= fit(c, list[j].1, args, x));
            assert(score[x] == fit(c, list[j].1, args, x));
        }
        lemma_dominates(other, score, 0, w);
        lemma_not_above_self(score, 0);
        assert(other == score || above(score, other, 0));
    }
}

/// A function takes every argument as it is.
pub open spec fn takes_as_is(c: SemaView, s: SignatureView, args: Seq<TypeId>) -> bool {
    args.len() <= s.params.len() && forall|i: int|
        0 <= i < args.len() ==> compat(c, #[trigger] args[i], s.params[i]) == Compat::Same
}

/// Where one candidate alone takes every argument as it is, and all that can be called have a
/// parameter for every argument, the call means that one.
pub proof fn exact_candidate_is_meant(
    c: SemaView,
    list: Seq<(SymbolId, SignatureView)>,
    args: Seq<TypeId>,
    i: int,
)
    requires
        0 <= i < list.len(),
        accepts(c, list[i].1, args),
        takes_as_is(c, list[i].1, args),
        forall|k: int|
            0 <= k < list.len() && k != i && accepts(c, (#[trigger] list[k]).1, args) ==> args.len()
                <= list[k].1.params.len() && !takes_as_is(c, list[k].1, args),
        forall|j: int, k: int|
            0 <= j < k < list.len() ==> (#[trigger] list[j]).0 != (#[trigger] list[k]).0,
    ensures
        resolved(c, list, args) == CallShape::Match(list[i].0),
{
    calls_mean_what_accepts_them(c, list, args);
    closer_conversions_rank_higher();
    let shape = resolved(c, list, args);
    let ids = meant(shape);
    assert forall|x: int| 0 <= x < ids.len() implies #[trigger] ids[x] == list[i].0 by {
        assert(ids.contains(ids[x]));
        let k = choose|k: int|
            0 <= k < list.len() && (#[trigger] list[k]).0 == ids[x] && accepts(c, list[k].1, args);
        if k != i {
            let w = choose|w: int|
                0 <= w < args.len() && compat(c, #[trigger] args[w], list[k].1.params[w])
                    != Compat::Same;
            assert forall|y: int| 0 <= y < args.len() implies #[trigger] fit(
                c,
                list[i].1,
                args,
                y,
            ) >= fit(c, list[k].1, args, y) by {
                assert(compat(c, args[y], list[i].1.params[y]) == Compat::Same);
            }
            assert(compat(c, args[w], list[i].1.params[w]) == Compat::Same);
            assert(fit(c, list[i].1, args, w) > fit(c, list[k].1, args, w));
            better_candidates_win(c, list, args, i, k);
        }
    }
    assert(!(shape is NoMatch));
    best_candidate_is_chosen(c, list, args);
    assert(ids[0] == list[i].0);
    if shape is Ambiguous {
        lemma_once(c, list, args);
        assert(ids[0] == ids[1]);
    }
}

/// Where the candidates differ, none is listed twice.
proof fn lemma_once(c: SemaView, list: Seq<(SymbolId, SignatureView)>, args: Seq<TypeId>)
    requires
        forall|j: int, k: int|
            0 <= j < k < list.len() ==> (#[trigger] list[j]).0 != (#[trigger] list[k]).0,
        !(resolved(c, list, args) is NoMatch),
    ensures
        forall|x: int, y: int|
            0 <= x < y < meant(resolved(c, list, args)).len() ==> #[trigger] meant(
                resolved(c, list, args),
            )[x] != #[trigger] meant(resolved(c, list, args))[y],
{
    let score = lemma_meant(c, list, args);
    lemma_score_once(c, list, args, score, list.len() as int);
}

proof fn lemma_score_once(
    c: SemaView,
    list: Seq<(SymbolId, SignatureView)>,
    args: Seq<TypeId>,
    score: Seq<u8>,
    upto: int,
)
    requires
        0 <= upto <= list.len(),
        forall|j: int, k: int|
            0 <= j < k < list.len() ==> (#[trigger] list[j]).0 != (#[trigger] list[k]).0,
    ensures
        forall|x: int, y: int|
            0 <= x < y < with_score(c, list, args, score, upto).len() ==> #[trigger] with_score(
                c,
                list,
                args,
                score,
                upto,
            )[x] != #[trigger] with_score(c, list, args, score, upto)[y],
    decreases upto,
{
    if upto > 0 {
        lemma_score_once(c, list, args, score, upto - 1);
        let before = with_score(c, list, args, score, upto - 1);
        let now = with_score(c, list, args, score, upto);
        assert forall|x: int, y: int| 0 <= x < y < now.len() implies #[trigger] now[x]
            != #[trigger] now[y] by {
            assert(before[x] == now[x]);
            if y < before.len() {
                assert(before[y] == now[y]);
            } else {
                assert(before.contains(before[x]));
                lemma_in_score(c, list, args, score, upto - 1, before[x]);
            }
        }
    }
}

/// Where nothing fits, each reason says what was wrong with its candidate: too few arguments, too
/// many, or one of another type.
pub proof fn reasons_say_what_was_wrong(
    c: SemaView,
    list: Seq<(SymbolId, SignatureView)>,
    args: Seq<TypeId>,
    k: int,
)
    requires
        resolved(c, list, args) is NoMatch,
        0 <= k < list.len(),
    ensures
        ({
            let reasons = resolved(c, list, args)->reasons;
            let (id, s) = list[k];
            let which = " for candidate "@ + text::decimal(id.0 as int);
            &&& reasons.len() == list.len()
            &&& args.len() < s.min_arity ==> reasons[k] == "not enough arguments"@ + which
            &&& s.min_arity <= args.len() && !s.is_variadic && args.len() > s.params.len()
                ==> reasons[k] == "arity mismatch"@ + which
            &&& s.min_arity <= args.len() && (s.is_variadic || args.len() <= s.params.len())
                ==> reasons[k] == "type mismatch"@ + which
        }),
{
    best_candidate_is_chosen(c, list, args);
    lemma_verdict(c, list[k].0, list[k].1, args);
    reveal_strlit(" for candidate ");
    reveal_strlit("not enough arguments");
    reveal_strlit("arity mismatch");
    reveal_strlit("type mismatch");
    reveal_strlit("not enough arguments for candidate ");
    reveal_strlit("arity mismatch for candidate ");
    reveal_strlit("type mismatch for candidate ");
    let number = text::decimal(list[k].0.0 as int);
    assert("not enough arguments for candidate "@ =~= "not enough arguments"@
        + " for candidate "@);
    assert("arity mismatch for candidate "@ =~= "arity mismatch"@ + " for candidate "@);
    assert("type mismatch for candidate "@ =~= "type mismatch"@ + " for candidate "@);
    assert("not enough arguments"@ + (" for candidate "@ + number) =~= "not enough arguments"@
        + " for candidate "@ + number);
    assert("arity mismatch"@ + (" for candidate "@ + number) =~= "arity mismatch"@
        + " for candidate "@ + number);
    assert("type mismatch"@ + (" for candidate "@ + number) =~= "type mismatch"@
        + " for candidate "@ + number);
}

/// The candidates of a call are the symbols whose type is that of a function, in their order.
pub proof fn candidates_are_the_functions(c: SemaView, ids: Seq<SymbolId>, k: int)
    requires
        0 <= k <= ids.len(),
    ensures
        forall|x: SymbolId, s: SignatureView| #[trigger]
            callable_from(c, ids, k).contains((x, s)) <==> exists|i: int|
                k <= i < ids.len() && #[trigger] ids[i] == x && type_of_symbol(c, x) is Some
                    && signature_of(c, type_of_symbol(c, x)->0) == Some(s),
    decreases ids.len() - k,
{
    let all = callable_from(c, ids, k);
    if k < ids.len() {
        candidates_are_the_functions(c, ids, k + 1);
        let rest = callable_from(c, ids, k + 1);
        assert forall|x: SymbolId, s: SignatureView| #[trigger] all.contains((x, s)) <==> exists|
            i: int,
        |
            k <= i < ids.len() && #[trigger] ids[i] == x && type_of_symbol(c, x) is Some
                && signature_of(c, type_of_symbol(c, x)->0) == Some(s) by {
            if all.contains((x, s)) {
                let i = choose|i: int| 0 <= i < all.len() && all[i] == (x, s);
                if all.len() == rest.len() {
                    assert(rest[i] == (x, s));
                } else if i > 0 {
                    assert(rest[i - 1] == (x, s));
                } else {
                    assert(ids[k] == x);
                }
                if all.len() == rest.len() || i > 0 {
                    assert(rest.contains((x, s)));
                }
            }
            if rest.contains((x, s)) {
                let i = choose|i: int| 0 <= i < rest.len() && rest[i] == (x, s);
                if all.len() == rest.len() {
                    assert(all[i] == (x, s));
                } else {
                    assert(all[i + 1] == (x, s));
                }
            }
            if ids[k] == x && type_of_symbol(c, x) is Some && signature_of(
                c,
                type_of_symbol(c, x)->0,
            ) == Some(s) {
                assert(all[0] == (x, s));
            }
        }
    }
}

/// A call of symbols means only symbols among them.
pub proof fn calls_mean_given_symbols(c: SemaView, ids: Seq<SymbolId>, args: Seq<TypeId>)
    ensures
        forall|id: SymbolId| #[trigger]
            meant(resolved_among(c, ids, args)).contains(id) ==> ids.contains(id),
{
    let list = callable_from(c, ids, 0);
    calls_mean_what_accepts_them(c, list, args);
    candidates_are_the_functions(c, ids, 0);
    assert forall|id: SymbolId| #[trigger]
        meant(resolved_among(c, ids, args)).contains(id) implies ids.contains(id) by {
        let k = choose|k: int|
            0 <= k < list.len() && (#[trigger] list[k]).0 == id && accepts(c, list[k].1, args);
        assert(list.contains((list[k].0, list[k].1)));
    }
}

} // verus!
