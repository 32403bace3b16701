//! Which of several functions a call means.
use vstd::prelude::*;

use super::members::{signature_of, type_of_symbol};
use super::symbol::SymbolId;
use super::types::{compat_rank, rank_of, Compat, TypeId};
use super::{compat, MemberCallableSignature, SemaContext, SemaView, SignatureView};
use crate::text;

verus! {

pub enum CallResult {
    Match(SymbolId),
    Ambiguous(Vec<SymbolId>),
    NoMatch { reasons: Vec<String> },
}

/// The outcome of a call as a mathematical value.
#[verifier::ext_equal]
pub enum CallShape {
    Match(SymbolId),
    Ambiguous(Seq<SymbolId>),
    NoMatch { reasons: Seq<Seq<char>> },
}

impl View for CallResult {
    type V = CallShape;

    open spec fn view(&self) -> CallShape {
        match *self {
            CallResult::Match(id) => CallShape::Match(id),
            CallResult::Ambiguous(ids) => CallShape::Ambiguous(ids@),
            CallResult::NoMatch { reasons } => CallShape::NoMatch { reasons: text::texts(reasons@) },
        }
    }
}

/// How well the arguments from position `k` on fit the parameters; nothing where one does not.
pub open spec fn scores(c: SemaView, args: Seq<TypeId>, params: Seq<TypeId>, k: int) -> Option<Seq<u8>>
    decreases args.len() - k,
{
    if k < 0 || k >= args.len() || k >= params.len() {
        Some(Seq::empty())
    } else {
        let here = compat(c, args[k], params[k]);
        if here == Compat::Incompatible {
            None
        } else {
            match scores(c, args, params, k + 1) {
                Some(rest) => Some(seq![rank_of(here)] + rest),
                None => None,
            }
        }
    }
}

/// What is found of one candidate.
pub enum Verdict {
    Rejected(Seq<char>),
    Scored(Seq<u8>),
}

pub open spec fn verdict(c: SemaView, id: SymbolId, s: SignatureView, args: Seq<TypeId>) -> Verdict {
    if args.len() < s.min_arity {
        Verdict::Rejected("not enough arguments for candidate "@ + text::decimal(id.0 as int))
    } else if !s.is_variadic && args.len() > s.params.len() {
        Verdict::Rejected("arity mismatch for candidate "@ + text::decimal(id.0 as int))
    } else {
        match scores(c, args, s.params, 0) {
            None => Verdict::Rejected("type mismatch for candidate "@ + text::decimal(id.0 as int)),
            Some(list) => Verdict::Scored(list),
        }
    }
}

/// Whether one list of scores comes behind the other in the order of their first difference.
pub open spec fn above(a: Seq<u8>, b: Seq<u8>, i: int) -> bool
    decreases a.len() - i,
{
    if i < 0 || i >= a.len() {
        false
    } else if i >= b.len() {
        true
    } else if a[i] != b[i] {
        a[i] > b[i]
    } else {
        above(a, b, i + 1)
    }
}

/// The best candidates so far.
#[verifier::ext_equal]
pub struct Best {
    pub score: Option<Seq<u8>>,
    pub ids: Seq<SymbolId>,
    pub reasons: Seq<Seq<char>>,
}

pub open spec fn with_candidate(b: Best, id: SymbolId, v: Verdict) -> Best {
    match v {
        Verdict::Rejected(reason) => Best { reasons: b.reasons.push(reason), ..b },
        Verdict::Scored(list) => match b.score {
            None => Best { score: Some(list), ids: seq![id], ..b },
            Some(current) => if above(list, current, 0) {
                Best { score: Some(list), ids: seq![id], ..b }
            } else if list == current {
                Best { ids: b.ids.push(id), ..b }
            } else {
                b
            },
        },
    }
}

pub type Callee = (SymbolId, MemberCallableSignature);

pub open spec fn callee_shapes(list: Seq<Callee>) -> Seq<(SymbolId, SignatureView)> {
    list.map_values(|e: Callee| (e.0, e.1@))
}

pub open spec fn best_from(
    c: SemaView,
    list: Seq<(SymbolId, SignatureView)>,
    args: Seq<TypeId>,
    k: int,
    b: Best,
) -> Best
    decreases list.len() - k,
{
    if k < 0 || k >= list.len() {
        b
    } else {
        best_from(
            c,
            list,
            args,
            k + 1,
            with_candidate(b, list[k].0, verdict(c, list[k].0, list[k].1, args)),
        )
    }
}

pub open spec fn none_yet() -> Best {
    Best { score: None, ids: Seq::empty(), reasons: Seq::empty() }
}

/// The candidate that fits best, if there is one.
pub open spec fn resolved(
    c: SemaView,
    list: Seq<(SymbolId, SignatureView)>,
    args: Seq<TypeId>,
) -> CallShape {
    let b = best_from(c, list, args, 0, none_yet());
    if b.ids.len() == 0 {
        CallShape::NoMatch { reasons: b.reasons }
    } else if b.ids.len() == 1 {
        CallShape::Match(b.ids[0])
    } else {
        CallShape::Ambiguous(b.ids)
    }
}

/// The functions among the symbols from position `k` on, with their signatures.
pub open spec fn callable_from(c: SemaView, ids: Seq<SymbolId>, k: int) -> Seq<(SymbolId, SignatureView)>
    decreases ids.len() - k,
{
    if k < 0 || k >= ids.len() {
        Seq::empty()
    } else {
        let rest = callable_from(c, ids, k + 1);
        match type_of_symbol(c, ids[k]) {
            None => rest,
            Some(t) => match signature_of(c, t) {
                None => rest,
                Some(s) => seq![(ids[k], s)] + rest,
            },
        }
    }
}

/// What a call of one of these symbols means.
pub open spec fn resolved_among(c: SemaView, ids: Seq<SymbolId>, args: Seq<TypeId>) -> CallShape {
    resolved(c, callable_from(c, ids, 0), args)
}

pub open spec fn opt_scores(s: Option<Vec<u8>>) -> Option<Seq<u8>> {
    match s {
        Some(v) => Some(v@),
        None => None,
    }
}

fn is_above(a: &Vec<u8>, b: &Vec<u8>) -> (r: bool)
    ensures
        r == above(a@, b@, 0),
{
    let n: usize = a.len();
    let mut i: usize = 0;
    while i < n
        invariant
            n == a@.len(),
            i <= n,
            above(a@, b@, 0) == above(a@, b@, i as int),
        decreases n - i,
    {
        if i >= b.len() {
            return true;
        }
        if a[i] != b[i] {
            return a[i] > b[i];
        }
        i = i + 1;
    }
    false
}

fn same_scores(a: &Vec<u8>, b: &Vec<u8>) -> (r: bool)
    ensures
        r == (a@ == b@),
{
    if a.len() != b.len() {
        return false;
    }
    let n: usize = a.len();
    let mut i: usize = 0;
    while i < n
        invariant
            n == a@.len(),
            n == b@.len(),
            i <= n,
            forall|j: int| 0 <= j < i ==> a@[j] == b@[j],
        decreases n - i,
    {
        if a[i] != b[i] {
            return false;
        }
        i = i + 1;
    }
    assert(a@ =~= b@);
    true
}

fn score_args(ctx: &SemaContext, args: &[TypeId], params: &Vec<TypeId>) -> (r: Option<Vec<u8>>)
    ensures
        match r {
            Some(v) => scores(ctx@, args@, params@, 0) == Some(v@),
            None => scores(ctx@, args@, params@, 0) is None,
        },
{
    let ghost whole = scores(ctx@, args@, params@, 0);
    let mut list: Vec<u8> = Vec::new();
    let mut i: usize = 0;
    assert(whole matches Some(w) ==> w =~= list@ + w);
    while i < args.len() && i < params.len()
        invariant
            i <= args@.len(),
            i <= params@.len(),
            whole == scores(ctx@, args@, params@, 0),
            match scores(ctx@, args@, params@, i as int) {
                Some(rest) => whole == Some(list@ + rest),
                None => whole is None,
            },
        decreases args@.len() - i,
    {
        let ghost before = list@;
        let here = ctx.check_compat(args[i], params[i]);
        if here == Compat::Incompatible {
            return None;
        }
        list.push(compat_rank(here));
        proof {
            match scores(ctx@, args@, params@, i + 1) {
                Some(rest) => {
                    assert(before + (seq![rank_of(here)] + rest) =~= list@ + rest);
                },
                None => {},
            }
        }
        i = i + 1;
    }
    assert(list@ + Seq::<u8>::empty() =~= list@);
    Some(list)
}

pub fn resolve_call(ctx: &SemaContext, callee_set: &[SymbolId], arg_types: &[TypeId]) -> (r: CallResult)
    ensures
        r@ == resolved_among(ctx@, callee_set@, arg_types@),
{
    resolve_call_with_args(ctx, callee_set, arg_types)
}

pub fn resolve_call_with_args(ctx: &SemaContext, callee_set: &[SymbolId], arg_types: &[TypeId]) -> (r:
    CallResult)
    ensures
        r@ == resolved_among(ctx@, callee_set@, arg_types@),
{
    let mut callable: Vec<Callee> = Vec::new();
    let n: usize = callee_set.len();
    let mut i: usize = 0;
    assert(callee_shapes(callable@) =~= Seq::<(SymbolId, SignatureView)>::empty());
    while i < n
        invariant
            n == callee_set@.len(),
            i <= n,
            callable_from(ctx@, callee_set@, 0) =~= callee_shapes(callable@) + callable_from(
                ctx@,
                callee_set@,
                i as int,
            ),
        decreases n - i,
    {
        let ghost before = callee_shapes(callable@);
        match ctx.symbol_type(callee_set[i]) {
            Some(t) => {
                match ctx.signature_of_type(t) {
                    Some(s) => {
                        let ghost item = (callee_set@[i as int], s@);
                        callable.push((callee_set[i], s));
                        assert(callee_shapes(callable@) =~= before.push(item));
                    },
                    None => {},
                }
            },
            None => {},
        }
        i = i + 1;
    }
    assert(callee_shapes(callable@) =~= callable_from(ctx@, callee_set@, 0));
    resolve_call_with_signatures(ctx, callable.as_slice(), arg_types)
}

fn rejection(what: &str, id: SymbolId) -> (r: String)
    ensures
        r@ == what@ + text::decimal(id.0 as int),
{
    let number = text::decimal_u64(id.0 as u64);
    text::concat2(what, &number)
}

pub fn resolve_call_with_signatures(ctx: &SemaContext, callee_set: &[Callee], arg_types: &[TypeId]) -> (r:
    CallResult)
    ensures
        r@ == resolved(ctx@, callee_shapes(callee_set@), arg_types@),
{
    let ghost list = callee_shapes(callee_set@);
    let ghost whole = best_from(ctx@, list, arg_types@, 0, none_yet());
    let mut best_score: Option<Vec<u8>> = None;
    let mut best: Vec<SymbolId> = Vec::new();
    let mut reasons: Vec<String> = Vec::new();
    let n: usize = callee_set.len();
    let mut i: usize = 0;
    assert(text::texts(reasons@) =~= Seq::<Seq<char>>::empty());
    while i < n
        invariant
            list == callee_shapes(callee_set@),
            n == callee_set@.len(),
            i <= n,
            whole == best_from(
                ctx@,
                list,
                arg_types@,
                i as int,
                Best {
                    score: opt_scores(best_score),
                    ids: best@,
                    reasons: text::texts(reasons@),
                },
            ),
        decreases n - i,
    {
        let symbol_id = callee_set[i].0;
        let signature = &callee_set[i].1;
        assert(list[i as int] == (symbol_id, signature@));
        let ghost before = text::texts(reasons@);
        let ghost b0 = Best {
            score: opt_scores(best_score),
            ids: best@,
            reasons: before,
        };
        let ghost v0 = verdict(ctx@, symbol_id, signature@, arg_types@);
        if arg_types.len() < signature.min_arity {
            let reason = rejection("not enough arguments for candidate ", symbol_id);
            reasons.push(reason);
            assert(text::texts(reasons@) =~= before.push(reason@));
        } else if !signature.is_variadic && arg_types.len() > signature.params.len() {
            let reason = rejection("arity mismatch for candidate ", symbol_id);
            reasons.push(reason);
            assert(text::texts(reasons@) =~= before.push(reason@));
        } else {
            match score_args(ctx, arg_types, &signature.params) {
                None => {
                    let reason = rejection("type mismatch for candidate ", symbol_id);
                    reasons.push(reason);
                    assert(text::texts(reasons@) =~= before.push(reason@));
                },
                Some(score) => {
                    let better: bool;
                    let equal: bool;
                    match &best_score {
                        None => {
                            better = true;
                            equal = false;
                        },
                        Some(current) => {
                            better = is_above(&score, current);
                            equal = same_scores(&score, current);
                        },
                    }
                    if better {
                        best_score = Some(score);
                        best = Vec::new();
                        best.push(symbol_id);
                        assert(best@ =~= seq![symbol_id]);
                    } else if equal {
                        best.push(symbol_id);
                    }
                },
            }
        }
        assert((Best {
            score: opt_scores(best_score),
            ids: best@,
            reasons: text::texts(reasons@),
        }) == with_candidate(b0, symbol_id, v0));
        i = i + 1;
    }
    if best.len() == 0 {
        CallResult::NoMatch { reasons }
    } else if best.len() == 1 {
        CallResult::Match(best[0])
    } else {
        CallResult::Ambiguous(best)
    }
}

/// The candidates among the first `upto` that have this score, in order.
pub open spec fn with_score(
    c: SemaView,
    list: Seq<(SymbolId, SignatureView)>,
    args: Seq<TypeId>,
    score: Seq<u8>,
    upto: int,
) -> Seq<SymbolId>
    decreases upto,
{
    if upto <= 0 || upto > list.len() {
        Seq::empty()
    } else {
        let before = with_score(c, list, args, score, upto - 1);
        let (id, signature) = list[upto - 1];
        if verdict(c, id, signature, args) == Verdict::Scored(score) {
            before.push(id)
        } else {
            before
        }
    }
}

/// No candidate among the first `upto` has a greater score.
pub open spec fn none_above(
    c: SemaView,
    list: Seq<(SymbolId, SignatureView)>,
    args: Seq<TypeId>,
    score: Seq<u8>,
    upto: int,
) -> bool {
    forall|k: int|
        0 <= k < upto ==> (verdict(c, (#[trigger] list[k]).0, list[k].1, args) matches Verdict::Scored(
            s,
        ) ==> s == score || above(score, s, 0))
}

/// None of the first `upto` candidates fits, each for the reason in its place.
pub open spec fn all_rejected(
    c: SemaView,
    list: Seq<(SymbolId, SignatureView)>,
    args: Seq<TypeId>,
    reasons: Seq<Seq<char>>,
    upto: int,
) -> bool {
    reasons.len() == upto && forall|k: int|
        0 <= k < upto ==> verdict(c, (#[trigger] list[k]).0, list[k].1, args) == Verdict::Rejected(
            reasons[k],
        )
}

pub open spec fn best_of(
    c: SemaView,
    list: Seq<(SymbolId, SignatureView)>,
    args: Seq<TypeId>,
    n: int,
    b: Best,
) -> bool {
    match b.score {
        None => b.ids.len() == 0 && all_rejected(c, list, args, b.reasons, n),
        Some(best) => b.ids.len() > 0 && b.ids == with_score(c, list, args, best, n) && none_above(
            c,
            list,
            args,
            best,
            n,
        ),
    }
}

pub proof fn lemma_above_trans(a: Seq<u8>, b: Seq<u8>, d: Seq<u8>, i: int)
    requires
        0 <= i,
        above(d, b, i),
        above(a, d, i),
    ensures
        above(a, b, i),
    decreases a.len() - i,
{
    if i < a.len() && i < d.len() && i < b.len() && a[i] == d[i] && d[i] == b[i] {
        lemma_above_trans(a, b, d, i + 1);
    }
}

pub proof fn lemma_not_above_self(s: Seq<u8>, i: int)
    ensures
        !above(s, s, i),
    decreases s.len() - i,
{
    if 0 <= i < s.len() {
        lemma_not_above_self(s, i + 1);
    }
}

/// Of two different lists of scores that agree up to `i`, one is above the other.
proof fn lemma_one_above(a: Seq<u8>, b: Seq<u8>, i: int)
    requires
        0 <= i <= a.len(),
        i <= b.len(),
        forall|j: int| 0 <= j < i ==> a[j] == b[j],
        a != b,
    ensures
        above(a, b, i) || above(b, a, i),
    decreases a.len() - i,
{
    if i < a.len() && i < b.len() {
        if a[i] == b[i] {
            lemma_one_above(a, b, i + 1);
        }
    } else if a.len() == b.len() {
        assert(a =~= b);
    }
}

proof fn lemma_none_with_score(
    c: SemaView,
    list: Seq<(SymbolId, SignatureView)>,
    args: Seq<TypeId>,
    score: Seq<u8>,
    upto: int,
)
    requires
        0 <= upto <= list.len(),
        forall|k: int|
            0 <= k < upto ==> verdict(c, (#[trigger] list[k]).0, list[k].1, args)
                != Verdict::Scored(score),
    ensures
        with_score(c, list, args, score, upto).len() == 0,
    decreases upto,
{
    if upto > 0 {
        assert(verdict(c, list[upto - 1].0, list[upto - 1].1, args) != Verdict::Scored(score));
        lemma_none_with_score(c, list, args, score, upto - 1);
    }
}

proof fn lemma_best_step(
    c: SemaView,
    list: Seq<(SymbolId, SignatureView)>,
    args: Seq<TypeId>,
    k: int,
    b: Best,
)
    requires
        0 <= k < list.len(),
        best_of(c, list, args, k, b),
    ensures
        best_of(
            c,
            list,
            args,
            k + 1,
            with_candidate(b, list[k].0, verdict(c, list[k].0, list[k].1, args)),
        ),
{
    let v = verdict(c, list[k].0, list[k].1, args);
    let next = with_candidate(b, list[k].0, v);
    if let Verdict::Scored(s) = v {
        match b.score {
            None => {
                lemma_none_with_score(c, list, args, s, k);
                assert(next.ids =~= with_score(c, list, args, s, k + 1));
            },
            Some(best) => {
                lemma_not_above_self(s, 0);
                if above(s, best, 0) {
                    assert forall|j: int| 0 <= j < k implies (verdict(
                        c,
                        (#[trigger] list[j]).0,
                        list[j].1,
                        args,
                    ) matches Verdict::Scored(t) ==> t != s && above(s, t, 0)) by {
                        if let Verdict::Scored(t) = verdict(c, list[j].0, list[j].1, args) {
                            if t != best {
                                lemma_above_trans(s, t, best, 0);
                            }
                        }
                    }
                    lemma_none_with_score(c, list, args, s, k);
                    assert(next.ids =~= with_score(c, list, args, s, k + 1));
                } else if s != best {
                    lemma_one_above(s, best, 0);
                }
            },
        }
    }
}

pub proof fn lemma_best_from(
    c: SemaView,
    list: Seq<(SymbolId, SignatureView)>,
    args: Seq<TypeId>,
    k: int,
    b: Best,
)
    requires
        0 <= k <= list.len(),
        best_of(c, list, args, k, b),
    ensures
        best_of(c, list, args, list.len() as int, best_from(c, list, args, k, b)),
    decreases list.len() - k,
{
    if k < list.len() {
        lemma_best_step(c, list, args, k, b);
        lemma_best_from(
            c,
            list,
            args,
            k + 1,
            with_candidate(b, list[k].0, verdict(c, list[k].0, list[k].1, args)),
        );
    }
}

/// The score is the greatest, and the candidates that have it are exactly these, in order.
pub open spec fn best_are(
    c: SemaView,
    list: Seq<(SymbolId, SignatureView)>,
    args: Seq<TypeId>,
    score: Seq<u8>,
    ids: Seq<SymbolId>,
) -> bool {
    none_above(c, list, args, score, list.len() as int) && ids == with_score(
        c,
        list,
        args,
        score,
        list.len() as int,
    )
}

/// A call means the one candidate that has the greatest score. Where several have it, the call is
/// ambiguous among exactly these, in order. There is no match exactly when no candidate fits, with
/// one reason for each candidate, in order.
pub proof fn best_candidate_is_chosen(
    c: SemaView,
    list: Seq<(SymbolId, SignatureView)>,
    args: Seq<TypeId>,
)
    ensures
        match resolved(c, list, args) {
            CallShape::Match(id) => exists|score: Seq<u8>, ids: Seq<SymbolId>| #[trigger]
                best_are(c, list, args, score, ids) && ids == seq![id],
            CallShape::Ambiguous(ids) => ids.len() > 1 && exists|score: Seq<u8>| #[trigger]
                best_are(c, list, args, score, ids),
            CallShape::NoMatch { reasons } => all_rejected(
                c,
                list,
                args,
                reasons,
                list.len() as int,
            ),
        },
{
    lemma_best_from(c, list, args, 0, none_yet());
    let b = best_from(c, list, args, 0, none_yet());
    if let Some(best) = b.score {
        assert(best_are(c, list, args, best, b.ids));
        if b.ids.len() == 1 {
            assert(b.ids =~= seq![b.ids[0]]);
        }
    }
}

} // verus!
