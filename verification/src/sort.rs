//! A stable merge sort over values that carry their own order.
use vstd::prelude::*;

verus! {

/// Values with a total order in which two different values may share a rank.
pub trait Ranked: Sized {
    /// `self` may stand before `other`.
    spec fn before(self, other: Self) -> bool;

    proof fn before_total(a: Self, b: Self)
        ensures
            a.before(b) || b.before(a),
    ;

    proof fn before_trans(a: Self, b: Self, c: Self)
        requires
            a.before(b),
            b.before(c),
        ensures
            a.before(c),
    ;

    fn may_precede(&self, other: &Self) -> (r: bool)
        ensures
            r == self.before(*other),
    ;
}

/// Of two positions, `i` comes first: its value stands before, or the ranks are equal and it
/// came first already.
pub open spec fn comes_first<T: Ranked>(s: Seq<T>, i: int, j: int) -> bool {
    s[i].before(s[j]) && (s[j].before(s[i]) ==> i < j)
}

/// `r` holds the values of `s` in the order of the positions `p`, which is the sorted one.
pub open spec fn arrangement<T: Ranked>(s: Seq<T>, r: Seq<T>, p: Seq<int>) -> bool {
    &&& r.len() == s.len()
    &&& p.len() == s.len()
    &&& forall|i: int| 0 <= i < p.len() ==> 0 <= #[trigger] p[i] < s.len() && r[i] == s[p[i]]
    &&& forall|i: int, j: int|
        0 <= i < j < p.len() ==> comes_first(s, #[trigger] p[i], #[trigger] p[j])
}

/// `r` is `s` sorted; values of equal rank keep their order.
pub open spec fn stable_sorted<T: Ranked>(s: Seq<T>, r: Seq<T>) -> bool {
    exists|p: Seq<int>| arrangement(s, r, p)
}

pub proof fn lemma_comes_first_trans<T: Ranked>(s: Seq<T>, i: int, j: int, k: int)
    requires
        comes_first(s, i, j),
        comes_first(s, j, k),
    ensures
        comes_first(s, i, k),
{
    T::before_trans(s[i], s[j], s[k]);
    if s[k].before(s[i]) {
        T::before_trans(s[k], s[i], s[j]);
        T::before_trans(s[j], s[k], s[i]);
    }
}

/// In a sorted list no value is out of order.
pub proof fn lemma_sorted_order<T: Ranked>(s: Seq<T>, r: Seq<T>, i: int, j: int)
    requires
        stable_sorted(s, r),
        0 <= i <= j < r.len(),
    ensures
        r[i].before(r[j]),
{
    let p = choose|p: Seq<int>| arrangement(s, r, p);
    if i < j {
        assert(comes_first(s, p[i], p[j]));
    } else {
        T::before_total(r[i], r[j]);
    }
}

/// Sorting is unique: a list has one sorted arrangement.
pub proof fn sorted_list_is_unique<T: Ranked>(s: Seq<T>, r1: Seq<T>, r2: Seq<T>)
    requires
        stable_sorted(s, r1),
        stable_sorted(s, r2),
    ensures
        r1 == r2,
{
    let p1 = choose|p: Seq<int>| arrangement(s, r1, p);
    let p2 = choose|p: Seq<int>| arrangement(s, r2, p);
    lemma_arrangement_onto(s, r1, p1);
    lemma_arrangement_onto(s, r2, p2);
    lemma_same_positions(s, p1, p2, p1.len() as int);
    assert forall|i: int| 0 <= i < r1.len() implies r1[i] == r2[i] by {
        assert(r1[i] == s[p1[i]] && r2[i] == s[p2[i]]);
    }
    assert(r1 =~= r2);
}

proof fn lemma_same_positions<T: Ranked>(s: Seq<T>, p1: Seq<int>, p2: Seq<int>, n: int)
    requires
        p1.len() == s.len(),
        p2.len() == s.len(),
        0 <= n <= s.len(),
        forall|i: int| 0 <= i < s.len() ==> 0 <= #[trigger] p1[i] < s.len(),
        forall|i: int| 0 <= i < s.len() ==> 0 <= #[trigger] p2[i] < s.len(),
        forall|i: int, j: int|
            0 <= i < j < p1.len() ==> comes_first(s, #[trigger] p1[i], #[trigger] p1[j]),
        forall|i: int, j: int|
            0 <= i < j < p2.len() ==> comes_first(s, #[trigger] p2[i], #[trigger] p2[j]),
        forall|x: int| 0 <= x < s.len() ==> #[trigger] p1.contains(x),
        forall|x: int| 0 <= x < s.len() ==> #[trigger] p2.contains(x),
    ensures
        forall|i: int| 0 <= i < n ==> p1[i] == p2[i],
    decreases n,
{
    if n > 0 {
        lemma_same_positions(s, p1, p2, n - 1);
        let k = n - 1;
        let x = p1[k];
        let y = p2[k];
        if x != y {
            assert(p2.contains(x));
            assert(p1.contains(y));
            let i = choose|i: int| 0 <= i < p2.len() && p2[i] == x;
            let j = choose|j: int| 0 <= j < p1.len() && p1[j] == y;
            if i < k {
                assert(p1[i] == p2[i]);
                assert(comes_first(s, p1[i], p1[k]));
                assert(false);
            }
            if j < k {
                assert(p1[j] == p2[j]);
                assert(comes_first(s, p2[j], p2[k]));
                assert(false);
            }
            assert(i > k && j > k);
            assert(comes_first(s, p2[k], p2[i]));
            assert(comes_first(s, p1[k], p1[j]));
            assert(false);
        }
    }
}

pub proof fn lemma_arrangement_onto<T: Ranked>(s: Seq<T>, r: Seq<T>, p: Seq<int>)
    requires
        arrangement(s, r, p),
    ensures
        forall|x: int| 0 <= x < s.len() ==> #[trigger] p.contains(x),
{
    assert(p.no_duplicates()) by {
        assert forall|i: int, j: int| 0 <= i < p.len() && 0 <= j < p.len() && i != j implies p[i]
            != p[j] by {
            if i < j {
                assert(comes_first(s, p[i], p[j]));
            } else {
                assert(comes_first(s, p[j], p[i]));
            }
        }
    }
    let n = s.len() as int;
    p.unique_seq_to_set();
    let all = vstd::set_lib::set_int_range(0, n);
    vstd::set_lib::lemma_int_range(0, n);
    assert(p.to_set().subset_of(all));
    vstd::set_lib::lemma_subset_equality(p.to_set(), all);
    assert forall|x: int| 0 <= x < n implies #[trigger] p.contains(x) by {
        assert(all.contains(x));
        assert(p.to_set().contains(x));
    }
}

fn reverse_vec<T>(v: Vec<T>) -> (r: Vec<T>)
    ensures
        r@ == v@.reverse(),
{
    let mut v = v;
    let mut out: Vec<T> = Vec::new();
    let ghost all = v@;
    while v.len() > 0
        invariant
            v@ == all.take(v@.len() as int),
            v@.len() + out@.len() == all.len(),
            forall|i: int| 0 <= i < out@.len() ==> out@[i] == all[all.len() - 1 - i],
        decreases v@.len(),
    {
        let x = v.pop();
        match x {
            Some(y) => out.push(y),
            None => (),
        }
    }
    assert(out@ =~= all.reverse());
    out
}

#[verifier::spinoff_prover]
fn merge<T: Ranked>(
    a: Vec<T>,
    b: Vec<T>,
    Ghost(s): Ghost<Seq<T>>,
    Ghost(pa): Ghost<Seq<int>>,
    Ghost(pb): Ghost<Seq<int>>,
) -> (r: (Vec<T>, Ghost<Seq<int>>))
    requires
        a@.len() + b@.len() == s.len(),
        pa.len() == a@.len(),
        pb.len() == b@.len(),
        forall|i: int| 0 <= i < pa.len() ==> 0 <= #[trigger] pa[i] < a@.len() && a@[i] == s[pa[i]],
        forall|i: int|
            0 <= i < pb.len() ==> a@.len() <= #[trigger] pb[i] < s.len() && b@[i] == s[pb[i]],
        forall|i: int, j: int|
            0 <= i < j < pa.len() ==> comes_first(s, #[trigger] pa[i], #[trigger] pa[j]),
        forall|i: int, j: int|
            0 <= i < j < pb.len() ==> comes_first(s, #[trigger] pb[i], #[trigger] pb[j]),
    ensures
        arrangement(s, r.0@, r.1@),
{
    let mut a = a;
    let mut b = b;
    let ghost na = a@.len();
    let mut out: Vec<T> = Vec::new();
    let ghost mut q: Seq<int> = Seq::empty();
    while a.len() > 0 || b.len() > 0
        invariant
            na + pb.len() == s.len(),
            pa.len() == na,
            a@.len() <= pa.len(),
            b@.len() <= pb.len(),
            out@.len() == q.len(),
            out@.len() + a@.len() + b@.len() == s.len(),
            forall|i: int| 0 <= i < pa.len() ==> 0 <= #[trigger] pa[i] < na,
            forall|i: int| 0 <= i < pb.len() ==> na <= #[trigger] pb[i] < s.len(),
            forall|i: int| 0 <= i < a@.len() ==> a@[i] == s[#[trigger] pa[i]],
            forall|i: int| 0 <= i < b@.len() ==> b@[i] == s[#[trigger] pb[i]],
            forall|i: int, j: int|
                0 <= i < j < pa.len() ==> comes_first(s, #[trigger] pa[i], #[trigger] pa[j]),
            forall|i: int, j: int|
                0 <= i < j < pb.len() ==> comes_first(s, #[trigger] pb[i], #[trigger] pb[j]),
            forall|i: int|
                0 <= i < q.len() ==> 0 <= #[trigger] q[i] < s.len() && out@[i] == s[q[i]],
            forall|i: int, j: int|
                0 <= i < j < q.len() ==> comes_first(s, #[trigger] q[j], #[trigger] q[i]),
            forall|i: int, j: int|
                0 <= i < a@.len() && 0 <= j < q.len() ==> comes_first(
                    s,
                    #[trigger] pa[i],
                    #[trigger] q[j],
                ),
            forall|i: int, j: int|
                0 <= i < b@.len() && 0 <= j < q.len() ==> comes_first(
                    s,
                    #[trigger] pb[i],
                    #[trigger] q[j],
                ),
        decreases a@.len() + b@.len(),
    {
        let from_b = if a.len() == 0 {
            true
        } else if b.len() == 0 {
            false
        } else {
            a[a.len() - 1].may_precede(&b[b.len() - 1])
        };
        let ghost x = pa[a@.len() - 1];
        let ghost y = pb[b@.len() - 1];
        if from_b {
            proof {
                assert forall|i: int| 0 <= i < a@.len() implies comes_first(
                    s,
                    #[trigger] pa[i],
                    y,
                ) by {
                    assert(comes_first(s, x, y));
                    if i < a@.len() - 1 {
                        assert(comes_first(s, pa[i], x));
                        lemma_comes_first_trans(s, pa[i], x, y);
                    }
                }
                assert forall|j: int| 0 <= j < q.len() implies comes_first(
                    s,
                    y,
                    #[trigger] q[j],
                ) by {
                    assert(comes_first(s, pb[b@.len() - 1], q[j]));
                }
                q = q.push(y);
            }
            let v = b.pop();
            match v {
                Some(t) => out.push(t),
                None => (),
            }
        } else {
            proof {
                if b@.len() > 0 {
                    T::before_total(s[x], s[y]);
                    assert(comes_first(s, y, x));
                }
                assert forall|i: int| 0 <= i < b@.len() implies comes_first(
                    s,
                    #[trigger] pb[i],
                    x,
                ) by {
                    if i < b@.len() - 1 {
                        assert(comes_first(s, pb[i], y));
                        lemma_comes_first_trans(s, pb[i], y, x);
                    }
                }
                assert forall|j: int| 0 <= j < q.len() implies comes_first(
                    s,
                    x,
                    #[trigger] q[j],
                ) by {
                    assert(comes_first(s, pa[a@.len() - 1], q[j]));
                }
                q = q.push(x);
            }
            let v = a.pop();
            match v {
                Some(t) => out.push(t),
                None => (),
            }
        }
    }
    let ghost p = q.reverse();
    let ghost before = out@;
    let out = reverse_vec(out);
    proof {
        assert forall|i: int| 0 <= i < p.len() implies 0 <= #[trigger] p[i] < s.len() && out@[i]
            == s[p[i]] by {
            assert(p[i] == q[q.len() - 1 - i]);
        }
        assert forall|i: int, j: int| 0 <= i < j < p.len() implies comes_first(
            s,
            #[trigger] p[i],
            #[trigger] p[j],
        ) by {
            assert(p[i] == q[q.len() - 1 - i]);
            assert(p[j] == q[q.len() - 1 - j]);
        }
    }
    (out, Ghost(p))
}

fn sort_with<T: Ranked>(v: Vec<T>) -> (r: (Vec<T>, Ghost<Seq<int>>))
    ensures
        arrangement(v@, r.0@, r.1@),
    decreases v@.len(),
{
    let ghost s = v@;
    let n: usize = v.len();
    if n <= 1 {
        let ghost p = Seq::new(n as nat, |i: int| i);
        return (v, Ghost(p));
    }
    let m: usize = n / 2;
    let mut first = v;
    let second = first.split_off(m);
    let ghost s1 = first@;
    let ghost s2 = second@;
    let (a, Ghost(pa)) = sort_with(first);
    let (b, Ghost(pb)) = sort_with(second);
    let ghost pb2 = Seq::new(pb.len(), |i: int| pb[i] + m);
    proof {
        assert(forall|i: int| 0 <= i < m ==> s1[i] == s[i]);
        assert(forall|i: int| 0 <= i < n - m ==> s2[i] == s[i + m]);
        assert forall|i: int| 0 <= i < pb2.len() implies m <= #[trigger] pb2[i] < s.len() && b@[i]
            == s[pb2[i]] by {
            assert(0 <= pb[i] < s2.len());
        }
        assert forall|i: int, j: int| 0 <= i < j < pa.len() implies comes_first(
            s,
            #[trigger] pa[i],
            #[trigger] pa[j],
        ) by {
            assert(comes_first(s1, pa[i], pa[j]));
        }
        assert forall|i: int, j: int| 0 <= i < j < pb2.len() implies comes_first(
            s,
            #[trigger] pb2[i],
            #[trigger] pb2[j],
        ) by {
            assert(comes_first(s2, pb[i], pb[j]));
        }
    }
    merge(a, b, Ghost(s), Ghost(pa), Ghost(pb2))
}

/// Sorts the list; values of equal rank keep their order.
pub fn sort<T: Ranked>(v: Vec<T>) -> (r: Vec<T>)
    ensures
        stable_sorted(v@, r@),
{
    let (out, Ghost(p)) = sort_with(v);
    assert(arrangement(v@, out@, p));
    out
}

// ---------------------------------------------------------------------------
// Sorting as a function of what the values stand for
// ---------------------------------------------------------------------------
/// The positions in `p` are those below `n`, each before those that it comes first of.
pub open spec fn in_order(n: nat, first: spec_fn(int, int) -> bool, p: Seq<int>) -> bool {
    &&& p.len() == n
    &&& forall|i: int| 0 <= i < n ==> 0 <= #[trigger] p[i] < n
    &&& forall|i: int, j: int| 0 <= i < j < n ==> first(#[trigger] p[i], #[trigger] p[j])
}

/// The order of the positions.
pub open spec fn order(n: nat, first: spec_fn(int, int) -> bool) -> Seq<int> {
    choose|p: Seq<int>| in_order(n, first, p)
}

/// Which of two positions comes first in the sorted list; at equal rank the lower one.
pub open spec fn precedes<V>(list: Seq<V>, before: spec_fn(V, V) -> bool) -> spec_fn(
    int,
    int,
) -> bool {
    |i: int, j: int| before(list[i], list[j]) && (before(list[j], list[i]) ==> i < j)
}

/// The list in the order that `before` gives; values of equal rank keep their order.
pub open spec fn sorted_by<V>(list: Seq<V>, before: spec_fn(V, V) -> bool) -> Seq<V> {
    let p = order(list.len(), precedes(list, before));
    Seq::new(list.len(), |i: int| list[p[i]])
}

proof fn lemma_holds_all(n: nat, p: Seq<int>)
    requires
        p.len() == n,
        p.no_duplicates(),
        forall|i: int| 0 <= i < n ==> 0 <= #[trigger] p[i] < n,
    ensures
        forall|x: int| 0 <= x < n ==> #[trigger] p.contains(x),
{
    p.unique_seq_to_set();
    let all = vstd::set_lib::set_int_range(0, n as int);
    vstd::set_lib::lemma_int_range(0, n as int);
    assert(p.to_set().subset_of(all));
    vstd::set_lib::lemma_len_subset(p.to_set(), all);
    vstd::set_lib::lemma_subset_equality(p.to_set(), all);
    assert forall|x: int| 0 <= x < n implies #[trigger] p.contains(x) by {
        assert(all.contains(x));
        assert(p.to_set().contains(x));
    }
}

proof fn lemma_in_order_onto(n: nat, first: spec_fn(int, int) -> bool, p: Seq<int>)
    requires
        in_order(n, first, p),
        forall|x: int, y: int| !(#[trigger] first(x, y) && first(y, x)),
    ensures
        forall|x: int| 0 <= x < n ==> #[trigger] p.contains(x),
{
    assert forall|i: int, j: int| 0 <= i < p.len() && 0 <= j < p.len() && i != j implies p[i]
        != p[j] by {
        if i < j {
            assert(first(p[i], p[j]));
        } else {
            assert(first(p[j], p[i]));
        }
    }
    lemma_holds_all(n, p);
}

proof fn lemma_orders_agree(
    n: nat,
    first: spec_fn(int, int) -> bool,
    p: Seq<int>,
    q: Seq<int>,
    upto: int,
)
    requires
        in_order(n, first, p),
        in_order(n, first, q),
        forall|x: int, y: int| !(#[trigger] first(x, y) && first(y, x)),
        forall|x: int| 0 <= x < n ==> #[trigger] p.contains(x),
        forall|x: int| 0 <= x < n ==> #[trigger] q.contains(x),
        0 <= upto <= n,
    ensures
        forall|i: int| 0 <= i < upto ==> p[i] == q[i],
    decreases upto,
{
    if upto > 0 {
        lemma_orders_agree(n, first, p, q, upto - 1);
        let k = upto - 1;
        let x = p[k];
        let y = q[k];
        if x != y {
            assert(q.contains(x));
            assert(p.contains(y));
            let i = choose|i: int| 0 <= i < q.len() && q[i] == x;
            let j = choose|j: int| 0 <= j < p.len() && p[j] == y;
            if i < k {
                assert(p[i] == q[i]);
                assert(first(p[i], p[k]));
            } else if j < k {
                assert(p[j] == q[j]);
                assert(first(q[j], q[k]));
            } else {
                assert(first(q[k], q[i]));
                assert(first(p[k], p[j]));
            }
        }
    }
}

/// What the values of a sorted list stand for is what they stood for before, sorted.
pub proof fn lemma_sorted_by<T: Ranked, V>(
    s: Seq<T>,
    r: Seq<T>,
    view: spec_fn(T) -> V,
    before: spec_fn(V, V) -> bool,
)
    requires
        stable_sorted(s, r),
        forall|i: int, j: int|
            0 <= i < s.len() && 0 <= j < s.len() ==> (#[trigger] s[i]).before(#[trigger] s[j])
                == before(view(s[i]), view(s[j])),
    ensures
        r.map_values(view) == sorted_by(s.map_values(view), before),
{
    let list = s.map_values(view);
    let first = precedes(list, before);
    let n = s.len();
    let p = choose|p: Seq<int>| arrangement(s, r, p);
    assert forall|i: int, j: int| 0 <= i < j < n implies first(#[trigger] p[i], #[trigger] p[j]) by {
        assert(comes_first(s, p[i], p[j]));
        assert(s[p[i]].before(s[p[j]]));
        assert(s[p[j]].before(s[p[i]]) == before(list[p[j]], list[p[i]]));
    }
    assert(in_order(n, first, p));
    let q = order(n, first);
    assert(in_order(n, first, q));
    lemma_in_order_onto(n, first, p);
    lemma_in_order_onto(n, first, q);
    lemma_orders_agree(n, first, p, q, n as int);
    assert(r.map_values(view) =~= sorted_by(list, before)) by {
        assert forall|i: int| 0 <= i < n implies r.map_values(view)[i] == sorted_by(list, before)[i] by {
            assert(p[i] == q[i]);
            assert(r[i] == s[p[i]]);
        }
    }
}

/// The relation orders all values, some of them possibly at one rank.
pub open spec fn orders<V>(before: spec_fn(V, V) -> bool) -> bool {
    &&& forall|a: V, b: V| #[trigger] before(a, b) || before(b, a)
    &&& forall|a: V, b: V, c: V| #[trigger] before(a, b) && #[trigger] before(b, c) ==> before(a, c)
}

/// A list in the order of positions that are in order is the sorted list.
pub proof fn ordered_positions_sort<V>(list: Seq<V>, before: spec_fn(V, V) -> bool, p: Seq<int>)
    requires
        in_order(list.len(), precedes(list, before), p),
    ensures
        sorted_by(list, before) == Seq::new(list.len(), |i: int| list[p[i]]),
{
    let first = precedes(list, before);
    let n = list.len();
    let q = order(n, first);
    assert(in_order(n, first, q));
    lemma_in_order_onto(n, first, p);
    lemma_in_order_onto(n, first, q);
    lemma_orders_agree(n, first, p, q, n as int);
    assert(sorted_by(list, before) =~= Seq::new(n, |i: int| list[p[i]]));
}

proof fn lemma_precedes<V>(list: Seq<V>, before: spec_fn(V, V) -> bool, x: int, y: int, z: int)
    requires
        orders(before),
    ensures
        x != y ==> precedes(list, before)(x, y) || precedes(list, before)(y, x),
        precedes(list, before)(x, y) && precedes(list, before)(y, z) ==> precedes(list, before)(
            x,
            z,
        ),
{
    let a = list[x];
    let b = list[y];
    let c = list[z];
    assert(before(a, b) || before(b, a));
    if before(a, b) && before(b, c) {
        assert(before(a, c));
        if before(c, a) {
            assert(before(c, b));
            assert(before(b, a));
        }
    }
}

/// Where the position `k` belongs among positions that are in order.
proof fn lemma_place(first: spec_fn(int, int) -> bool, p: Seq<int>, k: int, from: int) -> (m: int)
    requires
        0 <= from <= p.len(),
        forall|i: int| 0 <= i < from ==> first(#[trigger] p[i], k),
    ensures
        0 <= m <= p.len(),
        forall|i: int| 0 <= i < m ==> first(#[trigger] p[i], k),
        m < p.len() ==> !first(p[m], k),
    decreases p.len() - from,
{
    if from < p.len() && first(p[from], k) {
        lemma_place(first, p, k, from + 1)
    } else {
        from
    }
}

proof fn lemma_order_exists<V>(list: Seq<V>, before: spec_fn(V, V) -> bool, k: nat) -> (p: Seq<int>)
    requires
        orders(before),
        k <= list.len(),
    ensures
        in_order(k, precedes(list, before), p),
    decreases k,
{
    let first = precedes(list, before);
    if k == 0 {
        Seq::empty()
    } else {
        let q = lemma_order_exists(list, before, (k - 1) as nat);
        let x = k - 1;
        let m = lemma_place(first, q, x, 0);
        let p = q.insert(m, x);
        assert forall|i: int| 0 <= i < k implies 0 <= #[trigger] p[i] < k by {
            if i < m {
                assert(p[i] == q[i]);
            } else if i > m {
                assert(p[i] == q[i - 1]);
            }
        }
        assert forall|i: int, j: int| 0 <= i < j < k implies first(#[trigger] p[i], #[trigger] p[j]) by {
            if j < m {
                assert(p[i] == q[i] && p[j] == q[j]);
            } else if j == m {
                assert(p[i] == q[i]);
            } else {
                assert(p[j] == q[j - 1]);
                if i < m {
                    assert(p[i] == q[i]);
                    assert(first(q[i], q[j - 1]));
                } else if i == m {
                    lemma_precedes(list, before, x, q[m], q[j - 1]);
                    if m < j - 1 {
                        assert(first(q[m], q[j - 1]));
                    }
                } else {
                    assert(p[i] == q[i - 1]);
                    assert(first(q[i - 1], q[j - 1]));
                }
            }
        }
        p
    }
}

/// The sorted list holds the values of the list, each in a place of its own, and in their order;
/// values of one rank stay as they stood.
pub proof fn sorting_puts_in_order<V>(list: Seq<V>, before: spec_fn(V, V) -> bool) -> (p: Seq<int>)
    requires
        orders(before),
    ensures
        sorted_by(list, before).len() == list.len(),
        forall|i: int, j: int|
            0 <= i < j < list.len() ==> before(
                #[trigger] sorted_by(list, before)[i],
                #[trigger] sorted_by(list, before)[j],
            ),
        in_order(list.len(), precedes(list, before), p),
        p.no_duplicates(),
        sorted_by(list, before) == Seq::new(list.len(), |i: int| list[p[i]]),
        forall|v: V| #[trigger] sorted_by(list, before).contains(v) <==> list.contains(v),
{
    let first = precedes(list, before);
    let n = list.len();
    let p = lemma_order_exists(list, before, n);
    ordered_positions_sort(list, before, p);
    lemma_in_order_onto(n, first, p);
    let r = sorted_by(list, before);
    assert forall|i: int, j: int| 0 <= i < j < n implies before(#[trigger] r[i], #[trigger] r[j]) by {
        assert(first(p[i], p[j]));
    }
    assert forall|i: int, j: int| 0 <= i < p.len() && 0 <= j < p.len() && i != j implies p[i]
        != p[j] by {
        if i < j {
            assert(first(p[i], p[j]));
        } else {
            assert(first(p[j], p[i]));
        }
    }
    assert forall|v: V| #[trigger] r.contains(v) <==> list.contains(v) by {
        if r.contains(v) {
            let i = choose|i: int| 0 <= i < r.len() && r[i] == v;
            assert(list[p[i]] == v);
        }
        if list.contains(v) {
            let x = choose|x: int| 0 <= x < list.len() && list[x] == v;
            assert(p.contains(x));
            let i = choose|i: int| 0 <= i < p.len() && p[i] == x;
            assert(r[i] == v);
        }
    }
    p
}

} // verus!
