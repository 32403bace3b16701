//! Sets of texts as lists in ascending order.
use vstd::prelude::*;

use crate::sort::{arrangement, lemma_arrangement_onto, lemma_sorted_order, sort, stable_sorted, Ranked};
use crate::text;

verus! {

/// Every text is less than those behind it, so that none occurs twice.
pub open spec fn ascending(s: Seq<Seq<char>>) -> bool {
    forall|i: int, j: int| 0 <= i < j < s.len() ==> text::less(#[trigger] s[i], #[trigger] s[j])
}

/// The lists hold the same texts.
pub open spec fn same_members(a: Seq<Seq<char>>, b: Seq<Seq<char>>) -> bool {
    forall|s: Seq<char>| #[trigger] a.contains(s) <==> b.contains(s)
}

/// The texts of a list in ascending order, each once.
pub open spec fn sorted_set(list: Seq<Seq<char>>) -> Seq<Seq<char>> {
    choose|r: Seq<Seq<char>>| ascending(r) && same_members(r, list)
}

/// A list that is ascending and holds the texts is the sorted one.
pub proof fn lemma_sorted_set(list: Seq<Seq<char>>, r: Seq<Seq<char>>)
    requires
        ascending(r),
        same_members(r, list),
    ensures
        sorted_set(list) == r,
{
    let s = sorted_set(list);
    assert(ascending(s) && same_members(s, list));
    assert(same_members(s, r)) by {
        assert forall|x: Seq<char>| #[trigger] s.contains(x) <==> r.contains(x) by {
            assert(s.contains(x) <==> list.contains(x));
            assert(r.contains(x) <==> list.contains(x));
        }
    }
    ascending_list_is_unique(s, r);
}

struct Word {
    text: String,
}

impl Ranked for Word {
    closed spec fn before(self, other: Self) -> bool {
        text::at_most(self.text@, other.text@)
    }

    proof fn before_total(a: Self, b: Self) {
        text::lemma_less_total(a.text@, b.text@);
    }

    proof fn before_trans(a: Self, b: Self, c: Self) {
        text::lemma_at_most_trans(a.text@, b.text@, c.text@);
    }

    fn may_precede(&self, other: &Self) -> (r: bool) {
        !text::is_less(&other.text, &self.text)
    }
}

/// The texts of a list in ascending order, each once.
pub fn sorted_strings(list: &Vec<String>) -> (r: Vec<String>)
    ensures
        ascending(text::texts(r@)),
        same_members(text::texts(r@), text::texts(list@)),
        text::texts(r@) == sorted_set(text::texts(list@)),
{
    let mut words: Vec<Word> = Vec::new();
    let n: usize = list.len();
    let mut i: usize = 0;
    while i < n
        invariant
            n == list@.len(),
            i <= n,
            words@.len() == i,
            forall|j: int| 0 <= j < i ==> (#[trigger] words@[j]).text@ == list@[j]@,
        decreases n - i,
    {
        words.push(Word { text: text::copy_of(&list[i]) });
        i = i + 1;
    }
    let ghost unsorted = words@;
    let sorted = sort(words);
    let mut r: Vec<String> = Vec::new();
    let mut k: usize = 0;
    let m: usize = sorted.len();
    assert(text::texts(r@) =~= Seq::<Seq<char>>::empty());
    while k < m
        invariant
            m == sorted@.len(),
            k <= m,
            stable_sorted(unsorted, sorted@),
            ascending(text::texts(r@)),
            k == 0 ==> r@.len() == 0,
            k > 0 ==> r@.len() > 0 && text::texts(r@).last() == sorted@[k - 1].text@,
            forall|j: int|
                0 <= j < k ==> text::texts(r@).contains((#[trigger] sorted@[j]).text@),
            forall|s: Seq<char>| #[trigger]
                text::texts(r@).contains(s) ==> exists|j: int|
                    0 <= j < k && (#[trigger] sorted@[j]).text@ == s,
        decreases m - k,
    {
        let ghost before = text::texts(r@);
        assert(before.len() == r@.len());
        let fresh = r.len() == 0 || !text::same(&r[r.len() - 1], &sorted[k].text);
        if fresh {
            r.push(text::copy_of(&sorted[k].text));
            let ghost x = sorted@[k as int].text@;
            assert(text::texts(r@) =~= before.push(x));
            proof {
                assert forall|i: int, j: int| 0 <= i < j < text::texts(r@).len() implies text::less(
                    #[trigger] text::texts(r@)[i],
                    #[trigger] text::texts(r@)[j],
                ) by {
                    if j == before.len() {
                        lemma_sorted_order(unsorted, sorted@, k - 1, k as int);
                        text::lemma_less_total(before.last(), x);
                        if i < before.len() - 1 {
                            assert(text::less(before[i], before.last()));
                            text::lemma_less_total(before[i], x);
                            text::lemma_less_total(before[i], before.last());
                            if !text::less(before[i], x) {
                                text::lemma_at_most_trans(x, before[i], before.last());
                            }
                        }
                    } else {
                        assert(text::texts(r@)[i] == before[i]);
                        assert(text::texts(r@)[j] == before[j]);
                    }
                }
                assert forall|j: int| 0 <= j < k + 1 implies text::texts(r@).contains(
                    (#[trigger] sorted@[j]).text@,
                ) by {
                    if j < k {
                        let w = before.index_of(sorted@[j].text@);
                        assert(before.contains(sorted@[j].text@));
                        assert(text::texts(r@)[w] == before[w]);
                    } else {
                        assert(text::texts(r@)[before.len() as int] == x);
                    }
                }
                assert forall|s: Seq<char>| #[trigger] text::texts(r@).contains(s) implies exists|
                    j: int,
                | 0 <= j < k + 1 && (#[trigger] sorted@[j]).text@ == s by {
                    if s != x {
                        let w = text::texts(r@).index_of(s);
                        assert(before[w] == s);
                        assert(before.contains(s));
                        let j = choose|j: int|
                            0 <= j < k && (#[trigger] sorted@[j]).text@ == s;
                        assert(sorted@[j].text@ == s);
                    } else {
                        assert(sorted@[k as int].text@ == s);
                    }
                }
            }
        } else {
            proof {
                assert(before[before.len() - 1] == sorted@[k as int].text@);
                assert forall|s: Seq<char>| #[trigger] text::texts(r@).contains(s) implies exists|
                    j: int,
                | 0 <= j < k + 1 && (#[trigger] sorted@[j]).text@ == s by {
                    let j = choose|j: int| 0 <= j < k && (#[trigger] sorted@[j]).text@ == s;
                    assert(sorted@[j].text@ == s);
                }
            }
        }
        k = k + 1;
    }
    proof {
        let p = choose|p: Seq<int>| arrangement(unsorted, sorted@, p);
        lemma_arrangement_onto(unsorted, sorted@, p);
        let t = text::texts(list@);
        assert forall|s: Seq<char>| #[trigger] text::texts(r@).contains(s) <==> t.contains(s) by {
            if text::texts(r@).contains(s) {
                let j = choose|j: int| 0 <= j < m && (#[trigger] sorted@[j]).text@ == s;
                assert(sorted@[j] == unsorted[p[j]]);
                assert(t[p[j]] == s);
            }
            if t.contains(s) {
                let i = t.index_of(s);
                assert(unsorted[i].text@ == s);
                assert(p.contains(i));
                let j = choose|j: int| 0 <= j < p.len() && p[j] == i;
                assert(sorted@[j] == unsorted[p[j]]);
            }
        }
        lemma_sorted_set(t, text::texts(r@));
    }
    r
}

/// There is one ascending list of the same texts.
pub proof fn ascending_list_is_unique(a: Seq<Seq<char>>, b: Seq<Seq<char>>)
    requires
        ascending(a),
        ascending(b),
        same_members(a, b),
    ensures
        a == b,
    decreases a.len(),
{
    if a.len() == 0 {
        if b.len() > 0 {
            assert(b.contains(b[0]));
            assert(a.contains(b[0]));
        }
        assert(a =~= b);
    } else {
        assert(a.contains(a.last()));
        assert(b.contains(a.last()));
        assert(b.len() > 0);
        assert(b.contains(b.last()));
        assert(a.contains(b.last()));
        let i = a.index_of(b.last());
        let j = b.index_of(a.last());
        text::lemma_less_total(a.last(), b.last());
        if i < a.len() - 1 {
            assert(text::less(a[i], a.last()));
            if j < b.len() - 1 {
                assert(text::less(b[j], b.last()));
            }
        }
        if j < b.len() - 1 {
            assert(text::less(b[j], b.last()));
        }
        assert(a.last() == b.last());
        let x = a.drop_last();
        let y = b.drop_last();
        lemma_members_without_last(a, b);
        assert(ascending(x)) by {
            assert forall|i: int, j: int| 0 <= i < j < x.len() implies text::less(
                #[trigger] x[i],
                #[trigger] x[j],
            ) by {
                assert(text::less(a[i], a[j]));
            }
        }
        assert(ascending(y)) by {
            assert forall|i: int, j: int| 0 <= i < j < y.len() implies text::less(
                #[trigger] y[i],
                #[trigger] y[j],
            ) by {
                assert(text::less(b[i], b[j]));
            }
        }
        ascending_list_is_unique(x, y);
        assert(a =~= x.push(a.last()));
        assert(b =~= y.push(b.last()));
    }
}

proof fn lemma_members_without_last(a: Seq<Seq<char>>, b: Seq<Seq<char>>)
    requires
        ascending(a),
        ascending(b),
        same_members(a, b),
        a.len() > 0,
        b.len() > 0,
        a.last() == b.last(),
    ensures
        same_members(a.drop_last(), b.drop_last()),
{
    let x = a.drop_last();
    let y = b.drop_last();
    assert forall|s: Seq<char>| #[trigger] x.contains(s) <==> y.contains(s) by {
        text::lemma_less_total(s, s);
        if x.contains(s) {
            let i = x.index_of(s);
            assert(a[i] == s);
            assert(text::less(a[i], a.last()));
            assert(a.contains(s));
            assert(b.contains(s));
            let j = b.index_of(s);
            assert(j < b.len() - 1);
            assert(y[j] == s);
        }
        if y.contains(s) {
            let i = y.index_of(s);
            assert(b[i] == s);
            assert(text::less(b[i], b.last()));
            assert(b.contains(s));
            assert(a.contains(s));
            let j = a.index_of(s);
            assert(j < a.len() - 1);
            assert(x[j] == s);
        }
    }
}

} // verus!
