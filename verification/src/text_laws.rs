//! What holds of texts.
use vstd::prelude::*;

use crate::text::{
    after_last, at_most, char_from, decimal, decimal_nat, digits_value, first_part, integer_value, last_part,
    lemma_char_from, lemma_less_total, less, less_from, lower, lower_char, parts, parts_from, trim_end_by, trim_start_by,
    trimmed, white_space, words, words_from,
};

verus! {

// ---------------------------------------------------------------------------
// Case
// ---------------------------------------------------------------------------
/// The lower case of `A` to `Z` is the letter as far behind `a` as it stands behind `A`; every other
/// character stays.
pub proof fn capitals_become_small(c: char)
    ensures
        'A' <= c <= 'Z' ==> lower_char(c) as u32 - 'a' as u32 == c as u32 - 'A' as u32,
        !('A' <= c <= 'Z') ==> lower_char(c) == c,
        !('A' <= lower_char(c) <= 'Z'),
{
    if 'A' <= c <= 'Z' {
        let n = c as u8;
        assert(n == c as u32 && 65 <= n <= 90);
        assert((n + 32) as u8 == n + 32);
    }
}

/// A text in lower case stands in lower case already, and has as many characters as before.
pub proof fn lower_case_stays(s: Seq<char>)
    ensures
        lower(s).len() == s.len(),
        lower(lower(s)) == lower(s),
        forall|i: int| 0 <= i < s.len() ==> #[trigger] lower(s)[i] == lower_char(s[i]),
{
    assert forall|i: int| 0 <= i < s.len() implies lower(lower(s))[i] == lower(s)[i] by {
        capitals_become_small(s[i]);
        capitals_become_small(lower_char(s[i]));
    }
    assert(lower(lower(s)) =~= lower(s));
}

// ---------------------------------------------------------------------------
// Trimming
// ---------------------------------------------------------------------------
/// All characters are white space.
pub open spec fn blank(s: Seq<char>) -> bool {
    forall|i: int| 0 <= i < s.len() ==> white_space(#[trigger] s[i])
}

proof fn lemma_trim_start(s: Seq<char>, f: spec_fn(char) -> bool) -> (n: int)
    ensures
        0 <= n <= s.len(),
        trim_start_by(s, f) == s.subrange(n, s.len() as int),
        forall|i: int| 0 <= i < n ==> f(#[trigger] s[i]),
        n < s.len() ==> !f(s[n]),
    decreases s.len(),
{
    if s.len() > 0 && f(s[0]) {
        let t = s.subrange(1, s.len() as int);
        let m = lemma_trim_start(t, f);
        assert(t.subrange(m, t.len() as int) =~= s.subrange(m + 1, s.len() as int));
        assert forall|i: int| 0 <= i < m + 1 implies f(#[trigger] s[i]) by {
            if i > 0 {
                assert(t[i - 1] == s[i]);
            }
        }
        assert(m < t.len() ==> t[m] == s[m + 1]);
        m + 1
    } else {
        assert(s.subrange(0, s.len() as int) =~= s);
        0
    }
}

proof fn lemma_trim_end(s: Seq<char>, f: spec_fn(char) -> bool) -> (n: int)
    ensures
        0 <= n <= s.len(),
        trim_end_by(s, f) == s.subrange(0, n),
        forall|i: int| n <= i < s.len() ==> f(#[trigger] s[i]),
        n > 0 ==> !f(s[n - 1]),
    decreases s.len(),
{
    if s.len() > 0 && f(s[s.len() - 1]) {
        let t = s.subrange(0, s.len() - 1);
        let m = lemma_trim_end(t, f);
        assert(t.subrange(0, m) =~= s.subrange(0, m));
        assert forall|i: int| m <= i < s.len() implies f(#[trigger] s[i]) by {
            if i < s.len() - 1 {
                assert(t[i] == s[i]);
            }
        }
        assert(m > 0 ==> t[m - 1] == s[m - 1]);
        m
    } else {
        assert(s.subrange(0, s.len() as int) =~= s);
        s.len() as int
    }
}

/// The text is this one between white space.
pub open spec fn within_blanks(s: Seq<char>, t: Seq<char>) -> bool {
    exists|a: Seq<char>, b: Seq<char>| blank(a) && blank(b) && #[trigger] (a + t + b) == s
}

/// Trimming takes white space away at both ends, all of it, and nothing else.
pub proof fn trimming_takes_the_blanks_around(s: Seq<char>)
    ensures
        within_blanks(s, trimmed(s)),
        trimmed(s).len() > 0 ==> !white_space(trimmed(s)[0]) && !white_space(trimmed(s).last()),
        blank(s) <==> trimmed(s).len() == 0,
{
    let f = |c: char| white_space(c);
    let n = lemma_trim_start(s, f);
    let t = trim_start_by(s, f);
    let m = lemma_trim_end(t, f);
    let a = s.subrange(0, n);
    let b = t.subrange(m, t.len() as int);
    assert(a + trimmed(s) + b =~= s);
    assert forall|i: int| 0 <= i < a.len() implies white_space(#[trigger] a[i]) by {
        assert(f(s[i]));
    }
    assert forall|i: int| 0 <= i < b.len() implies white_space(#[trigger] b[i]) by {
        assert(f(t[m + i]));
    }
    assert(blank(a) && blank(b));
    if trimmed(s).len() > 0 {
        assert(t[0] == s[n]);
        assert(!f(s[n]) && !f(t[m - 1]));
    } else {
        assert(m == 0);
        assert forall|i: int| 0 <= i < s.len() implies white_space(#[trigger] s[i]) by {
            if i < n {
                assert(a[i] == s[i]);
            } else {
                assert(b[i - n] == s[i]);
            }
        }
    }
    if blank(s) && trimmed(s).len() > 0 {
        assert(trimmed(s)[0] == s[n]);
    }
}

/// What stands between white space, and neither begins nor ends with any, is what trimming leaves.
pub proof fn trimming_leaves_what_stands_between(a: Seq<char>, t: Seq<char>, b: Seq<char>)
    requires
        blank(a),
        blank(b),
        t.len() > 0 ==> !white_space(t[0]) && !white_space(t.last()),
    ensures
        trimmed(a + t + b) == t,
{
    let s = a + t + b;
    let f = |c: char| white_space(c);
    let n = lemma_trim_start(s, f);
    let rest = trim_start_by(s, f);
    let m = lemma_trim_end(rest, f);
    if t.len() > 0 {
        if n < a.len() {
            assert(s[n] == a[n]);
            assert(!f(s[n]));
        }
        if n > a.len() {
            assert(f(s[a.len() as int]));
            assert(s[a.len() as int] == t[0]);
        }
        assert(n == a.len());
        assert(rest =~= t + b);
        if m > t.len() {
            assert(!f(rest[m - 1]));
            assert(rest[m - 1] == b[m - 1 - t.len()]);
        }
        if m < t.len() {
            assert(f(rest[t.len() - 1]));
            assert(rest[t.len() - 1] == t.last());
        }
        assert(rest.subrange(0, m) =~= t);
    } else {
        if n < s.len() {
            assert(!f(s[n]));
            if n < a.len() {
                assert(s[n] == a[n]);
            } else {
                assert(s[n] == b[n - a.len()]);
            }
        }
        assert(rest.len() == 0);
        assert(rest.subrange(0, m) =~= t);
    }
}

// ---------------------------------------------------------------------------
// Order
// ---------------------------------------------------------------------------
/// The texts differ first at this place, where the first holds the smaller character or has ended.
pub open spec fn smaller_at(a: Seq<char>, b: Seq<char>, i: int) -> bool {
    &&& 0 <= i <= a.len()
    &&& i < b.len()
    &&& forall|j: int| 0 <= j < i ==> #[trigger] a[j] == b[j]
    &&& i == a.len() || a[i] < b[i]
}

proof fn lemma_less_from(a: Seq<char>, b: Seq<char>, k: int)
    requires
        0 <= k <= a.len(),
        k <= b.len(),
        forall|j: int| 0 <= j < k ==> #[trigger] a[j] == b[j],
    ensures
        less_from(a, b, k) <==> exists|i: int| k <= i && smaller_at(a, b, i),
    decreases a.len() - k,
{
    if k < a.len() && k < b.len() && a[k] == b[k] {
        lemma_less_from(a, b, k + 1);
        if exists|i: int| k <= i && smaller_at(a, b, i) {
            let i = choose|i: int| k <= i && smaller_at(a, b, i);
            assert(i != k);
            assert(k + 1 <= i && smaller_at(a, b, i));
        }
    } else if k < b.len() && (k == a.len() || a[k] < b[k]) {
        assert(smaller_at(a, b, k));
    } else if exists|i: int| k <= i && smaller_at(a, b, i) {
        let i = choose|i: int| k <= i && smaller_at(a, b, i);
        assert(i > k ==> a[k] == b[k]);
    }
}

/// Of two texts that one comes first that holds the smaller character where they first differ, or
/// that the other begins with.
pub proof fn texts_are_ordered_by_their_first_difference(a: Seq<char>, b: Seq<char>)
    ensures
        less(a, b) <==> exists|i: int| smaller_at(a, b, i),
        at_most(a, b) <==> less(a, b) || a == b,
        !(less(a, b) && less(b, a)),
{
    lemma_less_total(a, b);
    lemma_less_from(a, b, 0);
    lemma_less_from(b, a, 0);
    if less(a, b) {
        let i = choose|i: int| 0 <= i && smaller_at(a, b, i);
        assert(smaller_at(a, b, i));
        if less(b, a) {
            let j = choose|j: int| 0 <= j && smaller_at(b, a, j);
            if j < i {
                assert(a[j] == b[j]);
            } else if i < j {
                assert(a[i] == b[i]);
            }
        }
    }
}

// ---------------------------------------------------------------------------
// Numbers
// ---------------------------------------------------------------------------
proof fn lemma_decimal_nat(n: nat)
    ensures
        decimal_nat(n).len() > 0,
        digits_value(decimal_nat(n)) == Some(n as int),
        '0' <= decimal_nat(n)[0] <= '9',
    decreases n,
{
    let s = decimal_nat(n);
    let d = (n % 10) as int;
    let c = ((48 + d) as u8) as char;
    assert(c as u32 == 48 + d);
    if n < 10 {
        assert(s.drop_last() =~= Seq::<char>::empty());
        assert(digits_value(s.drop_last()) == Some(0int));
    } else {
        lemma_decimal_nat(n / 10);
        assert(s.drop_last() =~= decimal_nat(n / 10));
        assert(s[0] == decimal_nat(n / 10)[0]);
    }
}

/// A number that was written down reads as that number.
pub proof fn numbers_read_as_written(n: int)
    ensures
        integer_value(decimal(n)) == Some(n),
{
    if n < 0 {
        lemma_decimal_nat((-n) as nat);
        let s = decimal(n);
        assert(s.subrange(1, s.len() as int) =~= decimal_nat((-n) as nat));
    } else {
        lemma_decimal_nat(n as nat);
    }
}

/// Different numbers are written differently.
pub proof fn numbers_are_told_apart(a: int, b: int)
    ensures
        decimal(a) == decimal(b) <==> a == b,
{
    numbers_read_as_written(a);
    numbers_read_as_written(b);
}

// ---------------------------------------------------------------------------
// Parts
// ---------------------------------------------------------------------------
proof fn lemma_after_last(s: Seq<char>, c: char, upto: int)
    requires
        0 <= upto <= s.len(),
    ensures
        0 <= after_last(s, c, upto) <= upto,
        after_last(s, c, upto) > 0 ==> s[after_last(s, c, upto) - 1] == c,
        forall|j: int| after_last(s, c, upto) <= j < upto ==> s[j] != c,
    decreases upto,
{
    if upto > 0 && s[upto - 1] != c {
        lemma_after_last(s, c, upto - 1);
    }
}

/// What follows the last separator is the last part, and what stands before the first one the first
/// part; a text without one is both.
pub proof fn first_and_last_parts(front: Seq<char>, c: char, back: Seq<char>)
    ensures
        !back.contains(c) ==> last_part(front + seq![c] + back, c) == back && last_part(back, c)
            == back,
        !front.contains(c) ==> first_part(front + seq![c] + back, c) == front && first_part(front, c)
            == front,
{
    let s = front + seq![c] + back;
    let k = front.len() as int;
    assert(s[k] == c);
    if !back.contains(c) {
        lemma_after_last(s, c, s.len() as int);
        lemma_after_last(back, c, back.len() as int);
        let i = after_last(s, c, s.len() as int);
        if i > k + 1 {
            assert(s[i - 1] == back[i - 1 - k - 1]);
        }
        assert(i == k + 1);
        assert(last_part(s, c) =~= back);
        assert(last_part(back, c) =~= back);
    }
    if !front.contains(c) {
        lemma_char_from(s, c, 0);
        lemma_char_from(front, c, 0);
        let i = char_from(s, c, 0);
        if i < k {
            assert(s[i] == front[i]);
        }
        assert(i == k);
        assert(first_part(s, c) =~= front);
        assert(first_part(front, c) =~= front);
    }
}

/// The parts, one behind the other, with the separator between them.
pub open spec fn put_together(list: Seq<Seq<char>>, c: char) -> Seq<char>
    decreases list.len(),
{
    if list.len() == 0 {
        Seq::empty()
    } else if list.len() == 1 {
        list[0]
    } else {
        list[0] + seq![c] + put_together(list.subrange(1, list.len() as int), c)
    }
}

proof fn lemma_parts_from(s: Seq<char>, c: char, from: int)
    requires
        0 <= from <= s.len(),
    ensures
        parts_from(s, c, from).len() > 0,
        put_together(parts_from(s, c, from), c) == s.subrange(from, s.len() as int),
        forall|k: int|
            0 <= k < parts_from(s, c, from).len() ==> !(#[trigger] parts_from(s, c, from)[k]).contains(
                c,
            ),
    decreases s.len() - from,
{
    lemma_char_from(s, c, from);
    let i = char_from(s, c, from);
    let list = parts_from(s, c, from);
    if i < s.len() {
        let rest = parts_from(s, c, i + 1);
        lemma_parts_from(s, c, i + 1);
        assert(list == seq![s.subrange(from, i)] + rest);
        assert(list.subrange(1, list.len() as int) =~= rest);
        assert(put_together(list, c) =~= s.subrange(from, s.len() as int));
        assert forall|k: int| 0 <= k < list.len() implies !(#[trigger] list[k]).contains(c) by {
            if k > 0 {
                assert(list[k] == rest[k - 1]);
            }
        }
    } else {
        assert(list =~= seq![s.subrange(from, s.len() as int)]);
    }
}

/// A text is split at every separator, and nowhere else: no part holds one, and the parts with one
/// between each two are the text.
pub proof fn parts_make_up_the_text(s: Seq<char>, c: char)
    ensures
        put_together(parts(s, c), c) == s,
        parts(s, c).len() > 0,
        forall|k: int| 0 <= k < parts(s, c).len() ==> !(#[trigger] parts(s, c)[k]).contains(c),
{
    lemma_parts_from(s, c, 0);
    assert(s.subrange(0, s.len() as int) =~= s);
}

/// The characters between `a` and `b` are a longest run without white space.
pub open spec fn word_at(s: Seq<char>, a: int, b: int) -> bool {
    &&& 0 <= a < b <= s.len()
    &&& forall|j: int| a <= j < b ==> !white_space(#[trigger] s[j])
    &&& a == 0 || white_space(s[a - 1])
    &&& b == s.len() || white_space(s[b])
}

/// The text is a word of the longer one.
pub open spec fn is_word(s: Seq<char>, w: Seq<char>) -> bool {
    exists|a: int, b: int| #[trigger] word_at(s, a, b) && w == s.subrange(a, b)
}

proof fn lemma_words_from(s: Seq<char>, start: int, i: int)
    requires
        0 <= start <= i <= s.len(),
        start == 0 || white_space(s[start - 1]),
        forall|j: int| start <= j < i ==> !white_space(#[trigger] s[j]),
    ensures
        forall|k: int|
            0 <= k < words_from(s, start, i).len() ==> is_word(
                s,
                #[trigger] words_from(s, start, i)[k],
            ),
        forall|a: int, b: int|
            start <= a && #[trigger] word_at(s, a, b) ==> words_from(s, start, i).contains(
                s.subrange(a, b),
            ),
    decreases s.len() - i,
{
    let list = words_from(s, start, i);
    if i >= s.len() {
        if start < i {
            assert(word_at(s, start, i));
            assert(is_word(s, s.subrange(start, i)));
        }
        assert forall|k: int| 0 <= k < list.len() implies is_word(s, #[trigger] list[k]) by {
            assert(list[k] == s.subrange(start, i));
        }
        assert forall|a: int, b: int| start <= a && #[trigger] word_at(s, a, b) implies list.contains(
            s.subrange(a, b),
        ) by {
            if a > start {
                assert(!white_space(s[a - 1]));
            }
            assert(list[0] == s.subrange(a, b));
        }
    } else if white_space(s[i]) {
        let rest = words_from(s, i + 1, i + 1);
        lemma_words_from(s, i + 1, i + 1);
        if start < i {
            assert(word_at(s, start, i));
            assert(is_word(s, s.subrange(start, i)));
            assert(list == seq![s.subrange(start, i)] + rest);
            assert forall|k: int| 0 <= k < list.len() implies is_word(s, #[trigger] list[k]) by {
                if k > 0 {
                    assert(list[k] == rest[k - 1]);
                    assert(is_word(s, rest[k - 1]));
                }
            }
        } else {
            assert(list == rest);
            assert forall|k: int| 0 <= k < list.len() implies is_word(s, #[trigger] list[k]) by {
                assert(is_word(s, rest[k]));
            }
        }
        assert forall|a: int, b: int| start <= a && #[trigger] word_at(s, a, b) implies list.contains(
            s.subrange(a, b),
        ) by {
            if a > i {
                let w = s.subrange(a, b);
                assert(rest.contains(w));
                let k = choose|k: int| 0 <= k < rest.len() && rest[k] == w;
                if start < i {
                    assert(list[k + 1] == w);
                }
            } else {
                if a > start {
                    assert(a < i ==> !white_space(s[a - 1]));
                    assert(!white_space(s[a]));
                }
                assert(a == start);
                if b > i {
                    assert(!white_space(s[i]));
                }
                if b < i {
                    assert(!white_space(s[b]));
                }
                assert(list[0] == s.subrange(a, b));
            }
        }
    } else {
        lemma_words_from(s, start, i + 1);
        let rest = words_from(s, start, i + 1);
        assert(list == rest);
        assert forall|k: int| 0 <= k < list.len() implies is_word(s, #[trigger] list[k]) by {
            assert(is_word(s, rest[k]));
        }
    }
}

/// The words of a text are its longest runs without white space: each of them, and nothing else.
pub proof fn words_are_the_runs_between_blanks(s: Seq<char>, w: Seq<char>)
    ensures
        words(s).contains(w) <==> is_word(s, w),
{
    lemma_words_from(s, 0, 0);
    if words(s).contains(w) {
        let k = choose|k: int| 0 <= k < words(s).len() && words(s)[k] == w;
        assert(is_word(s, words(s)[k]));
    }
    if is_word(s, w) {
        let (a, b) = choose|a: int, b: int| #[trigger] word_at(s, a, b) && w == s.subrange(a, b);
        assert(words_from(s, 0, 0).contains(s.subrange(a, b)));
    }
}

} // verus!
