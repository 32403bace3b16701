//! What holds of the index of members: of the names of classes, of listings and of subclasses.
use vstd::prelude::*;

use super::member_index::{
    access_of, cleaned, extends_queue, ids_named, index_of_rows, kept, lemma_id_set_len, narrowed,
    parent_owners, picked, shown_members, shown_values, unknown_names_have_no_class, with_rank,
    without_const, ClassRow, EnumValueRow, HotMemberItem, MemberAccess, MemberEntry,
    MemberHotIndex, MemberRow, ParentEntry, ParentRow,
};
use crate::text;

verus! {

// ---------------------------------------------------------------------------
// Names of classes
// ---------------------------------------------------------------------------
pub open spec fn plain_char(c: char) -> bool {
    text::ascii_alnum(c) || c == '_'
}

/// A name as it is declared: letters, digits and underscores.
pub open spec fn plain_name(s: Seq<char>) -> bool {
    s.len() > 0 && (forall|i: int| 0 <= i < s.len() ==> plain_char(#[trigger] s[i]))
}

/// The name stands first and last in a text, or only `x` stands around it.
proof fn lemma_trim_to(s: Seq<char>, f: spec_fn(char) -> bool, a: int, b: int)
    requires
        0 <= a < b <= s.len(),
        forall|i: int| 0 <= i < a ==> f(#[trigger] s[i]),
        forall|i: int| b <= i < s.len() ==> f(#[trigger] s[i]),
        !f(s[a]),
        !f(s[b - 1]),
    ensures
        text::trim_end_by(text::trim_start_by(s, f), f) == s.subrange(a, b),
{
    lemma_trim_start_to(s, f, a);
    let t = s.subrange(a, s.len() as int);
    lemma_trim_end_to(t, f, b - a);
    assert(t.subrange(0, b - a) =~= s.subrange(a, b));
}

proof fn lemma_trim_start_to(s: Seq<char>, f: spec_fn(char) -> bool, a: int)
    requires
        0 <= a < s.len(),
        forall|i: int| 0 <= i < a ==> f(#[trigger] s[i]),
        !f(s[a]),
    ensures
        text::trim_start_by(s, f) == s.subrange(a, s.len() as int),
    decreases a,
{
    if a == 0 {
        assert(s.subrange(0, s.len() as int) =~= s);
    } else {
        let t = s.subrange(1, s.len() as int);
        assert(f(s[0]));
        assert forall|i: int| 0 <= i < a - 1 implies f(#[trigger] t[i]) by {
            assert(f(s[i + 1]));
        }
        lemma_trim_start_to(t, f, a - 1);
        assert(t.subrange(a - 1, t.len() as int) =~= s.subrange(a, s.len() as int));
    }
}

proof fn lemma_trim_end_to(s: Seq<char>, f: spec_fn(char) -> bool, b: int)
    requires
        0 < b <= s.len(),
        forall|i: int| b <= i < s.len() ==> f(#[trigger] s[i]),
        !f(s[b - 1]),
    ensures
        text::trim_end_by(s, f) == s.subrange(0, b),
    decreases s.len(),
{
    if b == s.len() {
        assert(s.subrange(0, b) =~= s);
    } else {
        let t = s.subrange(0, s.len() - 1);
        assert(f(s[s.len() - 1]));
        lemma_trim_end_to(t, f, b);
        assert(t.subrange(0, b) =~= s.subrange(0, b));
    }
}

/// A text in which the only blank, if any, stands behind the name does not begin with another word.
proof fn lemma_not_worded(s: Seq<char>, n: Seq<char>, word: Seq<char>)
    requires
        word.len() > 0,
        word.last() == ' ',
        text::starts(s, n),
        forall|i: int| 0 <= i < s.len() && #[trigger] s[i] == ' ' ==> i == n.len(),
        n != word.drop_last(),
    ensures
        !text::starts(s, word),
{
    if text::starts(s, word) {
        let k = word.len() - 1;
        assert(s.subrange(0, word.len() as int)[k] == s[k]);
        assert(s.subrange(0, n.len() as int) =~= word.drop_last()) by {
            assert forall|i: int| 0 <= i < k implies s[i] == #[trigger] word[i] by {
                assert(s.subrange(0, word.len() as int)[i] == s[i]);
            }
        }
    }
}

pub open spec fn decorating_word(s: Seq<char>) -> bool {
    s == "class"@ || s == "struct"@ || s == "const"@
}

/// Nothing is taken off before a name behind which no blank stands, or which is none of the words
/// that are taken off.
proof fn lemma_undecorated(s: Seq<char>, n: Seq<char>)
    requires
        text::starts(s, n),
        forall|i: int| 0 <= i < s.len() && #[trigger] s[i] == ' ' ==> i == n.len(),
        !text::has_char(s, ' ') || !decorating_word(n),
    ensures
        text::without_prefixes(s, "class "@) == s,
        text::without_prefixes(s, "struct "@) == s,
        without_const(s) == s,
{
    reveal_strlit("class ");
    reveal_strlit("struct ");
    reveal_strlit("const ");
    reveal_strlit("class");
    reveal_strlit("struct");
    reveal_strlit("const");
    let whole = if text::has_char(s, ' ') {
        n
    } else {
        s
    };
    assert(s.subrange(0, s.len() as int) =~= s);
    assert("class "@.drop_last() =~= "class"@);
    assert("struct "@.drop_last() =~= "struct"@);
    assert("const "@.drop_last() =~= "const"@);
    if !text::has_char(s, ' ') {
        assert forall|w: Seq<char>| w.len() > 0 && #[trigger] w.last() == ' ' implies !text::starts(
            s,
            w,
        ) by {
            if text::starts(s, w) {
                assert(s.subrange(0, w.len() as int)[w.len() - 1] == s[w.len() - 1]);
            }
        }
        assert("class "@.last() == ' ');
        assert("struct "@.last() == ' ');
        assert("const "@.last() == ' ');
    } else {
        lemma_not_worded(s, n, "class "@);
        lemma_not_worded(s, n, "struct "@);
        lemma_not_worded(s, n, "const "@);
    }
}

/// What is taken off around the name behind the words before it.
spec fn without_signs(s: Seq<char>) -> Seq<char> {
    text::trimmed(text::trimmed_of(text::trimmed_of(s, '&'), '*'))
}

/// Signs that may stand behind the name of a class.
pub open spec fn sign(tail: Seq<char>) -> bool {
    tail == Seq::<char>::empty() || tail == seq!['*'] || tail == seq!['&']
}

proof fn lemma_signs(n: Seq<char>, tail: Seq<char>)
    requires
        plain_name(n),
        sign(tail) || tail == seq![' ', '*', '&'],
    ensures
        without_signs(n + tail) == n,
{
    let s = n + tail;
    let and = text::equal_to('&');
    let star = text::equal_to('*');
    let blank = |c: char| text::white_space(c);
    assert(plain_char(n[0]) && plain_char(n[n.len() - 1]));
    let k: int = if tail.len() > 0 && tail.last() == '&' {
        s.len() - 1
    } else {
        s.len() as int
    };
    assert(s[0] == n[0]);
    if tail.len() == 3 {
        assert(s[k - 1] == tail[1]);
        assert(s[k - 2] == tail[0]);
    } else if k == n.len() {
        assert(s[k - 1] == n[n.len() - 1]);
    } else {
        assert(s[k - 1] == tail[0]);
    }
    lemma_trim_to(s, and, 0, k);
    let t = s.subrange(0, k);
    let j: int = if k > n.len() {
        k - 1
    } else {
        k
    };
    assert(j > n.len() ==> t[j - 1] == ' ');
    assert(j == n.len() ==> t[j - 1] == n[n.len() - 1]);
    lemma_trim_to(t, star, 0, j);
    let u = t.subrange(0, j);
    assert(u[0] == n[0] && u[n.len() - 1] == n[n.len() - 1]);
    lemma_trim_to(u, blank, 0, n.len() as int);
    assert(u.subrange(0, n.len() as int) =~= n);
}

/// No blank stands before or behind the text.
proof fn lemma_trimmed_keeps(s: Seq<char>)
    requires
        s.len() > 0,
        !text::white_space(s[0]),
        !text::white_space(s[s.len() - 1]),
    ensures
        text::trimmed(s) == s,
{
    lemma_trim_to(s, |c: char| text::white_space(c), 0, s.len() as int);
    assert(s.subrange(0, s.len() as int) =~= s);
}

/// A name with signs behind it is cleaned to the name.
proof fn lemma_cleaned_tail(n: Seq<char>, tail: Seq<char>)
    requires
        plain_name(n),
        sign(tail) || (tail == seq![' ', '*', '&'] && !decorating_word(n)),
    ensures
        cleaned(n + tail) == n,
        text::trimmed(n + tail) == n + tail,
        text::without_prefixes(n + tail, "class "@) == n + tail,
        text::without_prefixes(n + tail, "struct "@) == n + tail,
        without_const(n + tail) == n + tail,
{
    let s = n + tail;
    assert(s.subrange(0, n.len() as int) =~= n);
    assert(plain_char(n[0]) && plain_char(n[n.len() - 1]));
    assert forall|i: int| 0 <= i < s.len() && #[trigger] s[i] == ' ' implies i == n.len() by {
        if i < n.len() {
            assert(plain_char(n[i]));
        } else {
            assert(s[i] == tail[i - n.len()]);
        }
    }
    if text::has_char(s, ' ') {
        let i = choose|i: int| 0 <= i < s.len() && s[i] == ' ';
        assert(s[i] == tail[i - n.len()]);
    }
    assert(s[0] == n[0]);
    if tail.len() > 0 {
        assert(s[s.len() - 1] == tail[tail.len() - 1]);
    } else {
        assert(s[s.len() - 1] == n[n.len() - 1]);
    }
    lemma_trimmed_keeps(s);
    lemma_undecorated(s, n);
    lemma_signs(n, tail);
}

/// A word before a name is taken off.
proof fn lemma_cleaned_word(n: Seq<char>, word: Seq<char>, tail: Seq<char>)
    requires
        plain_name(n),
        decorating_word(word),
        sign(tail),
    ensures
        cleaned(word + seq![' '] + n + tail) == n,
{
    reveal_strlit("class ");
    reveal_strlit("struct ");
    reveal_strlit("const ");
    reveal_strlit("class");
    reveal_strlit("struct");
    reveal_strlit("const");
    let t = n + tail;
    let s = word + seq![' '] + n + tail;
    let w = word + seq![' '];
    lemma_cleaned_tail(n, tail);
    assert(s =~= w + t);
    assert(s.subrange(0, w.len() as int) =~= w);
    assert(s.subrange(w.len() as int, s.len() as int) =~= t);
    assert(plain_char(n[0]) && plain_char(n[n.len() - 1]));
    assert(s[0] == word[0]);
    assert(s[1] == word[1]);
    assert(s[s.len() - 1] == t[t.len() - 1]);
    if tail.len() > 0 {
        assert(t[t.len() - 1] == tail[0]);
    } else {
        assert(t[t.len() - 1] == n[n.len() - 1]);
    }
    lemma_trimmed_keeps(s);
    if word == "class"@ {
        assert(w =~= "class "@);
    } else {
        if text::starts(s, "class "@) {
            assert(s.subrange(0, 6)[0] == s[0]);
            assert(s.subrange(0, 6)[1] == s[1]);
        }
        assert(text::without_prefixes(s, "class "@) == s);
        if word == "struct"@ {
            assert(w =~= "struct "@);
        } else {
            assert(w =~= "const "@);
            if text::starts(s, "struct "@) {
                assert(s.subrange(0, 7)[0] == s[0]);
            }
            assert(text::without_prefixes(s, "struct "@) == s);
            assert(without_const(s) == without_const(text::trimmed(t)));
        }
    }
    lemma_signs(n, tail);
}

/// A blank on either side of a name is taken off.
proof fn lemma_cleaned_blanks(n: Seq<char>)
    requires
        plain_name(n),
    ensures
        cleaned(seq![' '] + n + seq![' ']) == n,
        cleaned(n) == n,
{
    let s = seq![' '] + n + seq![' '];
    assert(plain_char(n[0]) && plain_char(n[n.len() - 1]));
    assert(s[1] == n[0]);
    assert(s[s.len() - 2] == n[n.len() - 1]);
    lemma_trim_to(s, |c: char| text::white_space(c), 1, s.len() - 1);
    assert(s.subrange(1, s.len() - 1) =~= n);
    lemma_cleaned_tail(n, Seq::empty());
    assert(n + Seq::<char>::empty() =~= n);
}

/// How a type may be written that means the class `n`: between blanks, behind `class`, `struct` or
/// `const`, with a sign behind it, or with `*&` behind a blank.
pub open spec fn spells(s: Seq<char>, n: Seq<char>) -> bool {
    ||| s == seq![' '] + n + seq![' ']
    ||| exists|tail: Seq<char>| #[trigger] sign(tail) && s == n + tail
    ||| exists|word: Seq<char>, tail: Seq<char>| #[trigger]
        decorating_word(word) && #[trigger] sign(tail) && s == word + seq![' '] + n + tail
    ||| s == n + seq![' ', '*', '&'] && !decorating_word(n)
}

proof fn lemma_spelled(s: Seq<char>, n: Seq<char>)
    requires
        plain_name(n),
        spells(s, n),
    ensures
        cleaned(s) == n,
        cleaned(n) == n,
{
    lemma_cleaned_blanks(n);
    if s == seq![' '] + n + seq![' '] {
    } else if exists|tail: Seq<char>| #[trigger] sign(tail) && s == n + tail {
        let tail = choose|tail: Seq<char>| #[trigger] sign(tail) && s == n + tail;
        lemma_cleaned_tail(n, tail);
    } else if s == n + seq![' ', '*', '&'] && !decorating_word(n) {
        lemma_cleaned_tail(n, seq![' ', '*', '&']);
    } else {
        let (word, tail) = choose|word: Seq<char>, tail: Seq<char>| #[trigger]
            decorating_word(word) && #[trigger] sign(tail) && s == word + seq![' '] + n + tail;
        lemma_cleaned_word(n, word, tail);
    }
}

/// A plain name stands for the classes that are filed under it.
pub proof fn plain_names_are_looked_up(index: MemberHotIndex, n: Seq<char>)
    requires
        plain_name(n),
    ensures
        cleaned(n) == n,
        index.ids_of(n) == index.named(n),
{
    lemma_cleaned_blanks(n);
    if !index.knows_name(n) {
        unknown_names_have_no_class(index, n);
        reveal_strlit("::");
        if text::has(n, "::"@) {
            let i = choose|i: int| text::occurs_at(n, "::"@, i);
            assert(n.subrange(i, i + 2)[0] == n[i]);
            assert(plain_char(n[i]));
        }
    }
}

/// However a class name is decorated, it stands for the classes that the plain name stands for.
pub proof fn decorated_names_mean_the_class(index: MemberHotIndex, s: Seq<char>, n: Seq<char>)
    requires
        plain_name(n),
        spells(s, n),
    ensures
        cleaned(s) == n,
        index.ids_of(s) == index.ids_of(n),
        index.ids_of(s) == index.named(n),
{
    lemma_spelled(s, n);
    plain_names_are_looked_up(index, n);
}

proof fn lemma_last_segment(outer: Seq<char>, n: Seq<char>, upto: int)
    requires
        plain_name(n),
        outer.len() + 2 <= upto <= outer.len() + 2 + n.len(),
    ensures
        text::tail_after(outer + "::"@ + n, "::"@, upto) == n,
    decreases upto,
{
    reveal_strlit("::");
    let s = outer + "::"@ + n;
    if upto == outer.len() + 2 {
        assert(s.subrange(upto - 2, upto) =~= "::"@);
        assert(s.subrange(upto, s.len() as int) =~= n);
    } else {
        if text::occurs_at(s, "::"@, upto - 2) {
            assert(s.subrange(upto - 2, upto)[1] == s[upto - 1]);
            assert(s[upto - 1] == n[upto - 1 - outer.len() - 2]);
            assert(plain_char(n[upto - 1 - outer.len() - 2]));
        }
        lemma_last_segment(outer, n, upto - 1);
    }
}

/// A scoped name stands for the classes filed under the whole of it, where there are any; else for
/// those of its last part.
pub proof fn scoped_names_fall_back(index: MemberHotIndex, outer: Seq<char>, n: Seq<char>)
    requires
        plain_name(outer),
        plain_name(n),
    ensures
        index.ids_of(outer + "::"@ + n) == if index.knows_name(outer + "::"@ + n) {
            index.named(outer + "::"@ + n)
        } else {
            index.ids_of(n)
        },
{
    reveal_strlit("::");
    let s = outer + "::"@ + n;
    assert(plain_char(outer[0]) && plain_char(n[n.len() - 1]));
    assert(s[0] == outer[0]);
    assert(s[s.len() - 1] == n[n.len() - 1]);
    assert(s.subrange(0, outer.len() as int) =~= outer);
    assert(s.subrange(0, s.len() as int) =~= s);
    assert forall|i: int| 0 <= i < s.len() implies #[trigger] s[i] != ' ' by {
        if i < outer.len() {
            assert(plain_char(outer[i]));
        } else if i < outer.len() + 2 {
            assert(s[i] == "::"@[i - outer.len()]);
        } else {
            assert(plain_char(n[i - outer.len() - 2]));
        }
    }
    lemma_trimmed_keeps(s);
    lemma_undecorated(s, outer);
    lemma_trim_to(s, text::equal_to('&'), 0, s.len() as int);
    lemma_trim_to(s, text::equal_to('*'), 0, s.len() as int);
    assert(cleaned(s) == s);
    assert(text::occurs_at(s, "::"@, outer.len() as int)) by {
        assert(s.subrange(outer.len() as int, (outer.len() + 2) as int) =~= "::"@);
    }
    lemma_last_segment(outer, n, s.len() as int);
    plain_names_are_looked_up(index, n);
}

proof fn lemma_trim_all(s: Seq<char>)
    requires
        forall|i: int| 0 <= i < s.len() ==> text::white_space(#[trigger] s[i]),
    ensures
        text::trimmed(s) == Seq::<char>::empty(),
    decreases s.len(),
{
    let f = |c: char| text::white_space(c);
    if s.len() > 0 {
        let t = s.subrange(1, s.len() as int);
        assert(f(s[0]));
        assert forall|i: int| 0 <= i < t.len() implies text::white_space(#[trigger] t[i]) by {
            assert(t[i] == s[i + 1]);
        }
        lemma_trim_all(t);
        assert(text::trim_start_by(s, f) == text::trim_start_by(t, f));
    } else {
        assert(s =~= Seq::empty());
    }
}

/// A blank name stands for no class.
pub proof fn blank_names_have_no_class(index: MemberHotIndex, s: Seq<char>)
    requires
        forall|i: int| 0 <= i < s.len() ==> text::white_space(#[trigger] s[i]),
    ensures
        index.ids_of(s) == Seq::<i32>::empty(),
{
    reveal_strlit("class ");
    reveal_strlit("struct ");
    reveal_strlit("const ");
    lemma_trim_all(s);
    lemma_trim_all(Seq::empty());
}

// ---------------------------------------------------------------------------
// Listings
// ---------------------------------------------------------------------------
/// Where an entry is filed: under a class, among its members or its enum values, at a position.
pub struct Place {
    pub class_id: i32,
    pub value: bool,
    pub at: int,
}

/// The item is the entry at the place.
pub open spec fn stands_at(index: MemberHotIndex, item: HotMemberItem, place: Place) -> bool {
    match item {
        HotMemberItem::Member { entry, .. } => !place.value && 0 <= place.at < index.members_of(
            place.class_id,
        ).len() && *entry == index.members_of(place.class_id)[place.at],
        HotMemberItem::EnumValue { entry, .. } => place.value && 0 <= place.at
            < index.enum_values_of(place.class_id).len() && *entry == index.enum_values_of(
            place.class_id,
        )[place.at],
    }
}

/// Entries of the implementation are hidden unless they are asked for.
pub open spec fn visible(entry: MemberEntry, include_impl: bool) -> bool {
    include_impl || access_of(entry.flags) != MemberAccess::Impl
}

pub open spec fn item_visible(item: HotMemberItem, include_impl: bool) -> bool {
    match item {
        HotMemberItem::Member { entry, .. } => visible(*entry, include_impl),
        HotMemberItem::EnumValue { .. } => true,
    }
}

spec fn member_places(class_id: i32, entries: Seq<MemberEntry>, upto: int, include_impl: bool) -> Seq<
    Place,
>
    decreases upto,
{
    if upto <= 0 {
        Seq::empty()
    } else if visible(entries[upto - 1], include_impl) {
        member_places(class_id, entries, upto - 1, include_impl).push(
            Place { class_id, value: false, at: upto - 1 },
        )
    } else {
        member_places(class_id, entries, upto - 1, include_impl)
    }
}

spec fn value_places(class_id: i32, n: nat) -> Seq<Place> {
    Seq::new(n, |k: int| Place { class_id, value: true, at: k })
}

/// The places of what is listed from here on.
pub closed spec fn places(
    index: MemberHotIndex,
    queue: Seq<(i32, usize)>,
    visited: Set<i32>,
    names: Set<u32>,
    include_impl: bool,
) -> Seq<Place>
    decreases 0x1_0000_0000 - visited.len(), queue.len(),
    when visited.finite()
{
    if queue.len() == 0 {
        Seq::empty()
    } else {
        let (class_id, rank) = queue[0];
        let rest = queue.subrange(1, queue.len() as int);
        if visited.contains(class_id) {
            places(index, rest, visited, names, include_impl)
        } else {
            proof {
                lemma_id_set_len(visited.insert(class_id));
            }
            let entries = index.members_of(class_id);
            let (seen, next) = index.queued(
                index.parents_of(class_id),
                0,
                index.names_with(names, class_id),
                rest,
                (rank + 1) as usize,
            );
            member_places(class_id, entries, entries.len() as int, include_impl) + value_places(
                class_id,
                index.enum_values_of(class_id).len(),
            ) + places(index, next, visited.insert(class_id), seen, include_impl)
        }
    }
}

/// The items and their places belong together.
spec fn paired(
    index: MemberHotIndex,
    items: Seq<HotMemberItem>,
    at: Seq<Place>,
    include_impl: bool,
) -> bool {
    &&& items.len() == at.len()
    &&& forall|i: int|
        0 <= i < items.len() ==> stands_at(index, #[trigger] items[i], at[i]) && item_visible(
            items[i],
            include_impl,
        )
}

spec fn all_distinct(at: Seq<Place>) -> bool {
    forall|i: int, j: int| 0 <= i < j < at.len() ==> #[trigger] at[i] != #[trigger] at[j]
}

proof fn lemma_member_places(
    index: MemberHotIndex,
    class_id: i32,
    upto: int,
    include_impl: bool,
    rank: usize,
)
    requires
        upto <= index.members_of(class_id).len(),
    ensures
        paired(
            index,
            shown_members(index.members_of(class_id), upto, include_impl, rank),
            member_places(class_id, index.members_of(class_id), upto, include_impl),
            include_impl,
        ),
        all_distinct(member_places(class_id, index.members_of(class_id), upto, include_impl)),
        forall|i: int|
            0 <= i < member_places(
                class_id,
                index.members_of(class_id),
                upto,
                include_impl,
            ).len() ==> {
                let p = #[trigger] member_places(
                    class_id,
                    index.members_of(class_id),
                    upto,
                    include_impl,
                )[i];
                p.class_id == class_id && !p.value && p.at < upto
            },
        forall|k: int|
            0 <= k < upto && visible(#[trigger] index.members_of(class_id)[k], include_impl)
                ==> shown_members(
                index.members_of(class_id),
                upto,
                include_impl,
                rank,
            ).contains(
                HotMemberItem::Member { entry: &index.members_of(class_id)[k], class_rank: rank },
            ),
    decreases upto,
{
    let entries = index.members_of(class_id);
    if upto > 0 {
        lemma_member_places(index, class_id, upto - 1, include_impl, rank);
        let before = shown_members(entries, upto - 1, include_impl, rank);
        let after = shown_members(entries, upto, include_impl, rank);
        assert forall|k: int|
            0 <= k < upto && visible(
                #[trigger] entries[k],
                include_impl,
            ) implies after.contains(
            HotMemberItem::Member { entry: &entries[k], class_rank: rank },
        ) by {
            let item = HotMemberItem::Member { entry: &entries[k], class_rank: rank };
            if k < upto - 1 {
                assert(before.contains(item));
                let i = choose|i: int| 0 <= i < before.len() && before[i] == item;
                assert(after[i] == item);
            } else {
                assert(after[after.len() - 1] == item);
            }
        }
    }
}

proof fn lemma_value_places(index: MemberHotIndex, class_id: i32, upto: int, rank: usize)
    requires
        0 <= upto <= index.enum_values_of(class_id).len(),
    ensures
        shown_values(index.enum_values_of(class_id), upto, rank).len() == upto,
        forall|k: int|
            0 <= k < upto ==> #[trigger] shown_values(
                index.enum_values_of(class_id),
                upto,
                rank,
            )[k] == (HotMemberItem::EnumValue {
                entry: &index.enum_values_of(class_id)[k],
                class_rank: rank,
            }),
    decreases upto,
{
    if upto > 0 {
        lemma_value_places(index, class_id, upto - 1, rank);
    }
}

/// Each listed item has a place of its own, in a class that was not visited before.
proof fn lemma_places(
    index: MemberHotIndex,
    queue: Seq<(i32, usize)>,
    visited: Set<i32>,
    names: Set<u32>,
    include_impl: bool,
)
    requires
        visited.finite(),
    ensures
        paired(
            index,
            index.listing(queue, visited, names, include_impl),
            places(index, queue, visited, names, include_impl),
            include_impl,
        ),
        all_distinct(places(index, queue, visited, names, include_impl)),
        forall|i: int|
            0 <= i < places(index, queue, visited, names, include_impl).len()
                ==> !visited.contains(
                (#[trigger] places(index, queue, visited, names, include_impl)[i]).class_id,
            ),
    decreases 0x1_0000_0000 - visited.len(), queue.len(),
{
    if queue.len() > 0 {
        let (class_id, rank) = queue[0];
        let rest = queue.subrange(1, queue.len() as int);
        if visited.contains(class_id) {
            lemma_places(index, rest, visited, names, include_impl);
        } else {
            lemma_id_set_len(visited.insert(class_id));
            let entries = index.members_of(class_id);
            let values = index.enum_values_of(class_id);
            let (seen, next) = index.queued(
                index.parents_of(class_id),
                0,
                index.names_with(names, class_id),
                rest,
                (rank + 1) as usize,
            );
            let now = visited.insert(class_id);
            lemma_member_places(index, class_id, entries.len() as int, include_impl, rank);
            lemma_value_places(index, class_id, values.len() as int, rank);
            lemma_places(index, next, now, seen, include_impl);
            let a = member_places(class_id, entries, entries.len() as int, include_impl);
            let b = value_places(class_id, values.len());
            let c = places(index, next, now, seen, include_impl);
            let at = a + b + c;
            let x = shown_members(entries, entries.len() as int, include_impl, rank);
            let y = shown_values(values, values.len() as int, rank);
            let z = index.listing(next, now, seen, include_impl);
            let items = x + y + z;
            assert forall|i: int| 0 <= i < items.len() implies stands_at(
                index,
                #[trigger] items[i],
                at[i],
            ) && item_visible(items[i], include_impl) by {
                if i < x.len() {
                    assert(items[i] == x[i] && at[i] == a[i]);
                } else if i < x.len() + y.len() {
                    assert(items[i] == y[i - x.len()] && at[i] == b[i - a.len()]);
                } else {
                    assert(items[i] == z[i - x.len() - y.len()] && at[i] == c[i - a.len()
                        - b.len()]);
                }
            }
            assert forall|i: int| 0 <= i < at.len() implies !visited.contains(
                (#[trigger] at[i]).class_id,
            ) by {
                if i < a.len() {
                    assert(at[i] == a[i]);
                } else if i < a.len() + b.len() {
                    assert(at[i] == b[i - a.len()]);
                } else {
                    assert(at[i] == c[i - a.len() - b.len()]);
                    assert(!now.contains(at[i].class_id));
                }
            }
            assert forall|i: int, j: int| 0 <= i < j < at.len() implies #[trigger] at[i]
                != #[trigger] at[j] by {
                let ab = a.len() + b.len();
                if j < a.len() {
                    assert(at[i] == a[i] && at[j] == a[j]);
                } else if j < ab {
                    assert(at[j] == b[j - a.len()]);
                    if i < a.len() {
                        assert(at[i] == a[i]);
                    } else {
                        assert(at[i] == b[i - a.len()]);
                    }
                } else {
                    assert(at[j] == c[j - ab]);
                    assert(!now.contains(at[j].class_id));
                    if i < a.len() {
                        assert(at[i] == a[i]);
                    } else if i < ab {
                        assert(at[i] == b[i - a.len()]);
                    } else {
                        assert(at[i] == c[i - ab]);
                    }
                }
            }
        }
    }
}

/// A shorter listing is the beginning of a longer one.
pub proof fn shorter_listings_are_prefixes(
    index: MemberHotIndex,
    class_ids: Seq<i64>,
    include_impl: bool,
    n: usize,
    m: usize,
)
    requires
        1 <= n <= m,
    ensures
        ({
            let all = index.full_listing(class_ids, include_impl);
            let short = MemberHotIndex::cut(all, n);
            let long = MemberHotIndex::cut(all, m);
            &&& short.len() == if long.len() < n { long.len() as int } else { n as int }
            &&& short == long.take(short.len() as int)
        }),
{
    let all = index.full_listing(class_ids, include_impl);
    let short = MemberHotIndex::cut(all, n);
    let long = MemberHotIndex::cut(all, m);
    assert(short =~= long.take(short.len() as int));
}

/// No entry is listed twice: the listed items stand at places that all differ. Members of the
/// implementation are listed only where they are asked for.
pub proof fn no_entry_is_listed_twice(
    index: MemberHotIndex,
    class_ids: Seq<i64>,
    include_impl: bool,
) -> (at: Seq<Place>)
    ensures
        at.len() == index.full_listing(class_ids, include_impl).len(),
        at.no_duplicates(),
        forall|i: int|
            0 <= i < at.len() ==> stands_at(
                index,
                #[trigger] index.full_listing(class_ids, include_impl)[i],
                at[i],
            ),
        forall|i: int|
            0 <= i < at.len() ==> item_visible(
                #[trigger] index.full_listing(class_ids, include_impl)[i],
                include_impl,
            ),
{
    let queue = with_rank(narrowed(class_ids), 0);
    lemma_places(index, queue, Set::empty(), Set::empty(), include_impl);
    let at = places(index, queue, Set::empty(), Set::empty(), include_impl);
    assert forall|i: int, j: int| 0 <= i < at.len() && 0 <= j < at.len() && i != j implies at[i]
        != at[j] by {
        if i < j {
            assert(at[i] != at[j]);
        } else {
            assert(at[j] != at[i]);
        }
    }
    at
}

proof fn lemma_queued_extends(
    index: MemberHotIndex,
    parents: Seq<ParentEntry>,
    from: int,
    names: Set<u32>,
    queue: Seq<(i32, usize)>,
    rank: usize,
)
    ensures
        extends_queue(queue, index.queued(parents, from, names, queue, rank).1),
    decreases parents.len() - from,
{
    if 0 <= from < parents.len() {
        let parent = parents[from];
        if parent.parent_name.0 != 0 && names.contains(parent.parent_name.0) {
            lemma_queued_extends(index, parents, from + 1, names, queue, rank);
        } else {
            let seen = if parent.parent_name.0 != 0 {
                names.insert(parent.parent_name.0)
            } else {
                names
            };
            let by_id = if parent.parent_class_id != 0 {
                queue.push((parent.parent_class_id, rank))
            } else {
                queue
            };
            let by_name = match index.text_of(parent.parent_name) {
                Some(name) => by_id + with_rank(index.ids_of(name), rank),
                None => by_id,
            };
            lemma_queued_extends(index, parents, from + 1, seen, by_name, rank);
            assert(extends_queue(queue, by_name));
        }
    }
}

/// What a class shows is listed once the class waits before every class of another rank.
proof fn lemma_waiting_is_listed(
    index: MemberHotIndex,
    queue: Seq<(i32, usize)>,
    visited: Set<i32>,
    names: Set<u32>,
    include_impl: bool,
    at: int,
)
    requires
        visited.finite(),
        0 <= at < queue.len(),
        !visited.contains(queue[at].0),
        forall|j: int| 0 <= j <= at ==> (#[trigger] queue[j]).1 == queue[at].1,
    ensures
        forall|k: int|
            0 <= k < index.members_of(queue[at].0).len() && visible(
                #[trigger] index.members_of(queue[at].0)[k],
                include_impl,
            ) ==> index.listing(queue, visited, names, include_impl).contains(
                HotMemberItem::Member {
                    entry: &index.members_of(queue[at].0)[k],
                    class_rank: queue[at].1,
                },
            ),
        forall|k: int|
            #![trigger index.enum_values_of(queue[at].0)[k]]
            0 <= k < index.enum_values_of(queue[at].0).len() ==> index.listing(
                queue,
                visited,
                names,
                include_impl,
            ).contains(
                HotMemberItem::EnumValue {
                    entry: &index.enum_values_of(queue[at].0)[k],
                    class_rank: queue[at].1,
                },
            ),
    decreases 0x1_0000_0000 - visited.len(), queue.len(),
{
    let (class_id, rank) = queue[0];
    let rest = queue.subrange(1, queue.len() as int);
    let items = index.listing(queue, visited, names, include_impl);
    if visited.contains(class_id) {
        assert(rest[at - 1] == queue[at]);
        assert forall|j: int| 0 <= j <= at - 1 implies (#[trigger] rest[j]).1 == queue[at].1 by {
            assert(rest[j] == queue[j + 1]);
        }
        lemma_waiting_is_listed(index, rest, visited, names, include_impl, at - 1);
    } else {
        lemma_id_set_len(visited.insert(class_id));
        let entries = index.members_of(class_id);
        let values = index.enum_values_of(class_id);
        let met = index.names_with(names, class_id);
        let (seen, next) = index.queued(
            index.parents_of(class_id),
            0,
            met,
            rest,
            (rank + 1) as usize,
        );
        let now = visited.insert(class_id);
        let x = shown_members(entries, entries.len() as int, include_impl, rank);
        let y = shown_values(values, values.len() as int, rank);
        let z = index.listing(next, now, seen, include_impl);
        assert(items == x + y + z);
        assert(queue[0].1 == queue[at].1);
        if class_id == queue[at].0 {
            lemma_member_places(index, class_id, entries.len() as int, include_impl, rank);
            lemma_value_places(index, class_id, values.len() as int, rank);
            assert forall|k: int|
                0 <= k < entries.len() && visible(
                    #[trigger] entries[k],
                    include_impl,
                ) implies items.contains(
                HotMemberItem::Member { entry: &entries[k], class_rank: rank },
            ) by {
                let item = HotMemberItem::Member { entry: &entries[k], class_rank: rank };
                assert(x.contains(item));
                let i = choose|i: int| 0 <= i < x.len() && x[i] == item;
                assert(items[i] == item);
            }
            assert forall|k: int|
                #![trigger values[k]]
                0 <= k < values.len() implies items.contains(
                HotMemberItem::EnumValue { entry: &values[k], class_rank: rank },
            ) by {
                assert(items[x.len() + k] == y[k]);
            }
        } else {
            lemma_queued_extends(
                index,
                index.parents_of(class_id),
                0,
                met,
                rest,
                (rank + 1) as usize,
            );
            assert(rest[at - 1] == queue[at]);
            assert(next[at - 1] == rest[at - 1]);
            assert forall|j: int| 0 <= j <= at - 1 implies (#[trigger] next[j]).1
                == queue[at].1 by {
                assert(next[j] == rest[j] && rest[j] == queue[j + 1]);
            }
            lemma_waiting_is_listed(index, next, now, seen, include_impl, at - 1);
            assert forall|item: HotMemberItem| #[trigger] z.contains(item) implies items.contains(
                item,
            ) by {
                let i = choose|i: int| 0 <= i < z.len() && z[i] == item;
                assert(items[x.len() + y.len() + i] == item);
            }
        }
    }
}

proof fn lemma_narrowed_has(ids: Seq<i64>, id: i64)
    requires
        ids.contains(id),
        i32::MIN <= id <= i32::MAX,
    ensures
        narrowed(ids).contains(id as i32),
    decreases ids.len(),
{
    let i = choose|i: int| 0 <= i < ids.len() && ids[i] == id;
    let before = narrowed(ids.drop_last());
    let after = narrowed(ids);
    if i == ids.len() - 1 {
        assert(after[after.len() - 1] == id as i32);
    } else {
        assert(ids.drop_last()[i] == id);
        lemma_narrowed_has(ids.drop_last(), id);
        let k = choose|k: int| 0 <= k < before.len() && before[k] == id as i32;
        assert(after[k] == id as i32);
    }
}

/// Nothing is missing: every visible member and every enum value of a class that a listing starts
/// at is listed, with rank 0.
pub proof fn own_entries_are_listed(
    index: MemberHotIndex,
    class_ids: Seq<i64>,
    include_impl: bool,
    class_id: i64,
)
    requires
        class_ids.contains(class_id),
        i32::MIN <= class_id <= i32::MAX,
    ensures
        forall|k: int|
            0 <= k < index.members_of(class_id as i32).len() && visible(
                #[trigger] index.members_of(class_id as i32)[k],
                include_impl,
            ) ==> index.full_listing(class_ids, include_impl).contains(
                HotMemberItem::Member {
                    entry: &index.members_of(class_id as i32)[k],
                    class_rank: 0,
                },
            ),
        forall|k: int|
            #![trigger index.enum_values_of(class_id as i32)[k]]
            0 <= k < index.enum_values_of(class_id as i32).len() ==> index.full_listing(
                class_ids,
                include_impl,
            ).contains(
                HotMemberItem::EnumValue {
                    entry: &index.enum_values_of(class_id as i32)[k],
                    class_rank: 0,
                },
            ),
{
    lemma_narrowed_has(class_ids, class_id);
    let ids = narrowed(class_ids);
    let at = choose|i: int| 0 <= i < ids.len() && ids[i] == class_id as i32;
    let queue = with_rank(ids, 0);
    assert(queue[at] == (class_id as i32, 0usize));
    lemma_waiting_is_listed(index, queue, Set::empty(), Set::empty(), include_impl, at);
}

// ---------------------------------------------------------------------------
// Subclasses
// ---------------------------------------------------------------------------
/// One or more parent links lead from a class named `a` to a class named `b`.
pub open spec fn links_lead(index: MemberHotIndex, a: Seq<char>, b: Seq<char>) -> bool {
    exists|path: Seq<i32>| #[trigger]
        index.chain(index.ids_of(a), path) && path.len() >= 2 && index.ids_of(b).contains(
            path.last(),
        )
}

/// A class that settles the question leads to the parent itself.
proof fn lemma_settled_leads(index: MemberHotIndex, starts: Seq<i32>, path: Seq<i32>, b: Seq<char>)
    -> (longer: Seq<i32>)
    requires
        plain_name(b),
        index.chain(starts, path),
        index.settles(path.last(), b),
        index.ids_of(b).len() > 0,
    ensures
        index.chain(starts, longer),
        index.ids_of(b).contains(longer.last()),
        longer == path || longer.len() >= 2,
{
    let x = path.last();
    if index.ids_of(b).contains(x) {
        path
    } else {
        plain_names_are_looked_up(index, b);
        let k = choose|k: int| index.parent_named_at(x, b, k);
        let d = index.ids_of(b)[0];
        let name = index.text_of(index.parents_of(x)[k].parent_name)->0;
        assert(cleaned(name) == b);
        assert(index.ids_of(name) == index.ids_of(b));
        assert(index.parent_link_at(x, d, k));
        let longer = path.push(d);
        assert forall|i: int| 0 <= i < longer.len() - 1 implies #[trigger] index.linked_at(
            longer,
            i,
        ) by {
            if i < path.len() - 1 {
                assert(index.linked_at(path, i));
            } else {
                assert(index.parent_link(x, d));
            }
        }
        longer
    }
}

/// A class is a subclass of itself; of another class it is one exactly where parent links lead
/// from it to the other.
pub proof fn subclasses_are_linked(index: MemberHotIndex, a: Seq<char>, b: Seq<char>)
    requires
        plain_name(a),
        plain_name(b),
        a != b ==> forall|c: i32| !(index.ids_of(a).contains(c) && #[trigger] index.ids_of(
            b,
        ).contains(c)),
    ensures
        a == b ==> index.subclass(a, b),
        a != b ==> (index.subclass(a, b) <==> links_lead(index, a, b)),
{
    plain_names_are_looked_up(index, a);
    plain_names_are_looked_up(index, b);
    let starts = index.ids_of(a);
    if a != b {
        if index.subclass(a, b) {
            let x = choose|x: i32| #[trigger] index.reaches(starts, x) && index.settles(x, b);
            let path = choose|path: Seq<i32>| #[trigger]
                index.chain(starts, path) && path.last() == x;
            let longer = lemma_settled_leads(index, starts, path, b);
            if longer.len() < 2 {
                assert(longer[0] == longer.last());
                assert(index.ids_of(b).contains(longer[0]));
            }
        }
        if links_lead(index, a, b) {
            let path = choose|path: Seq<i32>| #[trigger]
                index.chain(starts, path) && path.len() >= 2 && index.ids_of(b).contains(
                    path.last(),
                );
            assert(index.reaches(starts, path.last()));
            assert(index.settles(path.last(), b));
        }
    }
}

proof fn lemma_join(index: MemberHotIndex, starts: Seq<i32>, p: Seq<i32>, mid: Seq<i32>, q: Seq<i32>)
    requires
        index.chain(starts, p),
        index.chain(mid, q),
        p.last() == q[0],
    ensures
        index.chain(starts, p + q.subrange(1, q.len() as int)),
        (p + q.subrange(1, q.len() as int)).last() == q.last(),
{
    let tail = q.subrange(1, q.len() as int);
    let path = p + tail;
    assert forall|i: int| 0 <= i < path.len() - 1 implies #[trigger] index.linked_at(path, i) by {
        if i < p.len() - 1 {
            assert(index.linked_at(p, i));
        } else {
            assert(index.linked_at(q, i - p.len() + 1));
        }
    }
}

/// A subclass of a subclass is a subclass, where at most one class carries the name between.
pub proof fn subclasses_are_transitive(
    index: MemberHotIndex,
    a: Seq<char>,
    b: Seq<char>,
    c: Seq<char>,
)
    requires
        plain_name(a),
        plain_name(b),
        plain_name(c),
        index.ids_of(b).len() <= 1,
        index.subclass(a, b),
        index.subclass(b, c),
    ensures
        index.subclass(a, c),
{
    plain_names_are_looked_up(index, a);
    plain_names_are_looked_up(index, b);
    plain_names_are_looked_up(index, c);
    if a != b && b != c {
        let starts = index.ids_of(a);
        let mid = index.ids_of(b);
        let x = choose|x: i32| #[trigger] index.reaches(starts, x) && index.settles(x, b);
        let path = choose|path: Seq<i32>| #[trigger] index.chain(starts, path) && path.last() == x;
        let p = lemma_settled_leads(index, starts, path, b);
        let y = choose|y: i32| #[trigger] index.reaches(mid, y) && index.settles(y, c);
        let q = choose|path: Seq<i32>| #[trigger] index.chain(mid, path) && path.last() == y;
        assert(mid[0] == p.last() && mid[0] == q[0]);
        lemma_join(index, starts, p, mid, q);
        assert(index.reaches(starts, y));
    }
}

/// The classes that a written parent name stands for, by the rows.
pub open spec fn meant_ids(classes: Seq<ClassRow>, written: Seq<char>) -> Seq<i32> {
    let n = classes.len() as int;
    match kept(written) {
        None => Seq::empty(),
        Some(t) => {
            let name = cleaned(t);
            if name.len() > 0 && ids_named(classes, name, n).len() > 0 {
                ids_named(classes, name, n)
            } else if text::has(name, "::"@) {
                ids_named(classes, text::last_segment(name, "::"@), n)
            } else {
                Seq::empty()
            }
        },
    }
}

/// A row of inheritance makes class `d` a parent of class `c`.
pub open spec fn row_step(classes: Seq<ClassRow>, parents: Seq<ParentRow>, c: i32, d: i32) -> bool {
    exists|r: int| row_step_at(classes, parents, c, d, r)
}

pub open spec fn row_step_at(
    classes: Seq<ClassRow>,
    parents: Seq<ParentRow>,
    c: i32,
    d: i32,
    r: int,
) -> bool {
    &&& 0 <= r < parents.len()
    &&& parents[r].child_id == c
    &&& (d != 0 && parents[r].parent_class_id == d) || meant_ids(
        classes,
        parents[r].parent_name@,
    ).contains(d)
}

/// Rows of inheritance lead along the path.
pub open spec fn row_path(classes: Seq<ClassRow>, parents: Seq<ParentRow>, path: Seq<i32>) -> bool {
    forall|i: int| 0 <= i < path.len() - 1 ==> #[trigger] stepped(classes, parents, path, i)
}

pub open spec fn stepped(
    classes: Seq<ClassRow>,
    parents: Seq<ParentRow>,
    path: Seq<i32>,
    i: int,
) -> bool {
    row_step(classes, parents, path[i], path[i + 1])
}

/// One or more rows of inheritance lead from a class named `a` to a class named `b`.
pub open spec fn rows_lead(
    classes: Seq<ClassRow>,
    parents: Seq<ParentRow>,
    a: Seq<char>,
    b: Seq<char>,
) -> bool {
    exists|path: Seq<i32>| #[trigger]
        row_path(classes, parents, path) && path.len() >= 2 && ids_named(
            classes,
            a,
            classes.len() as int,
        ).contains(path[0]) && ids_named(classes, b, classes.len() as int).contains(path.last())
}

/// No class carries two names.
pub open spec fn one_name_each(classes: Seq<ClassRow>) -> bool {
    forall|i: int, j: int|
        0 <= i < classes.len() && 0 <= j < classes.len() && (#[trigger] classes[i]).class_id == (
        #[trigger] classes[j]).class_id ==> classes[i].name@ == classes[j].name@
}

proof fn lemma_ids_named(classes: Seq<ClassRow>, name: Seq<char>, upto: int, id: i32) -> (at: int)
    requires
        upto <= classes.len(),
        ids_named(classes, name, upto).contains(id),
    ensures
        0 <= at < upto,
        classes[at].name@ == name,
        classes[at].class_id == id,
    decreases upto,
{
    if classes[upto - 1].name@ == name && classes[upto - 1].class_id == id {
        upto - 1
    } else {
        let now = ids_named(classes, name, upto);
        let before = ids_named(classes, name, upto - 1);
        let i = choose|i: int| 0 <= i < now.len() && now[i] == id;
        assert(before[i] == id);
        lemma_ids_named(classes, name, upto - 1, id)
    }
}

spec fn in_row_of<T>(items: Seq<T>, owners: Seq<i32>, c: i32, upto: int, r: int, x: T) -> bool {
    0 <= r < upto && owners[r] == c && items[r] == x
}

/// What is picked for an owner stands in a row of that owner.
proof fn lemma_picked_row<T>(items: Seq<T>, owners: Seq<i32>, c: i32, upto: int, k: int) -> (r: int)
    requires
        upto <= items.len(),
        items.len() == owners.len(),
        0 <= k < picked(items, owners, c, upto).len(),
    ensures
        in_row_of(items, owners, c, upto, r, picked(items, owners, c, upto)[k]),
    decreases upto,
{
    if owners[upto - 1] == c && k == picked(items, owners, c, upto).len() - 1 {
        upto - 1
    } else {
        lemma_picked_row(items, owners, c, upto - 1, k)
    }
}

/// What stands in a row of an owner is picked for that owner.
proof fn lemma_row_picked<T>(items: Seq<T>, owners: Seq<i32>, c: i32, upto: int, r: int) -> (k: int)
    requires
        upto <= items.len(),
        items.len() == owners.len(),
        0 <= r < upto,
        owners[r] == c,
    ensures
        0 <= k < picked(items, owners, c, upto).len(),
        picked(items, owners, c, upto)[k] == items[r],
    decreases upto,
{
    if r == upto - 1 {
        picked(items, owners, c, upto).len() - 1
    } else {
        lemma_row_picked(items, owners, c, upto - 1, r)
    }
}

proof fn lemma_links_are_rows(
    index: MemberHotIndex,
    classes: Seq<ClassRow>,
    members: Seq<MemberRow>,
    values: Seq<EnumValueRow>,
    parents: Seq<ParentRow>,
    c: i32,
    d: i32,
)
    requires
        index_of_rows(index, classes, members, values, parents),
    ensures
        index.parent_link(c, d) <==> row_step(classes, parents, c, d),
{
    let owners = parent_owners(parents);
    let n = parents.len() as int;
    let rows = picked(parents, owners, c, n);
    assert(index.parents_of(c).len() == rows.len());
    assert forall|k: int| 0 <= k < rows.len() implies index.parent_agrees(
        #[trigger] index.parents_of(c)[k],
        rows[k],
    ) && (match index.text_of(index.parents_of(c)[k].parent_name) {
        Some(name) => index.ids_of(name),
        None => Seq::empty(),
    }) == meant_ids(classes, rows[k].parent_name@) by {
        match kept(rows[k].parent_name@) {
            Some(t) => {
                let name = cleaned(t);
                assert(index.knows_name(name) <==> index.named(name).len() > 0);
                if name.len() == 0 {
                    reveal_strlit("::");
                    assert(!text::has(name, "::"@));
                }
                let last = text::last_segment(name, "::"@);
                assert(index.named(last) == ids_named(classes, last, classes.len() as int));
            },
            None => {},
        }
    }
    if index.parent_link(c, d) {
        let k = choose|k: int| index.parent_link_at(c, d, k);
        assert(index.parent_agrees(index.parents_of(c)[k], rows[k]));
        let r = lemma_picked_row(parents, owners, c, n, k);
        assert(row_step_at(classes, parents, c, d, r));
    }
    if row_step(classes, parents, c, d) {
        let r = choose|r: int| row_step_at(classes, parents, c, d, r);
        assert(owners[r] == c);
        let k = lemma_row_picked(parents, owners, c, n, r);
        assert(index.parent_agrees(index.parents_of(c)[k], rows[k]));
        assert(index.parent_link_at(c, d, k));
    }
}

/// In an index that was built from rows, a class is a subclass of itself; of another class it is
/// one exactly where rows of inheritance lead from it to the other.
pub proof fn subclasses_follow_the_rows(
    index: MemberHotIndex,
    classes: Seq<ClassRow>,
    members: Seq<MemberRow>,
    values: Seq<EnumValueRow>,
    parents: Seq<ParentRow>,
    a: Seq<char>,
    b: Seq<char>,
)
    requires
        index_of_rows(index, classes, members, values, parents),
        one_name_each(classes),
        plain_name(a),
        plain_name(b),
    ensures
        a == b ==> index.subclass(a, b),
        a != b ==> (index.subclass(a, b) <==> rows_lead(classes, parents, a, b)),
{
    let n = classes.len() as int;
    plain_names_are_looked_up(index, a);
    plain_names_are_looked_up(index, b);
    assert(index.named(a) == ids_named(classes, a, n));
    assert(index.named(b) == ids_named(classes, b, n));
    if a != b {
        assert forall|c: i32| !(index.ids_of(a).contains(c) && #[trigger] index.ids_of(b).contains(
            c,
        )) by {
            if index.ids_of(a).contains(c) && index.ids_of(b).contains(c) {
                let i = lemma_ids_named(classes, a, n, c);
                let j = lemma_ids_named(classes, b, n, c);
                assert(classes[i].class_id == classes[j].class_id);
            }
        }
    }
    subclasses_are_linked(index, a, b);
    if a != b {
        if links_lead(index, a, b) {
            let path = choose|path: Seq<i32>| #[trigger]
                index.chain(index.ids_of(a), path) && path.len() >= 2 && index.ids_of(b).contains(
                    path.last(),
                );
            assert forall|i: int| 0 <= i < path.len() - 1 implies #[trigger] stepped(
                classes,
                parents,
                path,
                i,
            ) by {
                assert(index.linked_at(path, i));
                lemma_links_are_rows(
                    index,
                    classes,
                    members,
                    values,
                    parents,
                    path[i],
                    path[i + 1],
                );
            }
            assert(row_path(classes, parents, path));
        }
        if rows_lead(classes, parents, a, b) {
            let path = choose|path: Seq<i32>| #[trigger]
                row_path(classes, parents, path) && path.len() >= 2 && ids_named(
                    classes,
                    a,
                    n,
                ).contains(path[0]) && ids_named(classes, b, n).contains(path.last());
            assert forall|i: int| 0 <= i < path.len() - 1 implies #[trigger] index.linked_at(
                path,
                i,
            ) by {
                assert(stepped(classes, parents, path, i));
                lemma_links_are_rows(
                    index,
                    classes,
                    members,
                    values,
                    parents,
                    path[i],
                    path[i + 1],
                );
            }
            assert(index.chain(index.ids_of(a), path));
        }
    }
}

} // verus!
