//! Which items are taken for the same.
use vstd::prelude::*;

use super::item::{
    as_int, as_text, class_identity, field_of, field_of_either, find_identity, int_or, live_identity,
    or_empty, path_at, result_identity_of, text_at, ItemView,
};
use crate::text;
use crate::text_laws::numbers_are_told_apart;

verus! {

/// The kind of an item, under either of its two names.
pub open spec fn kind_at(item: ItemView) -> Seq<char> {
    or_empty(as_text(field_of_either(item, "type"@, "symbol_type"@)))
}

/// The line of an item, under either of its two names; the first where it has none.
pub open spec fn line_at(item: ItemView) -> i64 {
    int_or(as_int(field_of_either(item, "line"@, "line_number"@)), 1)
}

proof fn lemma_middle(a: Seq<char>, x: Seq<char>, y: Seq<char>, b: Seq<char>)
    ensures
        a + x + b == a + y + b <==> x == y,
{
    if a + x + b == a + y + b {
        let s = a + x + b;
        let t = a + y + b;
        assert(s.len() == t.len());
        assert(x =~= s.subrange(a.len() as int, (a.len() + x.len()) as int));
        assert(y =~= t.subrange(a.len() as int, (a.len() + y.len()) as int));
    }
}

/// Two items that a search finds, which agree in all but one of kind, path, line and name, are the
/// same only if they agree in that, too; items that agree in all of these are the same.
pub proof fn found_items_are_told_apart(a: ItemView, b: ItemView)
    ensures
        ({
            let name_a = or_empty(as_text(field_of_either(a, "name"@, "symbol_name"@)));
            let name_b = or_empty(as_text(field_of_either(b, "name"@, "symbol_name"@)));
            let kind = kind_at(a) == kind_at(b);
            let path = path_at(a) == path_at(b);
            let line = line_at(a) == line_at(b);
            let name = name_a == name_b;
            let same = find_identity(a) == find_identity(b);
            &&& kind && path && line && name ==> same
            &&& path && line && name && !kind ==> !same
            &&& kind && line && name && !path ==> !same
            &&& kind && path && name && !line ==> !same
            &&& kind && path && line && !name ==> !same
        }),
{
    let tab = "\t"@;
    let name_a = or_empty(as_text(field_of_either(a, "name"@, "symbol_name"@)));
    let name_b = or_empty(as_text(field_of_either(b, "name"@, "symbol_name"@)));
    let line_a = text::decimal(line_at(a) as int);
    let line_b = text::decimal(line_at(b) as int);
    numbers_are_told_apart(line_at(a) as int, line_at(b) as int);
    let none = Seq::<char>::empty();
    let x = find_identity(a);
    let y = find_identity(b);
    // each part in the middle of what surrounds it
    let back = tab + path_at(a) + tab + line_a + tab + name_a;
    lemma_middle(none, kind_at(a), kind_at(b), back);
    assert(x =~= none + kind_at(a) + back);
    let front = kind_at(a) + tab;
    let back = tab + line_a + tab + name_a;
    lemma_middle(front, path_at(a), path_at(b), back);
    assert(x =~= front + path_at(a) + back);
    let front = kind_at(a) + tab + path_at(a) + tab;
    let back = tab + name_a;
    lemma_middle(front, line_a, line_b, back);
    assert(x =~= front + line_a + back);
    let front = kind_at(a) + tab + path_at(a) + tab + line_a + tab;
    lemma_middle(front, name_a, name_b, none);
    assert(x =~= front + name_a + none);
    if path_at(a) == path_at(b) && line_at(a) == line_at(b) && name_a == name_b {
        let back = tab + path_at(a) + tab + line_a + tab + name_a;
        assert(y =~= none + kind_at(b) + back);
    }
    if kind_at(a) == kind_at(b) && line_at(a) == line_at(b) && name_a == name_b {
        let front = kind_at(a) + tab;
        let back = tab + line_a + tab + name_a;
        assert(y =~= front + path_at(b) + back);
    }
    if kind_at(a) == kind_at(b) && path_at(a) == path_at(b) && name_a == name_b {
        let front = kind_at(a) + tab + path_at(a) + tab;
        let back = tab + name_a;
        assert(y =~= front + line_b + back);
    }
    if kind_at(a) == kind_at(b) && path_at(a) == path_at(b) && line_at(a) == line_at(b) {
        let front = kind_at(a) + tab + path_at(a) + tab + line_a + tab;
        assert(y =~= front + name_b + none);
    }
}

/// Two results of a query are the same only if their names, paths and lines are, where they agree in
/// all but one of these.
pub proof fn results_are_told_apart(a: ItemView, b: ItemView)
    ensures
        ({
            let name = text_at(a, "name"@) == text_at(b, "name"@);
            let path = text_at(a, "path"@) == text_at(b, "path"@);
            let line_a = int_or(as_int(field_of(a, "line"@)), 0);
            let line_b = int_or(as_int(field_of(b, "line"@)), 0);
            let same = result_identity_of(a) == result_identity_of(b);
            &&& name && path && line_a == line_b ==> same
            &&& path && line_a == line_b && !name ==> !same
            &&& name && line_a == line_b && !path ==> !same
            &&& name && path && line_a != line_b ==> !same
        }),
{
    let sign = ":"@;
    let name_a = text_at(a, "name"@);
    let name_b = text_at(b, "name"@);
    let path_a = text_at(a, "path"@);
    let path_b = text_at(b, "path"@);
    let m = int_or(as_int(field_of(a, "line"@)), 0) as int;
    let n = int_or(as_int(field_of(b, "line"@)), 0) as int;
    numbers_are_told_apart(m, n);
    let none = Seq::<char>::empty();
    let x = result_identity_of(a);
    let y = result_identity_of(b);
    let back = sign + path_a + sign + text::decimal(m);
    lemma_middle(none, name_a, name_b, back);
    assert(x =~= none + name_a + back);
    if path_a == path_b && m == n {
        assert(y =~= none + name_b + back);
    }
    let front = name_a + sign;
    let back = sign + text::decimal(m);
    lemma_middle(front, path_a, path_b, back);
    assert(x =~= front + path_a + back);
    if name_a == name_b && m == n {
        assert(y =~= front + path_b + back);
    }
    let front = name_a + sign + path_a + sign;
    lemma_middle(front, text::decimal(m), text::decimal(n), none);
    assert(x =~= front + text::decimal(m) + none);
    if name_a == name_b && path_a == path_b {
        assert(y =~= front + text::decimal(n) + none);
    }
}

/// Of two items that a live search shows, or two types, which agree in kind and path, the same are
/// those that agree in their names, too, and in a live search in their lines.
pub proof fn shown_items_are_told_apart(a: ItemView, b: ItemView)
    ensures
        ({
            let name = text_at(a, "name"@) == text_at(b, "name"@);
            let kinds = kind_at(a) == kind_at(b) && path_at(a) == path_at(b);
            let line = line_at(a) == line_at(b);
            &&& kinds && name && line ==> live_identity(a) == live_identity(b)
            &&& kinds && name && !line ==> live_identity(a) != live_identity(b)
            &&& kinds && line && !name ==> live_identity(a) != live_identity(b)
            &&& text_at(a, "type"@) == text_at(b, "type"@) && text_at(a, "path"@) == text_at(
                b,
                "path"@,
            ) ==> (class_identity(a) == class_identity(b) <==> name)
        }),
{
    let tab = "\t"@;
    let name_a = text_at(a, "name"@);
    let name_b = text_at(b, "name"@);
    let line_a = text::decimal(line_at(a) as int);
    let line_b = text::decimal(line_at(b) as int);
    numbers_are_told_apart(line_at(a) as int, line_at(b) as int);
    let none = Seq::<char>::empty();
    let x = live_identity(a);
    let y = live_identity(b);
    let front = kind_at(a) + tab;
    let back = tab + path_at(a) + tab + line_a;
    lemma_middle(front, name_a, name_b, back);
    assert(x =~= front + name_a + back);
    if kind_at(a) == kind_at(b) && path_at(a) == path_at(b) && line_at(a) == line_at(b) {
        assert(y =~= front + name_b + back);
    }
    let front = kind_at(a) + tab + name_a + tab + path_at(a) + tab;
    lemma_middle(front, line_a, line_b, none);
    assert(x =~= front + line_a + none);
    if kind_at(a) == kind_at(b) && path_at(a) == path_at(b) && name_a == name_b {
        assert(y =~= front + line_b + none);
    }
    let front = text_at(a, "type"@) + tab;
    let back = tab + text_at(a, "path"@);
    lemma_middle(front, name_a, name_b, back);
    assert(class_identity(a) =~= front + name_a + back);
    if text_at(a, "type"@) == text_at(b, "type"@) && text_at(a, "path"@) == text_at(b, "path"@) {
        assert(class_identity(b) =~= front + name_b + back);
    }
}

} // verus!
