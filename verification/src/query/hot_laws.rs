//! What the index of names and files answers with.
use vstd::prelude::*;

use super::hot_index::{
    basenames, compact_names, everything_found, file_items, item_of_file, item_of_symbol, modules,
    names, owners, paths, symbol_items, symbols_found, symbols_kept, with_files, with_symbols, FileView,
    HotView, Keyed, SymbolRow, SymbolView,
};
use super::item::{
    field_of, has_like, identity, int_field, merged, merging_adds_new_items_only, merging_loses_nothing,
    text_field, FieldView, ItemView, Likeness,
};
use super::pattern::{compact, identifier, slashed_path};
use crate::text;
use crate::textmap::key_position;

verus! {

// ---------------------------------------------------------------------------
// Items
// ---------------------------------------------------------------------------
/// A symbol is answered with its own name, kind, owner, path, line and module.
pub proof fn symbols_are_described(s: SymbolView)
    ensures
        field_of(item_of_symbol(s), "name"@) == Some(FieldView::Text(s.name)),
        field_of(item_of_symbol(s), "type"@) == Some(FieldView::Text(s.kind)),
        field_of(item_of_symbol(s), "class_name"@) == Some(text_field(s.owner_name)),
        field_of(item_of_symbol(s), "path"@) == Some(FieldView::Text(s.path)),
        field_of(item_of_symbol(s), "line"@) == Some(int_field(s.line_number)),
        field_of(item_of_symbol(s), "module_name"@) == Some(text_field(s.module_name)),
{
    reveal_strlit("name");
    reveal_strlit("type");
    reveal_strlit("class_name");
    reveal_strlit("path");
    reveal_strlit("line");
    reveal_strlit("module_name");
    assert("name"@[0] == 'n' && "type"@[0] == 't' && "class_name"@[0] == 'c' && "path"@[0] == 'p'
        && "line"@[0] == 'l' && "module_name"@[0] == 'm');
    reveal_with_fuel(key_position, 7);
}

/// A file is answered with its own name, path, module and the directory of that, as a file.
pub proof fn files_are_described(f: FileView)
    ensures
        field_of(item_of_file(f), "name"@) == Some(FieldView::Text(f.basename)),
        field_of(item_of_file(f), "type"@) == Some(FieldView::Text("file"@)),
        field_of(item_of_file(f), "path"@) == Some(FieldView::Text(f.path)),
        field_of(item_of_file(f), "line"@) == Some(FieldView::Int(1)),
        field_of(item_of_file(f), "module_name"@) == Some(text_field(f.module_name)),
        field_of(item_of_file(f), "module_root"@) == Some(text_field(f.module_root)),
{
    reveal_strlit("name");
    reveal_strlit("type");
    reveal_strlit("path");
    reveal_strlit("line");
    reveal_strlit("module_name");
    reveal_strlit("module_root");
    assert("name"@[0] == 'n' && "type"@[0] == 't' && "path"@[0] == 'p' && "line"@[0] == 'l'
        && "module_name"@[0] == 'm' && "module_root"@[0] == 'm');
    assert("module_name"@[7] == 'n' && "module_root"@[7] == 'r');
    reveal_with_fuel(key_position, 7);
}

/// The index keeps of every row what the row says, with slashes in its path; a row without owner or
/// module is listed under none.
pub proof fn rows_are_kept_as_they_are(rows: Seq<SymbolRow>, i: int)
    requires
        0 <= i < rows.len(),
    ensures
        symbols_kept(rows).len() == rows.len(),
        ({
            let s = symbols_kept(rows)[i];
            let r = rows[i];
            &&& s.name == r.name@ && s.kind == r.kind@ && s.line_number == r.line_number
            &&& s.path == slashed_path(r.path@)
            &&& s.name_lc == r.name_lc@ && s.compact_name == r.compact_name@
            &&& s.is_class_like <==> r.is_class_like != 0
            &&& r.owner_name_lc is Some ==> s.owner_name_lc == r.owner_name_lc->0@
            &&& r.owner_name_lc is None ==> s.owner_name_lc.len() == 0
            &&& r.module_name_lc is Some ==> s.module_name_lc == r.module_name_lc->0@
            &&& r.module_name_lc is None ==> s.module_name_lc.len() == 0
            &&& r.owner_name is None <==> s.owner_name is None
            &&& r.owner_name is Some ==> s.owner_name->0 == r.owner_name->0@
            &&& r.module_name is None <==> s.module_name is None
            &&& r.module_name is Some ==> s.module_name->0 == r.module_name->0@
            &&& s.kind_rank == r.kind_rank
        }),
{
}

// ---------------------------------------------------------------------------
// Positions
// ---------------------------------------------------------------------------
proof fn lemma_equal_to(list: Keyed, key: Seq<char>, upto: int, p: usize)
    requires
        0 <= upto <= list.keys.len() <= usize::MAX,
    ensures
        list.equal_to(key, upto).contains(p) <==> p < upto && list.lists(p as int)
            && list.keys[p as int] == key,
    decreases upto,
{
    if upto > 0 {
        lemma_equal_to(list, key, upto - 1, p);
        let before = list.equal_to(key, upto - 1);
        let all = list.equal_to(key, upto);
        if list.lists(upto - 1) && list.keys[upto - 1] == key {
            let last = (upto - 1) as usize;
            assert(all == before.push(last));
            if before.contains(p) {
                let i = choose|i: int| 0 <= i < before.len() && before[i] == p;
                assert(all[i] == p);
            }
            if p == last {
                assert(all[before.len() as int] == p);
            }
            if all.contains(p) {
                let i = choose|i: int| 0 <= i < all.len() && all[i] == p;
                if i < before.len() {
                    assert(before[i] == p);
                }
            }
        }
    }
}

proof fn lemma_beginning(list: Keyed, order: Seq<usize>, prefix: Seq<char>, k: int, p: usize)
    requires
        0 <= k <= order.len(),
        prefix.len() > 0,
    ensures
        list.beginning(order, prefix, k).contains(p) <==> text::starts(list.keys[p as int], prefix)
            && exists|i: int| k <= i < order.len() && #[trigger] order[i] == p,
    decreases order.len() - k,
{
    if k < order.len() {
        lemma_beginning(list, order, prefix, k + 1, p);
        let rest = list.beginning(order, prefix, k + 1);
        let all = list.beginning(order, prefix, k);
        if text::starts(list.keys[order[k] as int], prefix) {
            assert(all == seq![order[k]] + rest);
            if order[k] == p {
                assert(all[0] == p);
            }
            if rest.contains(p) {
                let i = choose|i: int| 0 <= i < rest.len() && rest[i] == p;
                assert(all[i + 1] == p);
            }
            if all.contains(p) {
                let i = choose|i: int| 0 <= i < all.len() && all[i] == p;
                if i > 0 {
                    assert(rest[i - 1] == p);
                }
            }
        }
    }
}

proof fn lemma_begins(list: Keyed, order: Seq<usize>, prefix: Seq<char>, p: usize)
    requires
        list.ordered(order),
        prefix.len() > 0,
    ensures
        list.beginning(order, prefix, 0).contains(p) <==> list.lists(p as int) && text::starts(
            list.keys[p as int],
            prefix,
        ),
{
    lemma_beginning(list, order, prefix, 0, p);
    if list.lists(p as int) {
        assert(order.contains(p));
    }
}

// ---------------------------------------------------------------------------
// Symbols
// ---------------------------------------------------------------------------
/// The symbol is what the text asks for: its name is the text or begins with it; for a text that
/// reads as a name this counts without the signs between words, too; for any other text the owner or
/// the module may begin with it.
pub open spec fn meets(s: SymbolView, q: Seq<char>) -> bool {
    ||| text::starts(s.name_lc, text::lower(q))
    ||| identifier(q) && s.compact_name.len() > 0 && compact(q).len() > 0 && text::starts(
        s.compact_name,
        compact(q),
    )
    ||| !identifier(q) && text::starts(s.owner_name_lc, text::lower(q))
    ||| !identifier(q) && text::starts(s.module_name_lc, text::lower(q))
}

/// The item is that of a symbol which the text asks for.
pub open spec fn met(s: Seq<SymbolView>, q: Seq<char>, class_only: bool, x: ItemView) -> bool {
    exists|i: int|
        0 <= i < s.len() && x == item_of_symbol(#[trigger] s[i]) && meets(s[i], q) && (class_only
            ==> s[i].is_class_like)
}

proof fn lemma_symbol_items(
    s: Seq<SymbolView>,
    places: Seq<usize>,
    class_only: bool,
    k: int,
    x: ItemView,
)
    requires
        0 <= k <= places.len(),
    ensures
        symbol_items(s, places, class_only, k).contains(x) <==> exists|i: int|
            k <= i < places.len() && x == item_of_symbol(s[(#[trigger] places[i]) as int]) && (
            class_only ==> s[places[i] as int].is_class_like),
    decreases places.len() - k,
{
    if k < places.len() {
        lemma_symbol_items(s, places, class_only, k + 1, x);
        let rest = symbol_items(s, places, class_only, k + 1);
        let all = symbol_items(s, places, class_only, k);
        let first = item_of_symbol(s[places[k] as int]);
        if !(class_only && !s[places[k] as int].is_class_like) {
            assert(all == seq![first] + rest);
            if first == x {
                assert(all[0] == x);
            }
            if rest.contains(x) {
                let i = choose|i: int| 0 <= i < rest.len() && rest[i] == x;
                assert(all[i + 1] == x);
            }
            if all.contains(x) {
                let i = choose|i: int| 0 <= i < all.len() && all[i] == x;
                if i > 0 {
                    assert(rest[i - 1] == x);
                } else {
                    assert(x == item_of_symbol(s[places[k] as int]));
                }
            }
        }
    }
}

proof fn lemma_merged_from(list: Seq<ItemView>, more: Seq<ItemView>, k: int, limit: nat, x: ItemView)
    requires
        merged(Likeness::Find, list, more, k, limit).contains(x),
    ensures
        list.contains(x) || more.contains(x),
    decreases more.len() - k,
{
    if 0 <= k < more.len() && list.len() < limit {
        if has_like(Likeness::Find, list, identity(Likeness::Find, more[k])) {
            lemma_merged_from(list, more, k + 1, limit, x);
        } else {
            let next = list.push(more[k]);
            lemma_merged_from(next, more, k + 1, limit, x);
            if next.contains(x) {
                let j = choose|j: int| 0 <= j < next.len() && next[j] == x;
                if j < list.len() {
                    assert(list[j] == x);
                } else {
                    assert(more[k] == x);
                }
            }
        }
    }
}

/// Everything in the list is asked for.
spec fn all_met(s: Seq<SymbolView>, q: Seq<char>, class_only: bool, list: Seq<ItemView>) -> bool {
    forall|x: ItemView| #[trigger] list.contains(x) ==> met(s, q, class_only, x)
}

/// The list is full, or holds one like this.
spec fn full_or_has(list: Seq<ItemView>, limit: nat, x: ItemView) -> bool {
    list.len() < limit ==> has_like(Likeness::Find, list, identity(Likeness::Find, x))
}

proof fn lemma_stage(
    out: Seq<ItemView>,
    s: Seq<SymbolView>,
    places: Seq<usize>,
    q: Seq<char>,
    class_only: bool,
    limit: usize,
    i: int,
)
    requires
        all_met(s, q, class_only, out),
        forall|p: usize| #[trigger] places.contains(p) ==> p < s.len() && meets(s[p as int], q),
        0 <= i < s.len() <= usize::MAX,
        class_only ==> s[i].is_class_like,
    ensures
        all_met(s, q, class_only, with_symbols(out, s, places, class_only, limit)),
        full_or_has(out, limit as nat, item_of_symbol(s[i])) && out.len() < limit ==> full_or_has(
            with_symbols(out, s, places, class_only, limit),
            limit as nat,
            item_of_symbol(s[i]),
        ),
        out.len() >= limit ==> with_symbols(out, s, places, class_only, limit).len() >= limit,
        places.contains(i as usize) ==> full_or_has(
            with_symbols(out, s, places, class_only, limit),
            limit as nat,
            item_of_symbol(s[i]),
        ),
{
    let more = symbol_items(s, places, class_only, 0);
    let r = with_symbols(out, s, places, class_only, limit);
    merging_adds_new_items_only(Likeness::Find, out, more, 0, limit as nat);
    assert forall|x: ItemView| #[trigger] r.contains(x) implies met(s, q, class_only, x) by {
        lemma_merged_from(out, more, 0, limit as nat, x);
        if !out.contains(x) {
            lemma_symbol_items(s, places, class_only, 0, x);
            let k = choose|k: int|
                0 <= k < places.len() && x == item_of_symbol(s[(#[trigger] places[k]) as int]) && (
                class_only ==> s[places[k] as int].is_class_like);
            assert(places.contains(places[k]));
            assert(meets(s[places[k] as int], q));
        }
    }
    let item = item_of_symbol(s[i]);
    let key = identity(Likeness::Find, item);
    if has_like(Likeness::Find, out, key) {
        let k = choose|k: int|
            0 <= k < out.len() && identity(Likeness::Find, #[trigger] out[k]) == key;
        assert(r.take(out.len() as int)[k] == r[k]);
        assert(identity(Likeness::Find, r[k]) == key);
    }
    if places.contains(i as usize) {
        let k = choose|k: int| 0 <= k < places.len() && places[k] == i as usize;
        lemma_symbol_items(s, places, class_only, 0, item);
        assert(item == item_of_symbol(s[places[k] as int]));
        assert(more.contains(item));
        let j = choose|j: int| 0 <= j < more.len() && more[j] == item;
        if r.len() < limit {
            merging_loses_nothing(Likeness::Find, out, more, 0, limit as nat, j);
        }
    }
}

proof fn lemma_starts_itself(a: Seq<char>, b: Seq<char>)
    ensures
        a == b ==> text::starts(a, b),
{
    if a == b {
        assert(a.subrange(0, b.len() as int) =~= b);
    }
}

/// The symbols that the index finds are those that the text asks for, types only where only types
/// are wanted; and where fewer are found than wanted, none of them is missing.
pub proof fn symbols_asked_for_are_found(
    v: HotView,
    q: Seq<char>,
    class_only: bool,
    limit: usize,
    x: ItemView,
    i: int,
)
    requires
        v.well_formed(),
        v.symbols.len() <= usize::MAX,
        q.len() > 0,
        identifier(q) ==> compact(q).len() > 0,
        0 <= i < v.symbols.len(),
    ensures
        symbols_found(v, q, class_only, limit).contains(x) ==> met(v.symbols, q, class_only, x),
        meets(v.symbols[i], q) && (class_only ==> v.symbols[i].is_class_like) && symbols_found(
            v,
            q,
            class_only,
            limit,
        ).len() < limit ==> has_like(
            Likeness::Find,
            symbols_found(v, q, class_only, limit),
            identity(Likeness::Find, item_of_symbol(v.symbols[i])),
        ),
{
    let s = v.symbols;
    let n = s.len() as int;
    let j = if class_only && !s[i].is_class_like && exists|j: int|
        0 <= j < n && (#[trigger] s[j]).is_class_like {
        choose|j: int| 0 <= j < n && (#[trigger] s[j]).is_class_like
    } else {
        i
    };
    if class_only && !s[j].is_class_like {
        lemma_no_types(v, q, limit);
    } else {
        lemma_stages(v, q, class_only, limit, j);
    }
}

proof fn lemma_nothing_listed(s: Seq<SymbolView>, places: Seq<usize>)
    requires
        forall|j: int| 0 <= j < s.len() ==> !(#[trigger] s[j]).is_class_like,
        forall|p: usize| #[trigger] places.contains(p) ==> p < s.len(),
    ensures
        symbol_items(s, places, true, 0).len() == 0,
{
    let all = symbol_items(s, places, true, 0);
    if all.len() > 0 {
        let x = all[0];
        assert(all.contains(x));
        lemma_symbol_items(s, places, true, 0, x);
        let k = choose|k: int|
            0 <= k < places.len() && x == item_of_symbol(s[(#[trigger] places[k]) as int])
                && s[places[k] as int].is_class_like;
        assert(places.contains(places[k]));
    }
}

proof fn lemma_equal_within(list: Keyed, key: Seq<char>, n: int)
    requires
        n == list.keys.len() <= usize::MAX,
    ensures
        forall|p: usize| #[trigger] list.equal_to(key, n).contains(p) ==> p < n,
{
    assert forall|p: usize| #[trigger] list.equal_to(key, n).contains(p) implies p < n by {
        lemma_equal_to(list, key, n, p);
    }
}

proof fn lemma_begins_within(list: Keyed, order: Seq<usize>, prefix: Seq<char>)
    requires
        list.ordered(order),
        prefix.len() > 0,
    ensures
        forall|p: usize| #[trigger]
            list.beginning(order, prefix, 0).contains(p) ==> p < list.keys.len(),
{
    assert forall|p: usize| #[trigger] list.beginning(order, prefix, 0).contains(p) implies p
        < list.keys.len() by {
        lemma_begins(list, order, prefix, p);
    }
}

proof fn lemma_no_types(v: HotView, q: Seq<char>, limit: usize)
    requires
        v.well_formed(),
        v.symbols.len() <= usize::MAX,
        q.len() > 0,
        identifier(q) ==> compact(q).len() > 0,
        forall|j: int| 0 <= j < v.symbols.len() ==> !(#[trigger] v.symbols[j]).is_class_like,
    ensures
        symbols_found(v, q, true, limit).len() == 0,
{
    let s = v.symbols;
    let n = s.len() as int;
    let low = text::lower(q);
    let c = compact(q);
    lemma_equal_within(names(s), low, n);
    lemma_equal_within(compact_names(s), c, n);
    lemma_equal_within(owners(s), low, n);
    lemma_equal_within(modules(s), low, n);
    lemma_begins_within(names(s), v.name_order, low);
    lemma_begins_within(owners(s), v.owner_order, low);
    lemma_begins_within(modules(s), v.module_order, low);
    lemma_nothing_listed(s, names(s).equal_to(low, n));
    lemma_nothing_listed(s, names(s).beginning(v.name_order, low, 0));
    lemma_nothing_listed(s, owners(s).equal_to(low, n));
    lemma_nothing_listed(s, owners(s).beginning(v.owner_order, low, 0));
    lemma_nothing_listed(s, modules(s).equal_to(low, n));
    lemma_nothing_listed(s, modules(s).beginning(v.module_order, low, 0));
    if identifier(q) {
        lemma_begins_within(compact_names(s), v.compact_order, c);
        lemma_nothing_listed(s, compact_names(s).equal_to(c, n));
        lemma_nothing_listed(s, compact_names(s).beginning(v.compact_order, c, 0));
    }
}

proof fn lemma_stages(v: HotView, q: Seq<char>, class_only: bool, limit: usize, i: int)
    requires
        v.well_formed(),
        v.symbols.len() <= usize::MAX,
        q.len() > 0,
        identifier(q) ==> compact(q).len() > 0,
        0 <= i < v.symbols.len(),
        class_only ==> v.symbols[i].is_class_like,
    ensures
        all_met(v.symbols, q, class_only, symbols_found(v, q, class_only, limit)),
        meets(v.symbols[i], q) ==> full_or_has(
            symbols_found(v, q, class_only, limit),
            limit as nat,
            item_of_symbol(v.symbols[i]),
        ),
{
    let s = v.symbols;
    let n = s.len() as int;
    let low = text::lower(q);
    let c = compact(q);
    let u = i as usize;
    lemma_all_places(v, q);
    let none = Seq::<ItemView>::empty();
    let ne = names(s).equal_to(low, n);
    let nb = names(s).beginning(v.name_order, low, 0);
    lemma_begins(names(s), v.name_order, low, u);
    let a = with_symbols(none, s, ne, class_only, limit);
    lemma_stage(none, s, ne, q, class_only, limit, i);
    if identifier(q) {
        let ce = compact_names(s).equal_to(c, n);
        let cb = compact_names(s).beginning(v.compact_order, c, 0);
        let b1 = with_symbols(a, s, ce, class_only, limit);
        lemma_stage(a, s, ce, q, class_only, limit, i);
        let b = with_symbols(b1, s, cb, class_only, limit);
        lemma_stage(b1, s, cb, q, class_only, limit, i);
        lemma_begins(compact_names(s), v.compact_order, c, u);
        let d = with_symbols(b, s, nb, class_only, limit);
        lemma_stage(b, s, nb, q, class_only, limit, i);
        assert(d == symbols_found(v, q, class_only, limit));
        merging_adds_new_items_only(
            Likeness::Find,
            b,
            symbol_items(s, nb, class_only, 0),
            0,
            limit as nat,
        );
    } else {
        let oe = owners(s).equal_to(low, n);
        let ob = owners(s).beginning(v.owner_order, low, 0);
        let me = modules(s).equal_to(low, n);
        let mb = modules(s).beginning(v.module_order, low, 0);
        lemma_begins(owners(s), v.owner_order, low, u);
        lemma_begins(modules(s), v.module_order, low, u);
        let d = with_symbols(a, s, nb, class_only, limit);
        lemma_stage(a, s, nb, q, class_only, limit, i);
        let e = with_symbols(d, s, oe, class_only, limit);
        lemma_stage(d, s, oe, q, class_only, limit, i);
        let f = with_symbols(e, s, ob, class_only, limit);
        lemma_stage(e, s, ob, q, class_only, limit, i);
        let g = with_symbols(f, s, me, class_only, limit);
        lemma_stage(f, s, me, q, class_only, limit, i);
        let h = with_symbols(g, s, mb, class_only, limit);
        lemma_stage(g, s, mb, q, class_only, limit, i);
        assert(h == symbols_found(v, q, class_only, limit));
    }
}

/// The places that each stage looks at are those of symbols that the text asks for.
proof fn lemma_all_places(v: HotView, q: Seq<char>)
    requires
        v.well_formed(),
        v.symbols.len() <= usize::MAX,
        q.len() > 0,
        identifier(q) ==> compact(q).len() > 0,
    ensures
        ({
            let s = v.symbols;
            let n = s.len() as int;
            let low = text::lower(q);
            let c = compact(q);
            &&& forall|p: usize| #[trigger]
                names(s).equal_to(low, n).contains(p) ==> p < n && meets(s[p as int], q)
            &&& forall|p: usize| #[trigger]
                names(s).beginning(v.name_order, low, 0).contains(p) ==> p < n && meets(
                    s[p as int],
                    q,
                )
            &&& identifier(q) ==> forall|p: usize| #[trigger]
                compact_names(s).equal_to(c, n).contains(p) ==> p < n && meets(s[p as int], q)
            &&& identifier(q) ==> forall|p: usize| #[trigger]
                compact_names(s).beginning(v.compact_order, c, 0).contains(p) ==> p < n && meets(
                    s[p as int],
                    q,
                )
            &&& !identifier(q) ==> forall|p: usize| #[trigger]
                owners(s).equal_to(low, n).contains(p) ==> p < n && meets(s[p as int], q)
            &&& !identifier(q) ==> forall|p: usize| #[trigger]
                owners(s).beginning(v.owner_order, low, 0).contains(p) ==> p < n && meets(
                    s[p as int],
                    q,
                )
            &&& !identifier(q) ==> forall|p: usize| #[trigger]
                modules(s).equal_to(low, n).contains(p) ==> p < n && meets(s[p as int], q)
            &&& !identifier(q) ==> forall|p: usize| #[trigger]
                modules(s).beginning(v.module_order, low, 0).contains(p) ==> p < n && meets(
                    s[p as int],
                    q,
                )
        }),
{
    let s = v.symbols;
    let n = s.len() as int;
    let low = text::lower(q);
    let c = compact(q);
    let ne = names(s).equal_to(low, n);
    let ce = compact_names(s).equal_to(c, n);
    let cb = compact_names(s).beginning(v.compact_order, c, 0);
    let nb = names(s).beginning(v.name_order, low, 0);
    let oe = owners(s).equal_to(low, n);
    let ob = owners(s).beginning(v.owner_order, low, 0);
    let me = modules(s).equal_to(low, n);
    let mb = modules(s).beginning(v.module_order, low, 0);
    assert forall|p: usize| true implies #[trigger] ne.contains(p) ==> p < s.len() && meets(
        s[p as int],
        q,
    ) by {
        lemma_equal_to(names(s), low, n, p);
        if p < s.len() {
            lemma_starts_itself(s[p as int].name_lc, low);
        }
    }
    assert forall|p: usize| true implies #[trigger] nb.contains(p) ==> p < s.len() && meets(
        s[p as int],
        q,
    ) by {
        lemma_begins(names(s), v.name_order, low, p);
    }
    if identifier(q) {
        assert forall|p: usize| true implies #[trigger] ce.contains(p) ==> p < s.len() && meets(
            s[p as int],
            q,
        ) by {
            lemma_equal_to(compact_names(s), c, n, p);
            if p < s.len() {
                lemma_starts_itself(s[p as int].compact_name, c);
            }
        }
        assert forall|p: usize| true implies #[trigger] cb.contains(p) ==> p < s.len() && meets(
            s[p as int],
            q,
        ) by {
            lemma_begins(compact_names(s), v.compact_order, c, p);
        }
    } else {
        assert forall|p: usize| true implies #[trigger] oe.contains(p) ==> p < s.len() && meets(
            s[p as int],
            q,
        ) by {
            lemma_equal_to(owners(s), low, n, p);
            if p < s.len() {
                lemma_starts_itself(s[p as int].owner_name_lc, low);
            }
        }
        assert forall|p: usize| true implies #[trigger] ob.contains(p) ==> p < s.len() && meets(
            s[p as int],
            q,
        ) by {
            lemma_begins(owners(s), v.owner_order, low, p);
        }
        assert forall|p: usize| true implies #[trigger] me.contains(p) ==> p < s.len() && meets(
            s[p as int],
            q,
        ) by {
            lemma_equal_to(modules(s), low, n, p);
            if p < s.len() {
                lemma_starts_itself(s[p as int].module_name_lc, low);
            }
        }
        assert forall|p: usize| true implies #[trigger] mb.contains(p) ==> p < s.len() && meets(
            s[p as int],
            q,
        ) by {
            lemma_begins(modules(s), v.module_order, low, p);
        }
    }
}

/// The name of the symbol is the text; for a text that reads as a name this counts without the signs
/// between words, too.
pub open spec fn bears(s: SymbolView, q: Seq<char>) -> bool {
    s.name_lc == text::lower(q) || (identifier(q) && s.compact_name.len() > 0 && s.compact_name
        == compact(q))
}

/// The item is that of a symbol whose name is the text.
pub open spec fn borne(s: Seq<SymbolView>, q: Seq<char>, x: ItemView) -> bool {
    exists|i: int| 0 <= i < s.len() && x == item_of_symbol(#[trigger] s[i]) && bears(s[i], q)
}

spec fn all_borne(s: Seq<SymbolView>, q: Seq<char>, list: Seq<ItemView>) -> bool {
    forall|x: ItemView| #[trigger] list.contains(x) ==> borne(s, q, x)
}

proof fn lemma_exact_stage(
    out: Seq<ItemView>,
    s: Seq<SymbolView>,
    places: Seq<usize>,
    q: Seq<char>,
    class_only: bool,
    limit: usize,
    i: int,
)
    requires
        all_borne(s, q, out),
        forall|p: usize| #[trigger] places.contains(p) ==> p < s.len() && bears(s[p as int], q),
        0 <= i < s.len() <= usize::MAX,
        class_only ==> s[i].is_class_like,
    ensures
        all_borne(s, q, with_symbols(out, s, places, class_only, limit)),
        has_like(Likeness::Find, out, identity(Likeness::Find, item_of_symbol(s[i]))) ==> has_like(
            Likeness::Find,
            with_symbols(out, s, places, class_only, limit),
            identity(Likeness::Find, item_of_symbol(s[i])),
        ),
        out.len() <= with_symbols(out, s, places, class_only, limit).len(),
        places.contains(i as usize) ==> full_or_has(
            with_symbols(out, s, places, class_only, limit),
            limit as nat,
            item_of_symbol(s[i]),
        ),
{
    let more = symbol_items(s, places, class_only, 0);
    let r = with_symbols(out, s, places, class_only, limit);
    merging_adds_new_items_only(Likeness::Find, out, more, 0, limit as nat);
    assert forall|x: ItemView| #[trigger] r.contains(x) implies borne(s, q, x) by {
        lemma_merged_from(out, more, 0, limit as nat, x);
        if !out.contains(x) {
            lemma_symbol_items(s, places, class_only, 0, x);
            let k = choose|k: int|
                0 <= k < places.len() && x == item_of_symbol(s[(#[trigger] places[k]) as int]) && (
                class_only ==> s[places[k] as int].is_class_like);
            assert(places.contains(places[k]));
            assert(bears(s[places[k] as int], q));
        }
    }
    let item = item_of_symbol(s[i]);
    let key = identity(Likeness::Find, item);
    if has_like(Likeness::Find, out, key) {
        let k = choose|k: int|
            0 <= k < out.len() && identity(Likeness::Find, #[trigger] out[k]) == key;
        assert(r.take(out.len() as int)[k] == r[k]);
        assert(identity(Likeness::Find, r[k]) == key);
    }
    if places.contains(i as usize) {
        let k = choose|k: int| 0 <= k < places.len() && places[k] == i as usize;
        lemma_symbol_items(s, places, class_only, 0, item);
        assert(item == item_of_symbol(s[places[k] as int]));
        assert(more.contains(item));
        let j = choose|j: int| 0 <= j < more.len() && more[j] == item;
        if r.len() < limit {
            merging_loses_nothing(Likeness::Find, out, more, 0, limit as nat, j);
        }
    }
}

/// So many of the first results are of symbols whose name is the text; where these are fewer than
/// wanted, this symbol is among them if its name is the text.
pub open spec fn exact_up_to(
    r: Seq<ItemView>,
    s: Seq<SymbolView>,
    q: Seq<char>,
    class_only: bool,
    limit: usize,
    i: int,
    n: int,
) -> bool {
    &&& 0 <= n <= r.len()
    &&& forall|k: int| 0 <= k < n ==> borne(s, q, #[trigger] r[k])
    &&& n < limit && bears(s[i], q) && (class_only ==> s[i].is_class_like) ==> has_like(
        Likeness::Find,
        r.take(n),
        identity(Likeness::Find, item_of_symbol(s[i])),
    )
}

proof fn lemma_still_first(
    head: Seq<ItemView>,
    s: Seq<SymbolView>,
    places: Seq<usize>,
    class_only: bool,
    limit: usize,
    n: int,
)
    requires
        0 <= n <= head.len(),
    ensures
        with_symbols(head, s, places, class_only, limit).len() >= head.len(),
        with_symbols(head, s, places, class_only, limit).take(n) == head.take(n),
{
    let r = with_symbols(head, s, places, class_only, limit);
    merging_adds_new_items_only(
        Likeness::Find,
        head,
        symbol_items(s, places, class_only, 0),
        0,
        limit as nat,
    );
    assert(r.take(n) =~= r.take(head.len() as int).take(n));
}

/// Symbols whose name is the text are found before all others.
pub proof fn whole_names_come_before_beginnings(
    v: HotView,
    q: Seq<char>,
    class_only: bool,
    limit: usize,
    i: int,
)
    requires
        v.well_formed(),
        v.symbols.len() <= usize::MAX,
        q.len() > 0,
        identifier(q) ==> compact(q).len() > 0,
        0 <= i < v.symbols.len(),
        class_only ==> v.symbols[i].is_class_like,
    ensures
        exists|n: int|
            exact_up_to(symbols_found(v, q, class_only, limit), v.symbols, q, class_only, limit, i, n),
{
    let s = v.symbols;
    let n = s.len() as int;
    let low = text::lower(q);
    let c = compact(q);
    let u = i as usize;
    let none = Seq::<ItemView>::empty();
    let ne = names(s).equal_to(low, n);
    let nb = names(s).beginning(v.name_order, low, 0);
    assert forall|p: usize| #[trigger] ne.contains(p) implies p < s.len() && bears(s[p as int], q) by {
        lemma_equal_to(names(s), low, n, p);
    }
    lemma_equal_to(names(s), low, n, u);
    let a = with_symbols(none, s, ne, class_only, limit);
    lemma_exact_stage(none, s, ne, q, class_only, limit, i);
    let r = symbols_found(v, q, class_only, limit);
    let head = if identifier(q) {
        let ce = compact_names(s).equal_to(c, n);
        let cb = compact_names(s).beginning(v.compact_order, c, 0);
        assert forall|p: usize| #[trigger] ce.contains(p) implies p < s.len() && bears(
            s[p as int],
            q,
        ) by {
            lemma_equal_to(compact_names(s), c, n, p);
        }
        lemma_equal_to(compact_names(s), c, n, u);
        let b = with_symbols(a, s, ce, class_only, limit);
        lemma_exact_stage(a, s, ce, q, class_only, limit, i);
        let d = with_symbols(b, s, cb, class_only, limit);
        lemma_still_first(b, s, cb, class_only, limit, b.len() as int);
        lemma_still_first(d, s, nb, class_only, limit, b.len() as int);
        b
    } else {
        let oe = owners(s).equal_to(low, n);
        let ob = owners(s).beginning(v.owner_order, low, 0);
        let me = modules(s).equal_to(low, n);
        let mb = modules(s).beginning(v.module_order, low, 0);
        let m = a.len() as int;
        let d = with_symbols(a, s, nb, class_only, limit);
        lemma_still_first(a, s, nb, class_only, limit, m);
        let e = with_symbols(d, s, oe, class_only, limit);
        lemma_still_first(d, s, oe, class_only, limit, m);
        let f = with_symbols(e, s, ob, class_only, limit);
        lemma_still_first(e, s, ob, class_only, limit, m);
        let g = with_symbols(f, s, me, class_only, limit);
        lemma_still_first(f, s, me, class_only, limit, m);
        lemma_still_first(g, s, mb, class_only, limit, m);
        a
    };
    let m = head.len() as int;
    assert(head.take(m) =~= head);
    assert(r.take(m) == head);
    assert forall|k: int| 0 <= k < m implies borne(s, q, #[trigger] r[k]) by {
        assert(r.take(m)[k] == r[k]);
        assert(head.contains(head[k]));
    }
    assert(exact_up_to(r, s, q, class_only, limit, i, m));
}

// ---------------------------------------------------------------------------
// Files
// ---------------------------------------------------------------------------
/// The item is that of a file whose name or path begins with the text.
pub open spec fn file_met(f: Seq<FileView>, q: Seq<char>, x: ItemView) -> bool {
    exists|i: int|
        0 <= i < f.len() && x == item_of_file(#[trigger] f[i]) && (text::starts(
            f[i].basename_lc,
            text::lower(q),
        ) || text::starts(f[i].path_lc, text::lower(q)))
}

proof fn lemma_file_stage(
    out: Seq<ItemView>,
    f: Seq<FileView>,
    places: Seq<usize>,
    q: Seq<char>,
    limit: usize,
    x: ItemView,
)
    requires
        with_files(out, f, places, limit).contains(x),
        forall|p: usize| #[trigger]
            places.contains(p) ==> p < f.len() && (text::starts(
                f[p as int].basename_lc,
                text::lower(q),
            ) || text::starts(f[p as int].path_lc, text::lower(q))),
    ensures
        out.contains(x) || file_met(f, q, x),
{
    let more = file_items(f, places);
    lemma_merged_from(out, more, 0, limit as nat, x);
    if more.contains(x) {
        let k = choose|k: int| 0 <= k < more.len() && more[k] == x;
        assert(places.contains(places[k]));
        assert(x == item_of_file(f[places[k] as int]));
    }
}

/// Besides symbols, files are found whose name or path begins with the text, but none for a text
/// that reads as a name, nor where only types are wanted.
pub proof fn files_are_found_for_paths(
    v: HotView,
    q: Seq<char>,
    class_only: bool,
    limit: usize,
    x: ItemView,
)
    requires
        v.well_formed(),
        v.files.len() <= usize::MAX,
        q.len() > 0,
    ensures
        everything_found(v, q, class_only, limit).contains(x) ==> symbols_found(
            v,
            q,
            class_only,
            limit,
        ).contains(x) || (!class_only && !identifier(q) && file_met(v.files, q, x)),
{
    if !class_only && !identifier(q) && everything_found(v, q, class_only, limit).contains(x) {
        let f = v.files;
        let n = f.len() as int;
        let low = text::lower(q);
        let be = basenames(f).equal_to(low, n);
        let pe = paths(f).equal_to(low, n);
        let bb = basenames(f).beginning(v.basename_order, low, 0);
        let pb = paths(f).beginning(v.path_order, low, 0);
        assert forall|p: usize| #[trigger] be.contains(p) implies p < f.len() && text::starts(
            f[p as int].basename_lc,
            low,
        ) by {
            lemma_equal_to(basenames(f), low, n, p);
            lemma_starts_itself(f[p as int].basename_lc, low);
        }
        assert forall|p: usize| #[trigger] pe.contains(p) implies p < f.len() && text::starts(
            f[p as int].path_lc,
            low,
        ) by {
            lemma_equal_to(paths(f), low, n, p);
            lemma_starts_itself(f[p as int].path_lc, low);
        }
        assert forall|p: usize| #[trigger] bb.contains(p) implies p < f.len() && text::starts(
            f[p as int].basename_lc,
            low,
        ) by {
            lemma_begins(basenames(f), v.basename_order, low, p);
        }
        assert forall|p: usize| #[trigger] pb.contains(p) implies p < f.len() && text::starts(
            f[p as int].path_lc,
            low,
        ) by {
            lemma_begins(paths(f), v.path_order, low, p);
        }
        let found = symbols_found(v, q, class_only, limit);
        let a = with_files(found, f, be, limit);
        let b = with_files(a, f, pe, limit);
        let c = with_files(b, f, bb, limit);
        lemma_file_stage(c, f, pb, q, limit, x);
        if c.contains(x) {
            lemma_file_stage(b, f, bb, q, limit, x);
        }
        if b.contains(x) {
            lemma_file_stage(a, f, pe, q, limit, x);
        }
        if a.contains(x) {
            lemma_file_stage(found, f, be, q, limit, x);
        }
    }
}

} // verus!
