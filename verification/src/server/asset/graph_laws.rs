//! What is found in the graph of assets, of the records that went into it.
use vstd::prelude::*;

use super::graph::{
    asset_item, empty_graph, has_path, hint, hints_from, listing, listing_all, named_before, under,
    usage_list, usages, used, is_usage_list, with_assets, with_record, with_records, with_rows,
    without_asset, AssetMapView, GraphView, HintView,
};
use super::record::{class_of_input, has_type_prefix, lookup_names, RecordView};
use crate::query::item::{as_text, field_of, FieldView, ItemView};
use crate::text;
use crate::textset::{ascending, same_members, sorted_set};

verus! {

// ---------------------------------------------------------------------------
// Records
// ---------------------------------------------------------------------------
/// A name among these, in lower case, is this one.
pub open spec fn names_it(names: Seq<Seq<char>>, key: Seq<char>) -> bool {
    exists|i: int| 0 <= i < names.len() && text::lower(#[trigger] names[i]) == key
}

proof fn lemma_listing_all(
    m: AssetMapView,
    names: Seq<Seq<char>>,
    asset: Seq<char>,
    k: int,
    key: Seq<char>,
    a: Seq<char>,
)
    requires
        0 <= k <= names.len(),
    ensures
        under(listing_all(m, names, asset, k), key).contains(a) <==> under(m, key).contains(a) || (a
            == asset && exists|i: int|
            k <= i < names.len() && text::lower(#[trigger] names[i]) == key),
    decreases names.len() - k,
{
    if k < names.len() {
        lemma_listing_all(listing(m, text::lower(names[k]), asset), names, asset, k + 1, key, a);
        assert(text::lower(names[k]) == key ==> under(
            listing(m, text::lower(names[k]), asset),
            key,
        ).contains(asset));
    }
}

/// A record lists its asset under its imports among the references, under its functions among the
/// functions and under its parent class among the derived, in lower case, and nowhere else; what was
/// listed before stays.
pub proof fn records_list_their_asset(g: GraphView, r: RecordView, key: Seq<char>, a: Seq<char>)
    ensures
        under(with_record(g, r).references, key).contains(a) <==> under(g.references, key).contains(
            a,
        ) || (a == text::lower(r.asset_path) && names_it(r.imports, key)),
        under(with_record(g, r).functions, key).contains(a) <==> under(g.functions, key).contains(a)
            || (a == text::lower(r.asset_path) && names_it(r.functions, key)),
        under(with_record(g, r).derived, key).contains(a) <==> under(g.derived, key).contains(a) || (
        a == text::lower(r.asset_path) && r.parent_class is Some && text::lower(r.parent_class->0)
            == key),
{
    let asset = text::lower(r.asset_path);
    lemma_listing_all(g.references, r.imports, asset, 0, key, a);
    lemma_listing_all(g.functions, r.functions, asset, 0, key, a);
}

/// Some record from position `k` on lists the asset.
pub open spec fn imported_by(list: Seq<RecordView>, k: int, key: Seq<char>, a: Seq<char>) -> bool {
    exists|i: int|
        k <= i < list.len() && text::lower((#[trigger] list[i]).asset_path) == a && names_it(
            list[i].imports,
            key,
        )
}

pub open spec fn called_by(list: Seq<RecordView>, k: int, key: Seq<char>, a: Seq<char>) -> bool {
    exists|i: int|
        k <= i < list.len() && text::lower((#[trigger] list[i]).asset_path) == a && names_it(
            list[i].functions,
            key,
        )
}

pub open spec fn derived_by(list: Seq<RecordView>, k: int, key: Seq<char>, a: Seq<char>) -> bool {
    exists|i: int|
        k <= i < list.len() && text::lower((#[trigger] list[i]).asset_path) == a
            && list[i].parent_class is Some && text::lower(list[i].parent_class->0) == key
}

proof fn lemma_records(g: GraphView, list: Seq<RecordView>, k: int, key: Seq<char>, a: Seq<char>)
    requires
        0 <= k <= list.len(),
    ensures
        under(with_records(g, list, k).references, key).contains(a) <==> under(
            g.references,
            key,
        ).contains(a) || imported_by(list, k, key, a),
        under(with_records(g, list, k).functions, key).contains(a) <==> under(
            g.functions,
            key,
        ).contains(a) || called_by(list, k, key, a),
        under(with_records(g, list, k).derived, key).contains(a) <==> under(g.derived, key).contains(
            a,
        ) || derived_by(list, k, key, a),
    decreases list.len() - k,
{
    if k < list.len() {
        records_list_their_asset(g, list[k], key, a);
        lemma_records(with_record(g, list[k]), list, k + 1, key, a);
    }
}

/// The graph of a list of records lists an asset exactly where one of its records does.
pub proof fn graphs_list_what_records_say(list: Seq<RecordView>, key: Seq<char>, a: Seq<char>)
    ensures
        ({
            let g = with_records(empty_graph(), list, 0);
            &&& under(g.references, key).contains(a) <==> imported_by(list, 0, key, a)
            &&& under(g.functions, key).contains(a) <==> called_by(list, 0, key, a)
            &&& under(g.derived, key).contains(a) <==> derived_by(list, 0, key, a)
        }),
{
    lemma_records(empty_graph(), list, 0, key, a);
}

/// The rows of a store list an asset exactly where one of them does.
pub proof fn rows_list_their_assets(
    m: AssetMapView,
    rows: Seq<(Seq<char>, Seq<char>)>,
    k: int,
    key: Seq<char>,
    a: Seq<char>,
)
    requires
        0 <= k <= rows.len(),
    ensures
        under(with_rows(m, rows, k), key).contains(a) <==> under(m, key).contains(a) || exists|i: int|
            k <= i < rows.len() && #[trigger] rows[i] == (key, a),
    decreases rows.len() - k,
{
    if k < rows.len() {
        rows_list_their_assets(listing(m, rows[k].0, rows[k].1), rows, k + 1, key, a);
        if rows[k].0 == key && rows[k].1 == a {
            assert(rows[k] == (key, a));
        }
    }
}

/// An asset that is read anew is listed exactly where its new record says, and other assets stay
/// where they were.
pub proof fn rereading_replaces_an_asset(g: GraphView, r: RecordView, key: Seq<char>, a: Seq<char>)
    ensures
        ({
            let now = with_record(without_asset(g, r.asset_path), r);
            let own = a == text::lower(r.asset_path);
            &&& own ==> (under(now.functions, key).contains(a) <==> names_it(r.functions, key))
            &&& own ==> (under(now.references, key).contains(a) <==> names_it(r.imports, key))
            &&& own ==> (under(now.derived, key).contains(a) <==> r.parent_class is Some
                && text::lower(r.parent_class->0) == key)
            &&& !own ==> (under(now.functions, key).contains(a) <==> under(
                g.functions,
                key,
            ).contains(a))
            &&& !own ==> (under(now.references, key).contains(a) <==> under(
                g.references,
                key,
            ).contains(a))
            &&& !own ==> (under(now.derived, key).contains(a) <==> under(g.derived, key).contains(
                a,
            ))
        }),
{
    records_list_their_asset(without_asset(g, r.asset_path), r, key, a);
}

// ---------------------------------------------------------------------------
// Finding
// ---------------------------------------------------------------------------
proof fn lemma_put_in(list: Seq<Seq<char>>, x: Seq<char>) -> (r: Seq<Seq<char>>)
    requires
        ascending(list),
        !list.contains(x),
    ensures
        ascending(r),
        forall|y: Seq<char>| #[trigger] r.contains(y) <==> y == x || list.contains(y),
    decreases list.len(),
{
    if list.len() == 0 {
        let r = seq![x];
        assert(r[0] == x);
        r
    } else {
        let last = list.last();
        assert(list.contains(last));
        text::lemma_less_total(last, x);
        if text::less(last, x) {
            let r = list.push(x);
            assert forall|i: int, j: int| 0 <= i < j < r.len() implies text::less(
                #[trigger] r[i],
                #[trigger] r[j],
            ) by {
                if j == list.len() {
                    if i < list.len() - 1 {
                        assert(text::less(list[i], last));
                        lemma_less_trans(list[i], last, x);
                    }
                } else {
                    assert(list[i] == r[i] && list[j] == r[j]);
                }
            }
            assert forall|y: Seq<char>| #[trigger] r.contains(y) <==> y == x || list.contains(y) by {
                assert(r[list.len() as int] == x);
                if list.contains(y) {
                    let i = choose|i: int| 0 <= i < list.len() && list[i] == y;
                    assert(r[i] == y);
                }
                if r.contains(y) {
                    let i = choose|i: int| 0 <= i < r.len() && r[i] == y;
                    if i < list.len() {
                        assert(list[i] == y);
                    }
                }
            }
            r
        } else {
            let front = list.drop_last();
            assert(!front.contains(x)) by {
                if front.contains(x) {
                    let i = choose|i: int| 0 <= i < front.len() && front[i] == x;
                    assert(list[i] == x);
                }
            }
            let f = lemma_put_in(front, x);
            let r = f.push(last);
            assert forall|i: int, j: int| 0 <= i < j < r.len() implies text::less(
                #[trigger] r[i],
                #[trigger] r[j],
            ) by {
                if j < f.len() {
                    assert(f[i] == r[i] && f[j] == r[j]);
                } else {
                    assert(f.contains(f[i]));
                    if f[i] != x {
                        assert(front.contains(f[i]));
                        let w = choose|w: int| 0 <= w < front.len() && front[w] == f[i];
                        assert(text::less(list[w], last));
                    }
                }
            }
            assert forall|y: Seq<char>| #[trigger] r.contains(y) <==> y == x || list.contains(y) by {
                if r.contains(y) {
                    let i = choose|i: int| 0 <= i < r.len() && r[i] == y;
                    if i < f.len() {
                        assert(f[i] == y);
                        assert(f.contains(y));
                        if y != x {
                            let w = choose|w: int| 0 <= w < front.len() && front[w] == y;
                            assert(list[w] == y);
                        }
                    } else {
                        assert(list[list.len() - 1] == y);
                    }
                }
                if y == x || list.contains(y) {
                    if y == last {
                        assert(r[f.len() as int] == y);
                    } else {
                        if y != x {
                            let w = choose|w: int| 0 <= w < list.len() && list[w] == y;
                            assert(front[w] == y);
                            assert(front.contains(y));
                        }
                        assert(f.contains(y));
                        let i = choose|i: int| 0 <= i < f.len() && f[i] == y;
                        assert(r[i] == y);
                    }
                }
            }
            r
        }
    }
}

proof fn lemma_less_trans(a: Seq<char>, b: Seq<char>, c: Seq<char>)
    requires
        text::less(a, b),
        text::less(b, c),
    ensures
        text::less(a, c),
{
    text::lemma_less_total(a, b);
    text::lemma_less_total(b, c);
    text::lemma_at_most_trans(a, b, c);
    text::lemma_less_total(a, c);
}

/// Every finite set of texts can be listed in ascending order.
pub proof fn lemma_ascending_list(s: Set<Seq<char>>) -> (r: Seq<Seq<char>>)
    requires
        s.finite(),
    ensures
        ascending(r),
        forall|y: Seq<char>| #[trigger] r.contains(y) <==> s.contains(y),
    decreases s.len(),
{
    if s.len() == 0 {
        assert(s =~= Set::empty());
        Seq::empty()
    } else {
        let x = s.choose();
        let rest = lemma_ascending_list(s.remove(x));
        lemma_put_in(rest, x)
    }
}

/// Only finitely many assets are listed under a name.
pub open spec fn finitely_listed(m: AssetMapView) -> bool {
    forall|key: Seq<char>| #[trigger] under(m, key).finite()
}

proof fn lemma_used_finite(m: AssetMapView, names: Seq<Seq<char>>)
    requires
        finitely_listed(m),
    ensures
        Set::new(|a: Seq<char>| used(m, names, a)).finite(),
    decreases names.len(),
{
    let all = Set::new(|a: Seq<char>| used(m, names, a));
    if names.len() == 0 {
        assert(all =~= Set::empty());
    } else {
        let front = names.drop_last();
        lemma_used_finite(m, front);
        let before = Set::new(|a: Seq<char>| used(m, front, a));
        assert(under(m, names.last()).finite());
        assert forall|a: Seq<char>| all.contains(a) <==> before.union(
            under(m, names.last()),
        ).contains(a) by {
            if used(m, names, a) {
                let i = choose|i: int| 0 <= i < names.len() && under(m, #[trigger] names[i]).contains(a);
                if i < front.len() {
                    assert(under(m, front[i]).contains(a));
                }
            }
            if used(m, front, a) {
                let i = choose|i: int| 0 <= i < front.len() && under(m, #[trigger] front[i]).contains(a);
                assert(under(m, names[i]).contains(a));
            }
            if under(m, names.last()).contains(a) {
                assert(under(m, names[names.len() - 1]).contains(a));
            }
        }
        assert(all =~= before.union(under(m, names.last())));
    }
}

proof fn lemma_usage_list_lists(m: AssetMapView, names: Seq<Seq<char>>)
    requires
        finitely_listed(m),
    ensures
        is_usage_list(m, names, usage_list(m, names)),
{
    lemma_used_finite(m, names);
    let list = lemma_ascending_list(Set::new(|a: Seq<char>| used(m, names, a)));
    assert forall|a: Seq<char>| #[trigger] list.contains(a) <==> used(m, names, a) by {}
    assert(is_usage_list(m, names, list));
}

/// The names that an asset is looked up by are that of the class in lower case and, where the name
/// has the prefix of a type, the one without it.
pub proof fn assets_are_looked_up_by_class(input: Seq<char>, name: Seq<char>)
    ensures
        lookup_names(input).contains(name) <==> {
            let c = if text::starts(input, "/Script/"@) {
                text::last_part(input, '.')
            } else {
                input
            };
            name == text::lower(c) || (has_type_prefix(c) && name == text::lower(
                c.subrange(1, c.len() as int),
            ))
        },
{
    let c = class_of_input(input);
    let list = if has_type_prefix(c) {
        seq![text::lower(c), text::lower(c.subrange(1, c.len() as int))]
    } else {
        seq![text::lower(c)]
    };
    let some = lemma_ascending_list(list.to_set());
    assert(same_members(some, list));
    assert(ascending(some) && same_members(some, list));
    let names = sorted_set(list);
    assert(ascending(names) && same_members(names, list));
    assert(names.contains(name) <==> list.contains(name));
    assert(list[0] == text::lower(c));
    if has_type_prefix(c) {
        assert(list[1] == text::lower(c.subrange(1, c.len() as int)));
    }
}

/// What is found for a name are exactly the assets that are listed under one of the names that it is
/// looked up by: as references, as callers of the function and as derived, each in ascending order.
pub proof fn usages_are_what_is_listed(g: GraphView, name: Seq<char>, a: Seq<char>)
    requires
        finitely_listed(g.references),
        finitely_listed(g.functions),
        finitely_listed(g.derived),
    ensures
        usages(g, name).references.contains(a) <==> exists|n: Seq<char>| #[trigger]
            lookup_names(name).contains(n) && under(g.references, n).contains(a),
        usages(g, name).function_references.contains(a) <==> exists|n: Seq<char>| #[trigger]
            lookup_names(name).contains(n) && under(g.functions, n).contains(a),
        usages(g, name).derived.contains(a) <==> exists|n: Seq<char>| #[trigger]
            lookup_names(name).contains(n) && under(g.derived, n).contains(a),
        ascending(usages(g, name).references),
        ascending(usages(g, name).function_references),
        ascending(usages(g, name).derived),
{
    let names = lookup_names(name);
    lemma_usage_list_lists(g.references, names);
    lemma_usage_list_lists(g.functions, names);
    lemma_usage_list_lists(g.derived, names);
    lemma_used_by_name(g.references, names, a);
    lemma_used_by_name(g.functions, names, a);
    lemma_used_by_name(g.derived, names, a);
}

proof fn lemma_used_by_name(m: AssetMapView, names: Seq<Seq<char>>, a: Seq<char>)
    ensures
        used(m, names, a) <==> exists|n: Seq<char>| #[trigger]
            names.contains(n) && under(m, n).contains(a),
{
    if used(m, names, a) {
        let i = choose|i: int| 0 <= i < names.len() && under(m, #[trigger] names[i]).contains(a);
        assert(names.contains(names[i]) && under(m, names[i]).contains(a));
    }
    if exists|n: Seq<char>| #[trigger] names.contains(n) && under(m, n).contains(a) {
        let n = choose|n: Seq<char>| #[trigger] names.contains(n) && under(m, n).contains(a);
        let i = choose|i: int| 0 <= i < names.len() && names[i] == n;
        assert(under(m, names[i]).contains(a));
    }
}

proof fn lemma_listing_finite(m: AssetMapView, names: Seq<Seq<char>>, asset: Seq<char>, k: int)
    requires
        finitely_listed(m),
    ensures
        finitely_listed(listing_all(m, names, asset, k)),
    decreases names.len() - k,
{
    if 0 <= k < names.len() {
        let next = listing(m, text::lower(names[k]), asset);
        assert forall|key: Seq<char>| #[trigger] under(next, key).finite() by {
            assert(under(m, key).finite());
            assert(under(m, text::lower(names[k])).finite());
        }
        lemma_listing_finite(next, names, asset, k + 1);
    }
}

/// Records list only finitely many assets under a name.
pub proof fn records_list_finitely(g: GraphView, list: Seq<RecordView>, k: int)
    requires
        finitely_listed(g.references),
        finitely_listed(g.functions),
        finitely_listed(g.derived),
    ensures
        finitely_listed(with_records(g, list, k).references),
        finitely_listed(with_records(g, list, k).functions),
        finitely_listed(with_records(g, list, k).derived),
    decreases list.len() - k,
{
    if 0 <= k < list.len() {
        let r = list[k];
        let asset = text::lower(r.asset_path);
        lemma_listing_finite(g.references, r.imports, asset, 0);
        lemma_listing_finite(g.functions, r.functions, asset, 0);
        let now = with_record(g, r);
        assert forall|key: Seq<char>| #[trigger] under(now.derived, key).finite() by {
            assert(under(g.derived, key).finite());
            if let Some(p) = r.parent_class {
                assert(under(g.derived, text::lower(p)).finite());
            }
        }
        records_list_finitely(now, list, k + 1);
    }
}

/// An asset whose record names a function is found as a caller of that function, one that names an
/// import is found as a reference to it, and one with a parent class is found as derived from it.
pub proof fn assets_are_found_by_what_they_use(list: Seq<RecordView>, i: int, name: Seq<char>)
    requires
        0 <= i < list.len(),
        !text::starts(name, "/Script/"@),
    ensures
        ({
            let found = usages(with_records(empty_graph(), list, 0), name);
            let asset = text::lower(list[i].asset_path);
            &&& list[i].functions.contains(name) ==> found.function_references.contains(asset)
            &&& list[i].imports.contains(name) ==> found.references.contains(asset)
            &&& list[i].parent_class == Some(name) ==> found.derived.contains(asset)
        }),
{
    let g = with_records(empty_graph(), list, 0);
    let asset = text::lower(list[i].asset_path);
    let key = text::lower(name);
    assert(finitely_listed(Map::<Seq<char>, Set<Seq<char>>>::empty()));
    records_list_finitely(empty_graph(), list, 0);
    usages_are_what_is_listed(g, name, asset);
    assets_are_looked_up_by_class(name, key);
    graphs_list_what_records_say(list, key, asset);
    if list[i].functions.contains(name) {
        let j = choose|j: int| 0 <= j < list[i].functions.len() && list[i].functions[j] == name;
        assert(text::lower(list[i].functions[j]) == key);
        assert(names_it(list[i].functions, key));
    }
    if list[i].imports.contains(name) {
        let j = choose|j: int| 0 <= j < list[i].imports.len() && list[i].imports[j] == name;
        assert(text::lower(list[i].imports[j]) == key);
        assert(names_it(list[i].imports, key));
    }
}

/// A hint counts the assets that derive from a name and those that refer to it or call it.
pub proof fn hints_count_usages(g: GraphView, name: Seq<char>)
    ensures
        hint(g, name).name == name,
        hint(g, name).derived_count == usages(g, name).derived.len(),
        usages(g, name).references.len() + usages(g, name).function_references.len() <= usize::MAX
            ==> hint(g, name).reference_count == usages(g, name).references.len() + usages(
            g,
            name,
        ).function_references.len(),
{
}

/// There is a hint for every name that is not blank, and none twice: each hint is that of a name that
/// no earlier name is like.
pub proof fn every_name_has_one_hint(g: GraphView, names: Seq<Seq<char>>, k: int, i: int)
    requires
        0 <= k <= i < names.len(),
        text::trimmed(names[i]).len() > 0,
        forall|j: int|
            0 <= j < i ==> !text::same_caseless(
                text::trimmed(#[trigger] names[j]),
                text::trimmed(names[i]),
            ),
    ensures
        hints_from(g, names, k).contains(hint(g, text::trimmed(names[i]))),
    decreases i - k,
{
    let all = hints_from(g, names, k);
    let rest = hints_from(g, names, k + 1);
    let wanted = hint(g, text::trimmed(names[i]));
    if k < i {
        every_name_has_one_hint(g, names, k + 1, i);
        let x = choose|x: int| 0 <= x < rest.len() && rest[x] == wanted;
        if all.len() == rest.len() {
            assert(all[x] == wanted);
        } else {
            assert(all[x + 1] == wanted);
        }
    } else {
        assert(!named_before(names, text::trimmed(names[i]), i));
        assert(all[0] == wanted);
    }
}

// ---------------------------------------------------------------------------
// Joining with classes
// ---------------------------------------------------------------------------
/// The results that were there stay in front, and every asset is among the results then.
pub proof fn derived_assets_join_the_results(
    results: Seq<ItemView>,
    assets: Seq<Seq<char>>,
    k: int,
)
    requires
        0 <= k <= assets.len(),
    ensures
        results.len() <= with_assets(results, assets, k).len(),
        with_assets(results, assets, k).take(results.len() as int) == results,
        forall|i: int|
            k <= i < assets.len() ==> exists|j: int|
                0 <= j < with_assets(results, assets, k).len() && has_path(
                    #[trigger] with_assets(results, assets, k)[j],
                    #[trigger] assets[i],
                ),
        forall|j: int|
            results.len() <= j < with_assets(results, assets, k).len() ==> exists|i: int|
                k <= i < assets.len() && #[trigger] with_assets(results, assets, k)[j]
                    == asset_item(#[trigger] assets[i]),
    decreases assets.len() - k,
{
    let all = with_assets(results, assets, k);
    if k < assets.len() {
        let known = exists|i: int| 0 <= i < results.len() && has_path(#[trigger] results[i], assets[k]);
        let next = if known {
            results
        } else {
            results.push(asset_item(assets[k]))
        };
        derived_assets_join_the_results(next, assets, k + 1);
        assert(all == with_assets(next, assets, k + 1));
        assert(all.take(results.len() as int) =~= next.take(results.len() as int)) by {
            assert(forall|x: int|
                0 <= x < results.len() ==> all[x] == #[trigger] all.take(next.len() as int)[x]);
        }
        assert(next.take(results.len() as int) =~= results);
        assert forall|i: int| k <= i < assets.len() implies exists|j: int|
            0 <= j < all.len() && has_path(#[trigger] all[j], #[trigger] assets[i]) by {
            if i == k {
                let j = if known {
                    choose|j: int| 0 <= j < results.len() && has_path(#[trigger] results[j], assets[k])
                } else {
                    results.len() as int
                };
                if !known {
                    lemma_asset_has_path(assets[k]);
                }
                assert(all.take(next.len() as int)[j] == next[j]);
                assert(has_path(all[j], assets[i]));
            }
        }
        assert forall|j: int| results.len() <= j < all.len() implies exists|i: int|
            k <= i < assets.len() && #[trigger] all[j] == asset_item(#[trigger] assets[i]) by {
            if j < next.len() {
                assert(all.take(next.len() as int)[j] == next[j]);
                assert(all[j] == asset_item(assets[k]));
            }
        }
    } else {
        assert(all.take(results.len() as int) =~= results);
    }
}

proof fn lemma_asset_has_path(asset: Seq<char>)
    ensures
        has_path(asset_item(asset), asset),
{
    reveal_strlit("name");
    reveal_strlit("path");
    reveal_strlit("symbol_type");
    let item = asset_item(asset);
    assert("name"@[0] == 'n' && "path"@[0] == 'p');
    assert(field_of(item, "path"@) == Some(FieldView::Text(asset))) by {
        reveal_with_fuel(crate::textmap::key_position, 3);
    }
}

} // verus!
