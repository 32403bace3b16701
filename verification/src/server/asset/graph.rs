//! Which assets refer to a class, a function or another asset.
use vstd::prelude::*;

use super::record::{lookup_names, make_asset_lookup_names, AssetRecord, RecordView};
use crate::query::item::{
    as_text, field_of, items, Field, FieldView, Item, ItemView,
};
use crate::query::pattern::{saturated_sum, sum_or_max};
use crate::runtime_index::{lists_of, AssetRuntimeIndex};
use crate::text;
use crate::textmap::{lemma_key_position, lemma_position_same_keys, list_at, TextMap};
use crate::textset::{ascending, ascending_list_is_unique, sorted_strings};

verus! {

/// For each name, the assets that are listed under it.
pub type AssetMapView = Map<Seq<char>, Set<Seq<char>>>;

pub open spec fn members_of(v: Vec<String>) -> Set<Seq<char>> {
    text::texts(v@).to_set()
}

pub open spec fn map_view(m: TextMap<Vec<String>>) -> AssetMapView {
    Map::new(|k: Seq<char>| m.spec_get(k) is Some, |k: Seq<char>| members_of(m.spec_get(k)->0))
}

pub struct AssetGraph {
    pub references: TextMap<Vec<String>>,
    pub derived: TextMap<Vec<String>>,
    pub functions: TextMap<Vec<String>>,
}

#[verifier::ext_equal]
pub struct GraphView {
    pub references: AssetMapView,
    pub derived: AssetMapView,
    pub functions: AssetMapView,
}

impl View for AssetGraph {
    type V = GraphView;

    open spec fn view(&self) -> GraphView {
        GraphView {
            references: map_view(self.references),
            derived: map_view(self.derived),
            functions: map_view(self.functions),
        }
    }
}

/// The assets under a name; none where the name is not listed.
pub open spec fn under(m: AssetMapView, key: Seq<char>) -> Set<Seq<char>> {
    if m.contains_key(key) {
        m[key]
    } else {
        Set::empty()
    }
}

/// The map with an asset listed under one more name.
pub open spec fn listing(m: AssetMapView, key: Seq<char>, asset: Seq<char>) -> AssetMapView {
    m.insert(key, under(m, key).insert(asset))
}

/// The map with an asset listed under the names from position `k` on, in lower case.
pub open spec fn listing_all(m: AssetMapView, names: Seq<Seq<char>>, asset: Seq<char>, k: int) -> AssetMapView
    decreases names.len() - k,
{
    if k < 0 || k >= names.len() {
        m
    } else {
        listing_all(listing(m, text::lower(names[k]), asset), names, asset, k + 1)
    }
}

/// The map without an asset.
pub open spec fn unlisting(m: AssetMapView, asset: Seq<char>) -> AssetMapView {
    m.map_values(|s: Set<Seq<char>>| s.remove(asset))
}

pub open spec fn empty_graph() -> GraphView {
    GraphView { references: Map::empty(), derived: Map::empty(), functions: Map::empty() }
}

/// The graph with the record of an asset.
pub open spec fn with_record(g: GraphView, r: RecordView) -> GraphView {
    let asset = text::lower(r.asset_path);
    GraphView {
        references: listing_all(g.references, r.imports, asset, 0),
        derived: match r.parent_class {
            Some(p) => listing(g.derived, text::lower(p), asset),
            None => g.derived,
        },
        functions: listing_all(g.functions, r.functions, asset, 0),
    }
}

pub open spec fn record_views(v: Seq<AssetRecord>) -> Seq<RecordView> {
    v.map_values(|r: AssetRecord| r@)
}

pub open spec fn with_records(g: GraphView, list: Seq<RecordView>, k: int) -> GraphView
    decreases list.len() - k,
{
    if k < 0 || k >= list.len() {
        g
    } else {
        with_records(with_record(g, list[k]), list, k + 1)
    }
}

/// The graph without an asset.
pub open spec fn without_asset(g: GraphView, asset_path: Seq<char>) -> GraphView {
    let asset = text::lower(asset_path);
    GraphView {
        references: unlisting(g.references, asset),
        derived: unlisting(g.derived, asset),
        functions: unlisting(g.functions, asset),
    }
}

fn list_asset(m: &mut TextMap<Vec<String>>, key: &str, asset: &str)
    ensures
        map_view(*final(m)) == listing(map_view(*old(m)), key@, asset@),
{
    let ghost before = *m;
    let known = match m.get(key) {
        Some(v) => text::list_contains(v, asset),
        None => false,
    };
    proof {
        lemma_member(before, key@, asset@);
    }
    if known {
        assert(map_view(*m) =~= listing(map_view(before), key@, asset@)) by {
            assert(under(map_view(before), key@).insert(asset@) =~= under(map_view(before), key@));
        }
    } else {
        m.push_item(key, text::copy_of(asset));
        proof {
            let a = map_view(before);
            let b = map_view(*m);
            assert(b =~= listing(a, key@, asset@)) by {
                assert forall|k: Seq<char>| b.contains_key(k) <==> listing(
                    a,
                    key@,
                    asset@,
                ).contains_key(k) by {
                    assert(m.spec_get(k) is Some <==> k == key@ || before.spec_get(k) is Some);
                }
                assert forall|k: Seq<char>| b.contains_key(k) implies #[trigger] b[k] == listing(
                    a,
                    key@,
                    asset@,
                )[k] by {
                    assert(m.spec_get(k) is Some <==> k == key@ || before.spec_get(k) is Some);
                    let x = list_at(before, k);
                    let y = list_at(*m, k);
                    if k == key@ {
                        assert(y == x.push(y.last()));
                        lemma_pushed(x, y);
                        if before.spec_get(k) is None {
                            assert(text::texts(x) =~= Seq::<Seq<char>>::empty());
                            assert(text::texts(x).to_set() =~= Set::<Seq<char>>::empty());
                        }
                        assert(y.last()@ == asset@);
                    } else {
                        assert(y == x);
                    }
                }
            }
        }
    }
}

proof fn lemma_pushed(x: Seq<String>, y: Seq<String>)
    requires
        y.len() == x.len() + 1,
        y == x.push(y.last()),
    ensures
        text::texts(y).to_set() == text::texts(x).to_set().insert(y.last()@),
{
    let a = text::texts(x);
    let b = text::texts(y);
    assert(b =~= a.push(y.last()@));
    assert forall|s: Seq<char>| b.to_set().contains(s) <==> a.to_set().insert(
        y.last()@,
    ).contains(s) by {
        if b.contains(s) {
            let i = b.index_of(s);
            if i < a.len() {
                assert(a[i] == s);
            }
        }
        if a.contains(s) {
            let i = a.index_of(s);
            assert(b[i] == s);
        }
        assert(b[a.len() as int] == y.last()@);
    }
    assert(b.to_set() =~= a.to_set().insert(y.last()@));
}

proof fn lemma_member(m: TextMap<Vec<String>>, key: Seq<char>, asset: Seq<char>)
    ensures
        m.spec_get(key) matches Some(v) ==> (text::texts(v@).contains(asset) <==> under(
            map_view(m),
            key,
        ).contains(asset)),
{
}

fn list_asset_all(m: &mut TextMap<Vec<String>>, names: &Vec<String>, asset: &str)
    ensures
        map_view(*final(m)) == listing_all(map_view(*old(m)), text::texts(names@), asset@, 0),
{
    let ghost list = text::texts(names@);
    let ghost whole = listing_all(map_view(*m), list, asset@, 0);
    let n: usize = names.len();
    let mut i: usize = 0;
    while i < n
        invariant
            list == text::texts(names@),
            n == names@.len(),
            i <= n,
            whole == listing_all(map_view(*m), list, asset@, i as int),
        decreases n - i,
    {
        assert(list[i as int] == names@[i as int]@);
        list_asset(m, &text::to_lower(&names[i]), asset);
        i = i + 1;
    }
}

fn others(list: &Vec<String>, asset: &str) -> (r: Vec<String>)
    ensures
        members_of(r) == members_of(*list).remove(asset@),
{
    let ghost all = text::texts(list@);
    let mut r: Vec<String> = Vec::new();
    let n: usize = list.len();
    let mut i: usize = 0;
    assert(text::texts(r@) =~= Seq::<Seq<char>>::empty());
    while i < n
        invariant
            all == text::texts(list@),
            n == list@.len(),
            i <= n,
            forall|s: Seq<char>| #[trigger]
                text::texts(r@).contains(s) <==> s != asset@ && all.take(i as int).contains(s),
        decreases n - i,
    {
        assert(all[i as int] == list@[i as int]@);
        let ghost before = text::texts(r@);
        let ghost x = all[i as int];
        let keep = !text::same(&list[i], asset);
        if keep {
            r.push(text::copy_of(&list[i]));
            assert(text::texts(r@) =~= before.push(x));
        }
        proof {
            assert forall|s: Seq<char>| #[trigger] text::texts(r@).contains(s) <==> s != asset@
                && all.take(i + 1).contains(s) by {
                assert(before.contains(s) <==> s != asset@ && all.take(i as int).contains(s));
                let a = all.take(i as int);
                let b = all.take(i + 1);
                assert(b =~= a.push(x));
                if b.contains(s) {
                    let j = b.index_of(s);
                    if j < i {
                        assert(a[j] == s);
                    }
                }
                if a.contains(s) {
                    let j = a.index_of(s);
                    assert(b[j] == s);
                }
                assert(b[i as int] == x);
                if keep {
                    let c = text::texts(r@);
                    if c.contains(s) {
                        let j = c.index_of(s);
                        if j < before.len() {
                            assert(before[j] == s);
                        }
                    }
                    if before.contains(s) {
                        let j = before.index_of(s);
                        assert(c[j] == s);
                    }
                    assert(c[before.len() as int] == x);
                }
            }
        }
        i = i + 1;
    }
    assert(all.take(n as int) =~= all);
    assert(members_of(r) =~= members_of(*list).remove(asset@));
    r
}

fn unlist_asset(m: &mut TextMap<Vec<String>>, asset: &str)
    ensures
        map_view(*final(m)) == unlisting(map_view(*old(m)), asset@),
{
    let ghost before = m.pairs();
    let n: usize = m.len();
    let mut i: usize = 0;
    while i < n
        invariant
            n == before.len(),
            m.pairs().len() == n,
            i <= n,
            forall|j: int| 0 <= j < n ==> (#[trigger] m.pairs()[j]).0 == before[j].0,
            forall|j: int|
                0 <= j < i ==> members_of((#[trigger] m.pairs()[j]).1) == members_of(
                    before[j].1,
                ).remove(asset@),
            forall|j: int| i <= j < n ==> (#[trigger] m.pairs()[j]).1 == before[j].1,
        decreases n - i,
    {
        let rest = others(m.value_at(i), asset);
        m.set_at(i, rest);
        i = i + 1;
    }
    proof {
        let a = map_view(*old(m));
        let b = map_view(*m);
        let want = unlisting(a, asset@);
        assert forall|k: Seq<char>| true implies #[trigger] b.contains_key(k) == want.contains_key(k)
            && (b.contains_key(k) ==> b[k] == want[k]) by {
            lemma_position_same_keys(before, m.pairs(), k);
            lemma_key_position(before, k, 0);
        }
        assert(b =~= want);
    }
}

fn empty_map() -> (r: TextMap<Vec<String>>)
    ensures
        map_view(r) == Map::<Seq<char>, Set<Seq<char>>>::empty(),
{
    let r: TextMap<Vec<String>> = TextMap::new();
    assert(map_view(r) =~= Map::<Seq<char>, Set<Seq<char>>>::empty());
    r
}

impl Default for AssetGraph {
    fn default() -> (r: Self)
        ensures
            r@ == empty_graph(),
    {
        AssetGraph { references: empty_map(), derived: empty_map(), functions: empty_map() }
    }
}

/// Lists an asset under its parent class, its imports and its functions.
pub fn insert_asset_record(graph: &mut AssetGraph, record: &AssetRecord)
    ensures
        final(graph)@ == with_record(old(graph)@, record@),
{
    let asset = text::to_lower(&record.asset_path);
    match &record.parent_class {
        Some(p) => {
            list_asset(&mut graph.derived, &text::to_lower(p), &asset);
        },
        None => {},
    }
    list_asset_all(&mut graph.references, &record.imports, &asset);
    list_asset_all(&mut graph.functions, &record.functions, &asset);
}

/// Builds the graph of all assets.
pub fn build_asset_graph(records: &Vec<AssetRecord>) -> (r: AssetGraph)
    ensures
        r@ == with_records(empty_graph(), record_views(records@), 0),
{
    let ghost list = record_views(records@);
    let mut graph = AssetGraph::default();
    let ghost whole = with_records(graph@, list, 0);
    let n: usize = records.len();
    let mut i: usize = 0;
    while i < n
        invariant
            list == record_views(records@),
            n == records@.len(),
            i <= n,
            whole == with_records(graph@, list, i as int),
        decreases n - i,
    {
        assert(list[i as int] == records@[i as int]@);
        insert_asset_record(&mut graph, &records[i]);
        i = i + 1;
    }
    graph
}

/// Takes an asset out of the graph.
pub fn remove_asset_from_graph(graph: &mut AssetGraph, asset_path: &str)
    ensures
        final(graph)@ == without_asset(old(graph)@, asset_path@),
{
    let asset = text::to_lower(asset_path);
    unlist_asset(&mut graph.derived, &asset);
    unlist_asset(&mut graph.references, &asset);
    unlist_asset(&mut graph.functions, &asset);
}

/// The name and the asset in each row, added to the graph one after the other.
pub open spec fn with_rows(m: AssetMapView, rows: Seq<(Seq<char>, Seq<char>)>, k: int) -> AssetMapView
    decreases rows.len() - k,
{
    if k < 0 || k >= rows.len() {
        m
    } else {
        with_rows(listing(m, rows[k].0, rows[k].1), rows, k + 1)
    }
}

pub open spec fn row_views(v: Seq<(String, String)>) -> Seq<(Seq<char>, Seq<char>)> {
    v.map_values(|r: (String, String)| (r.0@, r.1@))
}

fn map_from_rows(rows: &Vec<(String, String)>) -> (r: TextMap<Vec<String>>)
    ensures
        map_view(r) == with_rows(Map::empty(), row_views(rows@), 0),
{
    let ghost list = row_views(rows@);
    let mut m = empty_map();
    let ghost whole = with_rows(map_view(m), list, 0);
    let n: usize = rows.len();
    let mut i: usize = 0;
    while i < n
        invariant
            list == row_views(rows@),
            n == rows@.len(),
            i <= n,
            whole == with_rows(map_view(m), list, i as int),
        decreases n - i,
    {
        assert(list[i as int] == (rows@[i as int].0@, rows@[i as int].1@));
        list_asset(&mut m, &rows[i].0, &rows[i].1);
        i = i + 1;
    }
    m
}

/// The graph that the rows of a store make.
pub fn load_asset_graph_from_db(
    references: &Vec<(String, String)>,
    functions: &Vec<(String, String)>,
    derived: &Vec<(String, String)>,
) -> (r: AssetGraph)
    ensures
        r@ == (GraphView {
            references: with_rows(Map::empty(), row_views(references@), 0),
            derived: with_rows(Map::empty(), row_views(derived@), 0),
            functions: with_rows(Map::empty(), row_views(functions@), 0),
        }),
{
    AssetGraph {
        references: map_from_rows(references),
        derived: map_from_rows(derived),
        functions: map_from_rows(functions),
    }
}

/// The lists hold the assets of the map, in ascending order.
pub open spec fn kept_as(m: AssetMapView, lists: Map<Seq<char>, Seq<Seq<char>>>) -> bool {
    &&& forall|k: Seq<char>| #[trigger] lists.contains_key(k) <==> m.contains_key(k)
    &&& forall|k: Seq<char>|
        lists.contains_key(k) ==> ascending(#[trigger] lists[k]) && lists[k].to_set() == m[k]
}

/// The map lists the assets of the lists.
pub open spec fn read_back(lists: Map<Seq<char>, Seq<Seq<char>>>) -> AssetMapView {
    lists.map_values(|l: Seq<Seq<char>>| l.to_set())
}

fn runtime_map_from_graph(m: &TextMap<Vec<String>>) -> (r: TextMap<Vec<String>>)
    ensures
        kept_as(map_view(*m), lists_of(r)),
{
    let mut r: TextMap<Vec<String>> = TextMap::new();
    m.note_keys_differ();
    let n: usize = m.len();
    let mut i: usize = 0;
    while i < n
        invariant
            n == m.pairs().len(),
            i <= n,
            forall|i: int, j: int|
                0 <= i < j < m.pairs().len() ==> (#[trigger] m.pairs()[i]).0 != (
                #[trigger] m.pairs()[j]).0,
            r.pairs().len() == i,
            forall|j: int| 0 <= j < i ==> (#[trigger] r.pairs()[j]).0 == m.pairs()[j].0,
            forall|j: int|
                0 <= j < i ==> ascending(text::texts((#[trigger] r.pairs()[j]).1@)) && members_of(
                    r.pairs()[j].1,
                ) == members_of(m.pairs()[j].1),
        decreases n - i,
    {
        let sorted = sorted_strings(m.value_at(i));
        proof {
            let a = text::texts(sorted@);
            let b = text::texts(m.pairs()[i as int].1@);
            assert(a.to_set() =~= b.to_set()) by {
                assert forall|s: Seq<char>| a.to_set().contains(s) <==> b.to_set().contains(s) by {
                    assert(a.contains(s) <==> b.contains(s));
                }
            }
            lemma_key_position(r.pairs(), m.pairs()[i as int].0, 0);
        }
        let ghost before = r.pairs();
        r.insert(m.key_at(i), sorted);
        assert(r.pairs() =~= before.push((m.pairs()[i as int].0, sorted)));
        i = i + 1;
    }
    proof {
        assert forall|k: Seq<char>| true implies #[trigger] lists_of(r).contains_key(k)
            == map_view(*m).contains_key(k) && (lists_of(r).contains_key(k) ==> ascending(
            lists_of(r)[k],
        ) && lists_of(r)[k].to_set() == map_view(*m)[k]) by {
            lemma_position_same_keys(m.pairs(), r.pairs(), k);
            lemma_key_position(r.pairs(), k, 0);
        }
    }
    r
}

fn graph_map_from_runtime(m: &TextMap<Vec<String>>) -> (r: TextMap<Vec<String>>)
    ensures
        map_view(r) == read_back(lists_of(*m)),
{
    let mut r: TextMap<Vec<String>> = TextMap::new();
    m.note_keys_differ();
    let n: usize = m.len();
    let mut i: usize = 0;
    while i < n
        invariant
            n == m.pairs().len(),
            i <= n,
            forall|i: int, j: int|
                0 <= i < j < m.pairs().len() ==> (#[trigger] m.pairs()[i]).0 != (
                #[trigger] m.pairs()[j]).0,
            r.pairs().len() == i,
            forall|j: int| 0 <= j < i ==> (#[trigger] r.pairs()[j]).0 == m.pairs()[j].0,
            forall|j: int|
                0 <= j < i ==> members_of((#[trigger] r.pairs()[j]).1) == members_of(
                    m.pairs()[j].1,
                ),
        decreases n - i,
    {
        let list = sorted_strings(m.value_at(i));
        proof {
            let a = text::texts(list@);
            let b = text::texts(m.pairs()[i as int].1@);
            assert(a.to_set() =~= b.to_set()) by {
                assert forall|s: Seq<char>| a.to_set().contains(s) <==> b.to_set().contains(s) by {
                    assert(a.contains(s) <==> b.contains(s));
                }
            }
            lemma_key_position(r.pairs(), m.pairs()[i as int].0, 0);
        }
        let ghost before = r.pairs();
        r.insert(m.key_at(i), list);
        assert(r.pairs() =~= before.push((m.pairs()[i as int].0, list)));
        i = i + 1;
    }
    proof {
        let b = map_view(r);
        let want = read_back(lists_of(*m));
        assert forall|k: Seq<char>| true implies #[trigger] b.contains_key(k) == want.contains_key(k)
            && (b.contains_key(k) ==> b[k] == want[k]) by {
            lemma_position_same_keys(m.pairs(), r.pairs(), k);
            lemma_key_position(r.pairs(), k, 0);
        }
        assert(b =~= want);
    }
    r
}

/// The form in which the graph is kept on disk.
pub fn asset_runtime_from_graph(graph: &AssetGraph) -> (r: AssetRuntimeIndex)
    ensures
        kept_as(graph@.references, lists_of(r.references)),
        kept_as(graph@.derived, lists_of(r.derived)),
        kept_as(graph@.functions, lists_of(r.functions)),
{
    AssetRuntimeIndex {
        references: runtime_map_from_graph(&graph.references),
        derived: runtime_map_from_graph(&graph.derived),
        functions: runtime_map_from_graph(&graph.functions),
    }
}

/// The graph that was kept.
pub fn graph_from_asset_runtime(index: &AssetRuntimeIndex) -> (r: AssetGraph)
    ensures
        r@ == (GraphView {
            references: read_back(lists_of(index.references)),
            derived: read_back(lists_of(index.derived)),
            functions: read_back(lists_of(index.functions)),
        }),
{
    AssetGraph {
        references: graph_map_from_runtime(&index.references),
        derived: graph_map_from_runtime(&index.derived),
        functions: graph_map_from_runtime(&index.functions),
    }
}

/// What was kept of a map is read back as the same map.
pub proof fn kept_map_is_read_back(m: AssetMapView, lists: Map<Seq<char>, Seq<Seq<char>>>)
    requires
        kept_as(m, lists),
    ensures
        read_back(lists) == m,
{
    assert forall|k: Seq<char>| true implies #[trigger] read_back(lists).contains_key(k)
        == m.contains_key(k) && (m.contains_key(k) ==> read_back(lists)[k] == m[k]) by {
        assert(lists.contains_key(k) <==> m.contains_key(k));
        if lists.contains_key(k) {
            assert(lists[k].to_set() == m[k]);
        }
    }
    assert(read_back(lists) =~= m);
}

/// An asset that was taken out of the graph is listed nowhere.
pub proof fn removed_asset_is_listed_nowhere(g: GraphView, asset_path: Seq<char>, key: Seq<char>)
    ensures
        ({
            let h = without_asset(g, asset_path);
            let asset = text::lower(asset_path);
            !under(h.references, key).contains(asset) && !under(h.derived, key).contains(asset)
                && !under(h.functions, key).contains(asset)
        }),
{
}

/// Taking an asset out leaves every other asset where it is.
pub proof fn removal_keeps_other_assets(g: GraphView, asset_path: Seq<char>, key: Seq<char>, other: Seq<char>)
    requires
        other != text::lower(asset_path),
    ensures
        ({
            let h = without_asset(g, asset_path);
            &&& under(h.references, key).contains(other) == under(g.references, key).contains(
                other,
            )
            &&& under(h.derived, key).contains(other) == under(g.derived, key).contains(other)
            &&& under(h.functions, key).contains(other) == under(g.functions, key).contains(other)
        }),
{
}

/// An asset is listed under each of the names that it was listed for.
pub proof fn inserted_asset_is_listed(m: AssetMapView, names: Seq<Seq<char>>, asset: Seq<char>, k: int, i: int)
    requires
        0 <= k <= i < names.len(),
    ensures
        under(listing_all(m, names, asset, k), text::lower(names[i])).contains(asset),
    decreases names.len() - k,
{
    let next = listing(m, text::lower(names[k]), asset);
    if k == i {
        lemma_listing_keeps(next, names, asset, k + 1, text::lower(names[i]), asset);
    } else {
        inserted_asset_is_listed(next, names, asset, k + 1, i);
    }
}

proof fn lemma_listing_keeps(
    m: AssetMapView,
    names: Seq<Seq<char>>,
    asset: Seq<char>,
    k: int,
    key: Seq<char>,
    x: Seq<char>,
)
    requires
        under(m, key).contains(x),
    ensures
        under(listing_all(m, names, asset, k), key).contains(x),
    decreases names.len() - k,
{
    if 0 <= k < names.len() {
        lemma_listing_keeps(
            listing(m, text::lower(names[k]), asset),
            names,
            asset,
            k + 1,
            key,
            x,
        );
    }
}

/// The asset is listed under one of the names.
pub open spec fn used(m: AssetMapView, names: Seq<Seq<char>>, asset: Seq<char>) -> bool {
    exists|i: int| 0 <= i < names.len() && under(m, #[trigger] names[i]).contains(asset)
}

/// The assets that are listed under one of the names, in ascending order.
pub open spec fn is_usage_list(m: AssetMapView, names: Seq<Seq<char>>, list: Seq<Seq<char>>) -> bool {
    ascending(list) && forall|s: Seq<char>| #[trigger] list.contains(s) <==> used(m, names, s)
}

pub open spec fn usage_list(m: AssetMapView, names: Seq<Seq<char>>) -> Seq<Seq<char>> {
    choose|list: Seq<Seq<char>>| is_usage_list(m, names, list)
}

proof fn lemma_usage_list(m: AssetMapView, names: Seq<Seq<char>>, list: Seq<Seq<char>>)
    requires
        is_usage_list(m, names, list),
    ensures
        usage_list(m, names) == list,
{
    let a = usage_list(m, names);
    assert(is_usage_list(m, names, a));
    assert forall|s: Seq<char>| #[trigger] a.contains(s) <==> list.contains(s) by {
        assert(a.contains(s) <==> used(m, names, s));
        assert(list.contains(s) <==> used(m, names, s));
    }
    ascending_list_is_unique(a, list);
}

fn collect_asset_paths_from_map(m: &TextMap<Vec<String>>, names: &Vec<String>) -> (r: Vec<String>)
    ensures
        text::texts(r@) == usage_list(map_view(*m), text::texts(names@)),
{
    let ghost view = map_view(*m);
    let ghost list = text::texts(names@);
    let mut all: Vec<String> = Vec::new();
    let n: usize = names.len();
    let mut i: usize = 0;
    assert(text::texts(all@) =~= Seq::<Seq<char>>::empty());
    assert(list.take(0) =~= Seq::<Seq<char>>::empty());
    while i < n
        invariant
            view == map_view(*m),
            list == text::texts(names@),
            n == names@.len(),
            i <= n,
            forall|s: Seq<char>| #[trigger]
                text::texts(all@).contains(s) <==> used(view, list.take(i as int), s),
        decreases n - i,
    {
        assert(list[i as int] == names@[i as int]@);
        let ghost before = text::texts(all@);
        let ghost found = under(view, list[i as int]);
        match m.get(&names[i]) {
            Some(v) => {
                let ghost more = text::texts(v@);
                assert(found == more.to_set());
                let c: usize = v.len();
                let mut k: usize = 0;
                assert(before + more.take(0) =~= before);
                while k < c
                    invariant
                        c == v@.len(),
                        more == text::texts(v@),
                        k <= c,
                        text::texts(all@) == before + more.take(k as int),
                    decreases c - k,
                {
                    let ghost so_far = text::texts(all@);
                    all.push(text::copy_of(&v[k]));
                    assert(text::texts(all@) =~= so_far.push(more[k as int]));
                    assert(more.take(k + 1) =~= more.take(k as int).push(more[k as int]));
                    assert(text::texts(all@) =~= before + more.take(k + 1));
                    k = k + 1;
                }
                assert(more.take(c as int) =~= more);
                proof {
                    lemma_joined(before, more);
                }
            },
            None => {
                assert(found =~= Set::<Seq<char>>::empty());
            },
        }
        proof {
            assert forall|s: Seq<char>| #[trigger] text::texts(all@).contains(s) <==> used(
                view,
                list.take(i + 1),
                s,
            ) by {
                assert(before.contains(s) <==> used(view, list.take(i as int), s));
                lemma_used_next(view, list, i as int, s);
            }
        }
        i = i + 1;
    }
    let r = sorted_strings(&all);
    proof {
        assert(list.take(n as int) =~= list);
        let a = text::texts(r@);
        assert forall|s: Seq<char>| #[trigger] a.contains(s) <==> used(view, list, s) by {
            assert(a.contains(s) <==> text::texts(all@).contains(s));
        }
        lemma_usage_list(view, list, a);
    }
    r
}

proof fn lemma_joined(a: Seq<Seq<char>>, b: Seq<Seq<char>>)
    ensures
        forall|s: Seq<char>| #[trigger] (a + b).contains(s) <==> a.contains(s) || b.contains(s),
{
    assert forall|s: Seq<char>| #[trigger] (a + b).contains(s) <==> a.contains(s) || b.contains(
        s,
    ) by {
        if (a + b).contains(s) {
            let i = (a + b).index_of(s);
            if i < a.len() {
                assert(a[i] == s);
            } else {
                assert(b[i - a.len()] == s);
            }
        }
        if a.contains(s) {
            assert((a + b)[a.index_of(s)] == s);
        }
        if b.contains(s) {
            assert((a + b)[a.len() + b.index_of(s)] == s);
        }
    }
}

proof fn lemma_used_next(m: AssetMapView, list: Seq<Seq<char>>, i: int, s: Seq<char>)
    requires
        0 <= i < list.len(),
    ensures
        used(m, list.take(i + 1), s) <==> used(m, list.take(i), s) || under(m, list[i]).contains(
            s,
        ),
{
    let a = list.take(i);
    let b = list.take(i + 1);
    if used(m, b, s) {
        let j = choose|j: int| 0 <= j < b.len() && under(m, #[trigger] b[j]).contains(s);
        if j < i {
            assert(a[j] == b[j]);
        }
    }
    if used(m, a, s) {
        let j = choose|j: int| 0 <= j < a.len() && under(m, #[trigger] a[j]).contains(s);
        assert(b[j] == a[j]);
    }
    assert(b[i] == list[i]);
}

/// The assets that use something.
pub struct AssetUsages {
    pub references: Vec<String>,
    pub function_references: Vec<String>,
    pub derived: Vec<String>,
}

pub struct UsagesView {
    pub references: Seq<Seq<char>>,
    pub function_references: Seq<Seq<char>>,
    pub derived: Seq<Seq<char>>,
}

impl View for AssetUsages {
    type V = UsagesView;

    open spec fn view(&self) -> UsagesView {
        UsagesView {
            references: text::texts(self.references@),
            function_references: text::texts(self.function_references@),
            derived: text::texts(self.derived@),
        }
    }
}

pub open spec fn usages(g: GraphView, name: Seq<char>) -> UsagesView {
    let names = lookup_names(name);
    UsagesView {
        references: usage_list(g.references, names),
        function_references: usage_list(g.functions, names),
        derived: usage_list(g.derived, names),
    }
}

/// The assets that refer to a class or an asset, call a function of it, or derive from it.
pub fn asset_usages_from_graph(graph: &AssetGraph, asset_path: &str) -> (r: AssetUsages)
    ensures
        r@ == usages(graph@, asset_path@),
{
    let names = make_asset_lookup_names(asset_path);
    AssetUsages {
        references: collect_asset_paths_from_map(&graph.references, &names),
        function_references: collect_asset_paths_from_map(&graph.functions, &names),
        derived: collect_asset_paths_from_map(&graph.derived, &names),
    }
}

/// How many assets use a name.
pub struct UsageHint {
    pub name: String,
    pub derived_count: usize,
    pub reference_count: usize,
}

pub struct HintView {
    pub name: Seq<char>,
    pub derived_count: nat,
    pub reference_count: nat,
}

pub open spec fn hint_view(h: UsageHint) -> HintView {
    HintView {
        name: h.name@,
        derived_count: h.derived_count as nat,
        reference_count: h.reference_count as nat,
    }
}

pub open spec fn hint_views(v: Seq<UsageHint>) -> Seq<HintView> {
    v.map_values(|h: UsageHint| hint_view(h))
}

pub open spec fn hint(g: GraphView, name: Seq<char>) -> HintView {
    let u = usages(g, name);
    HintView {
        name,
        derived_count: u.derived.len(),
        reference_count: sum_or_max(
            u.references.len() as usize,
            u.function_references.len() as usize,
        ) as nat,
    }
}

/// A name like this, but for ASCII case, stands among the first `upto`.
pub open spec fn named_before(names: Seq<Seq<char>>, name: Seq<char>, upto: int) -> bool {
    exists|i: int|
        0 <= i < upto && text::same_caseless(text::trimmed(#[trigger] names[i]), name)
}

/// The hints for the names from position `k` on: each name once, and none for blank ones.
pub open spec fn hints_from(g: GraphView, names: Seq<Seq<char>>, k: int) -> Seq<HintView>
    decreases names.len() - k,
{
    if k < 0 || k >= names.len() {
        Seq::empty()
    } else {
        let name = text::trimmed(names[k]);
        if name.len() == 0 || named_before(names, name, k) {
            hints_from(g, names, k + 1)
        } else {
            seq![hint(g, name)] + hints_from(g, names, k + 1)
        }
    }
}

/// Whether a name like this stands among the first `upto`.
pub fn is_named_before(names: &Vec<String>, name: &str, upto: usize) -> (r: bool)
    requires
        upto <= names@.len(),
    ensures
        r == named_before(text::texts(names@), name@, upto as int),
{
    let ghost list = text::texts(names@);
    let mut i: usize = 0;
    while i < upto
        invariant
            list == text::texts(names@),
            i <= upto <= names@.len(),
            forall|j: int|
                0 <= j < i ==> !text::same_caseless(text::trimmed(#[trigger] list[j]), name@),
        decreases upto - i,
    {
        assert(list[i as int] == names@[i as int]@);
        if text::eq_caseless(text::trim(&names[i]), name) {
            return true;
        }
        i = i + 1;
    }
    false
}

/// How many assets use each of the names.
pub fn asset_usage_hints_from_graph(graph: &AssetGraph, names: &Vec<String>) -> (r: Vec<UsageHint>)
    ensures
        hint_views(r@) == hints_from(graph@, text::texts(names@), 0),
{
    let ghost list = text::texts(names@);
    let ghost g = graph@;
    let mut r: Vec<UsageHint> = Vec::new();
    let n: usize = names.len();
    let mut i: usize = 0;
    assert(hint_views(r@) =~= Seq::<HintView>::empty());
    while i < n
        invariant
            list == text::texts(names@),
            g == graph@,
            n == names@.len(),
            i <= n,
            hints_from(g, list, 0) =~= hint_views(r@) + hints_from(g, list, i as int),
        decreases n - i,
    {
        assert(list[i as int] == names@[i as int]@);
        let name = text::trim(&names[i]);
        if !name.is_empty() && !is_named_before(names, name, i) {
            let u = asset_usages_from_graph(graph, name);
            let h = UsageHint {
                name: text::copy_of(name),
                derived_count: u.derived.len(),
                reference_count: saturated_sum(u.references.len(), u.function_references.len()),
            };
            assert(u@.derived.len() == u.derived@.len());
            assert(u@.references.len() == u.references@.len());
            assert(u@.function_references.len() == u.function_references@.len());
            let ghost before = hint_views(r@);
            r.push(h);
            assert(hint_views(r@) =~= before.push(hint(g, name@)));
        }
        i = i + 1;
    }
    assert(hint_views(r@) =~= hints_from(g, list, 0));
    r
}

/// An item is that of this asset.
pub open spec fn has_path(item: ItemView, asset: Seq<char>) -> bool {
    match as_text(field_of(item, "path"@)) {
        Some(p) => text::same_caseless(p, asset),
        None => false,
    }
}

pub open spec fn asset_item(asset: Seq<char>) -> ItemView {
    seq![
        ("name"@, FieldView::Text(text::last_part(asset, '/'))),
        ("path"@, FieldView::Text(asset)),
        ("symbol_type"@, FieldView::Text("uasset"@)),
    ]
}

/// The results with the assets from position `k` on that are not among them yet.
pub open spec fn with_assets(results: Seq<ItemView>, assets: Seq<Seq<char>>, k: int) -> Seq<ItemView>
    decreases assets.len() - k,
{
    if k < 0 || k >= assets.len() {
        results
    } else if exists|i: int| 0 <= i < results.len() && has_path(#[trigger] results[i], assets[k]) {
        with_assets(results, assets, k + 1)
    } else {
        with_assets(results.push(asset_item(assets[k])), assets, k + 1)
    }
}

fn has_asset(results: &Vec<Item>, asset: &str) -> (r: bool)
    ensures
        r == exists|i: int|
            0 <= i < items(results@).len() && has_path(#[trigger] items(results@)[i], asset@),
{
    let ghost list = items(results@);
    let n: usize = results.len();
    let mut i: usize = 0;
    while i < n
        invariant
            list == items(results@),
            n == results@.len(),
            i <= n,
            forall|j: int| 0 <= j < i ==> !has_path(#[trigger] list[j], asset@),
        decreases n - i,
    {
        assert(list[i as int] == results@[i as int]@);
        let same = match results[i].text_opt("path") {
            Some(p) => text::eq_caseless(p, asset),
            None => false,
        };
        if same {
            assert(has_path(list[i as int], asset@));
            return true;
        }
        i = i + 1;
    }
    false
}

fn make_asset_item(asset: &str) -> (r: Item)
    ensures
        r@ == asset_item(asset@),
{
    let r = Item::new().and("name", Field::text(text::last_part_of(asset, '/'))).and(
        "path",
        Field::text(asset),
    ).and("symbol_type", Field::text("uasset"));
    assert(r@ =~= asset_item(asset@));
    r
}

/// Adds the assets that derive from a class to the classes that do.
pub fn merge_derived_assets(results: &mut Vec<Item>, assets: &Vec<String>)
    ensures
        items(final(results)@) == with_assets(items(old(results)@), text::texts(assets@), 0),
{
    let ghost list = text::texts(assets@);
    let ghost whole = with_assets(items(results@), list, 0);
    let n: usize = assets.len();
    let mut i: usize = 0;
    while i < n
        invariant
            list == text::texts(assets@),
            n == assets@.len(),
            i <= n,
            whole == with_assets(items(results@), list, i as int),
        decreases n - i,
    {
        assert(list[i as int] == assets@[i as int]@);
        if !has_asset(results, &assets[i]) {
            let ghost before = items(results@);
            results.push(make_asset_item(&assets[i]));
            assert(items(results@) =~= before.push(asset_item(list[i as int])));
        }
        i = i + 1;
    }
}

/// Adds the assets that derive from a class, as the graph knows them.
pub fn merge_derived_classes(graph: &AssetGraph, base_class: &str, results: &mut Vec<Item>)
    ensures
        items(final(results)@) == with_assets(
            items(old(results)@),
            usages(graph@, base_class@).derived,
            0,
        ),
{
    let u = asset_usages_from_graph(graph, base_class);
    merge_derived_assets(results, &u.derived);
}

/// What a changed file makes of the graph: its asset is listed anew, or no more.
pub fn update_single_asset(graph: &mut AssetGraph, record: Option<AssetRecord>, asset_path: &str)
    ensures
        final(graph)@ == match record {
            Some(r) => with_record(without_asset(old(graph)@, r@.asset_path), r@),
            None => without_asset(old(graph)@, asset_path@),
        },
{
    match record {
        Some(r) => {
            remove_asset_from_graph(graph, &r.asset_path);
            insert_asset_record(graph, &r);
        },
        None => {
            remove_asset_from_graph(graph, asset_path);
        },
    }
}

} // verus!
