//! The asset index of a store: what is written to it, and what must be read again.
use vstd::prelude::*;

use super::record::{lookup_names, make_asset_lookup_names, AssetRecord, RecordView};
use super::graph::{is_named_before, named_before, AssetUsages, UsageHint, UsagesView};
use crate::query::pattern::{saturated_sum, sum_or_max};
use crate::text;
use crate::textmap::TextMap;
use crate::textset::{sorted_set, sorted_strings};

verus! {

pub const ASSET_INDEX_VERSION: i32 = 4;

// ---------------------------------------------------------------------------
// What a refresh must do
// ---------------------------------------------------------------------------
pub open spec fn stamps(v: Seq<(String, i64)>) -> Seq<(Seq<char>, i64)> {
    v.map_values(|e: (String, i64)| (e.0@, e.1))
}

/// The time that the last of the first `upto` rows gives for a path.
pub open spec fn last_time(rows: Seq<(Seq<char>, i64)>, path: Seq<char>, upto: int) -> Option<i64>
    decreases upto,
{
    if upto <= 0 {
        None
    } else if rows[upto - 1].0 == path {
        Some(rows[upto - 1].1)
    } else {
        last_time(rows, path, upto - 1)
    }
}

pub open spec fn has_row(rows: Seq<(Seq<char>, i64)>, path: Seq<char>, upto: int) -> bool {
    exists|i: int| 0 <= i < upto && (#[trigger] rows[i]).0 == path
}

/// The files from position `k` on that are not indexed, or were at another time.
pub open spec fn changed_from(
    existing: Seq<(Seq<char>, i64)>,
    files: Seq<(Seq<char>, i64)>,
    k: int,
) -> Seq<usize>
    decreases files.len() - k,
{
    if k < 0 || k >= files.len() {
        Seq::empty()
    } else if last_time(existing, files[k].0, existing.len() as int) == Some(files[k].1) {
        changed_from(existing, files, k + 1)
    } else {
        seq![k as usize] + changed_from(existing, files, k + 1)
    }
}

/// The indexed paths from row `k` on that are no longer on disk, each once.
pub open spec fn deleted_from(
    existing: Seq<(Seq<char>, i64)>,
    files: Seq<(Seq<char>, i64)>,
    k: int,
) -> Seq<Seq<char>>
    decreases existing.len() - k,
{
    if k < 0 || k >= existing.len() {
        Seq::empty()
    } else if has_row(existing, existing[k].0, k) || has_row(
        files,
        existing[k].0,
        files.len() as int,
    ) {
        deleted_from(existing, files, k + 1)
    } else {
        seq![existing[k].0] + deleted_from(existing, files, k + 1)
    }
}

/// What must be done to bring the index up to date.
pub enum RefreshPlan {
    /// Every file is read.
    Full,
    /// The files at these positions are read again, and these paths are taken out.
    Delta { changed: Vec<usize>, deleted: Vec<String> },
}

spec fn keeps_last(m: TextMap<i64>, rows: Seq<(Seq<char>, i64)>, upto: int) -> bool {
    forall|k: Seq<char>| #[trigger] m.spec_get(k) == last_time(rows, k, upto)
}

proof fn lemma_last_time(rows: Seq<(Seq<char>, i64)>, path: Seq<char>, upto: int)
    requires
        0 <= upto <= rows.len(),
    ensures
        last_time(rows, path, upto) is Some <==> has_row(rows, path, upto),
    decreases upto,
{
    if upto > 0 {
        lemma_last_time(rows, path, upto - 1);
        if has_row(rows, path, upto) {
            let i = choose|i: int| 0 <= i < upto && (#[trigger] rows[i]).0 == path;
            if i < upto - 1 {
                assert(has_row(rows, path, upto - 1));
            }
        }
        if has_row(rows, path, upto - 1) {
            let i = choose|i: int| 0 <= i < upto - 1 && (#[trigger] rows[i]).0 == path;
            assert(rows[i].0 == path);
        }
        if rows[upto - 1].0 == path {
            assert(has_row(rows, path, upto));
        }
    }
}

fn times_of(rows: &Vec<(String, i64)>) -> (r: TextMap<i64>)
    ensures
        keeps_last(r, stamps(rows@), rows@.len() as int),
{
    let ghost list = stamps(rows@);
    let mut m: TextMap<i64> = TextMap::new();
    let n: usize = rows.len();
    let mut i: usize = 0;
    while i < n
        invariant
            list == stamps(rows@),
            n == rows@.len(),
            i <= n,
            keeps_last(m, list, i as int),
        decreases n - i,
    {
        assert(list[i as int] == (rows@[i as int].0@, rows@[i as int].1));
        let ghost before = m;
        m.insert(&rows[i].0, rows[i].1);
        proof {
            crate::textmap::lemma_get_with(before, m, list[i as int].0, list[i as int].1);
            assert forall|k: Seq<char>| #[trigger] m.spec_get(k) == last_time(list, k, i + 1) by {
                assert(before.spec_get(k) == last_time(list, k, i as int));
            }
        }
        i = i + 1;
    }
    m
}

fn changed_files(times: &TextMap<i64>, existing: &Vec<(String, i64)>, files: &Vec<(String, i64)>) -> (r: Vec<
    usize,
>)
    requires
        keeps_last(*times, stamps(existing@), existing@.len() as int),
    ensures
        r@ == changed_from(stamps(existing@), stamps(files@), 0),
{
    let ghost old_rows = stamps(existing@);
    let ghost list = stamps(files@);
    let mut r: Vec<usize> = Vec::new();
    let n: usize = files.len();
    let mut i: usize = 0;
    while i < n
        invariant
            old_rows == stamps(existing@),
            old_rows.len() == existing@.len(),
            list == stamps(files@),
            keeps_last(*times, old_rows, existing@.len() as int),
            n == files@.len(),
            i <= n,
            changed_from(old_rows, list, 0) =~= r@ + changed_from(old_rows, list, i as int),
        decreases n - i,
    {
        assert(list[i as int] == (files@[i as int].0@, files@[i as int].1));
        assert(times.spec_get(list[i as int].0) == last_time(
            old_rows,
            list[i as int].0,
            existing@.len() as int,
        ));
        let same = match times.get(&files[i].0) {
            Some(t) => *t == files[i].1,
            None => false,
        };
        if !same {
            r.push(i);
        }
        i = i + 1;
    }
    r
}

fn deleted_paths(existing: &Vec<(String, i64)>, files: &Vec<(String, i64)>) -> (r: Vec<String>)
    ensures
        text::texts(r@) == deleted_from(stamps(existing@), stamps(files@), 0),
{
    let ghost old_rows = stamps(existing@);
    let ghost list = stamps(files@);
    let on_disk = times_of(files);
    let mut seen: TextMap<i64> = TextMap::new();
    let mut r: Vec<String> = Vec::new();
    let n: usize = existing.len();
    let mut i: usize = 0;
    assert(text::texts(r@) =~= Seq::<Seq<char>>::empty());
    while i < n
        invariant
            old_rows == stamps(existing@),
            list == stamps(files@),
            list.len() == files@.len(),
            keeps_last(on_disk, list, files@.len() as int),
            keeps_last(seen, old_rows, i as int),
            n == existing@.len(),
            n == old_rows.len(),
            i <= n,
            deleted_from(old_rows, list, 0) =~= text::texts(r@) + deleted_from(
                old_rows,
                list,
                i as int,
            ),
        decreases n - i,
    {
        assert(old_rows[i as int] == (existing@[i as int].0@, existing@[i as int].1));
        let ghost path = old_rows[i as int].0;
        proof {
            lemma_last_time(old_rows, path, i as int);
            lemma_last_time(list, path, list.len() as int);
            assert(seen.spec_get(path) == last_time(old_rows, path, i as int));
            assert(on_disk.spec_get(path) == last_time(list, path, files@.len() as int));
        }
        if !seen.contains(&existing[i].0) && !on_disk.contains(&existing[i].0) {
            let ghost before = text::texts(r@);
            r.push(text::copy_of(&existing[i].0));
            assert(text::texts(r@) =~= before.push(path));
        }
        let ghost before = seen;
        seen.insert(&existing[i].0, existing[i].1);
        proof {
            crate::textmap::lemma_get_with(before, seen, path, old_rows[i as int].1);
            assert forall|k: Seq<char>| #[trigger] seen.spec_get(k) == last_time(
                old_rows,
                k,
                i + 1,
            ) by {
                assert(before.spec_get(k) == last_time(old_rows, k, i as int));
            }
        }
        i = i + 1;
    }
    assert(text::texts(r@) =~= deleted_from(old_rows, list, 0));
    r
}

/// What a refresh must do: everything where there is no index yet; else read what is new or was
/// written since, and take out what is gone. Files and rows are paths with the time of the last
/// writing.
pub fn refresh_asset_index(initialized: bool, existing: &Vec<(String, i64)>, files: &Vec<(String, i64)>) -> (r:
    RefreshPlan)
    ensures
        match r {
            RefreshPlan::Full => !initialized,
            RefreshPlan::Delta { changed, deleted } => initialized && changed@ == changed_from(
                stamps(existing@),
                stamps(files@),
                0,
            ) && text::texts(deleted@) == deleted_from(stamps(existing@), stamps(files@), 0),
        },
{
    if !initialized {
        return RefreshPlan::Full;
    }
    let times = times_of(existing);
    RefreshPlan::Delta {
        changed: changed_files(&times, existing, files),
        deleted: deleted_paths(existing, files),
    }
}

/// A file whose time the index knows is not read again.
pub proof fn unchanged_file_is_not_read(
    existing: Seq<(Seq<char>, i64)>,
    files: Seq<(Seq<char>, i64)>,
    k: int,
    i: usize,
)
    requires
        0 <= k <= files.len() <= usize::MAX,
        i < files.len(),
        last_time(existing, files[i as int].0, existing.len() as int) == Some(files[i as int].1),
    ensures
        !changed_from(existing, files, k).contains(i),
    decreases files.len() - k,
{
    if k < files.len() {
        unchanged_file_is_not_read(existing, files, k + 1, i);
        let rest = changed_from(existing, files, k + 1);
        if changed_from(existing, files, k).contains(i) {
            let j = changed_from(existing, files, k).index_of(i);
            if changed_from(existing, files, k) == seq![k as usize] + rest {
                if j > 0 {
                    assert(rest[j - 1] == i);
                }
            }
        }
    }
}

/// A file that is on disk is not taken out of the index.
pub proof fn file_on_disk_is_not_deleted(
    existing: Seq<(Seq<char>, i64)>,
    files: Seq<(Seq<char>, i64)>,
    k: int,
    path: Seq<char>,
)
    requires
        has_row(files, path, files.len() as int),
    ensures
        !deleted_from(existing, files, k).contains(path),
    decreases existing.len() - k,
{
    if 0 <= k < existing.len() {
        file_on_disk_is_not_deleted(existing, files, k + 1, path);
        let rest = deleted_from(existing, files, k + 1);
        let all = deleted_from(existing, files, k);
        if all.contains(path) {
            let j = all.index_of(path);
            if all == seq![existing[k].0] + rest {
                if j > 0 {
                    assert(rest[j - 1] == path);
                }
            }
        }
    }
}

// ---------------------------------------------------------------------------
// Rows of the store
// ---------------------------------------------------------------------------
pub open spec fn lowered(list: Seq<Seq<char>>) -> Seq<Seq<char>> {
    list.map_values(|s: Seq<char>| text::lower(s))
}

/// The texts from position `k` on, each where it stands first.
pub open spec fn distinct_from(list: Seq<Seq<char>>, k: int) -> Seq<Seq<char>>
    decreases list.len() - k,
{
    if k < 0 || k >= list.len() {
        Seq::empty()
    } else if exists|i: int| 0 <= i < k && #[trigger] list[i] == list[k] {
        distinct_from(list, k + 1)
    } else {
        seq![list[k]] + distinct_from(list, k + 1)
    }
}

spec fn remembers(m: TextMap<bool>, list: Seq<Seq<char>>, upto: int) -> bool {
    forall|s: Seq<char>|
        (#[trigger] m.spec_get(s)) is Some <==> exists|i: int|
            0 <= i < upto && #[trigger] list[i] == s
}

fn distinct_lower(list: &Vec<String>) -> (r: Vec<String>)
    ensures
        text::texts(r@) == distinct_from(lowered(text::texts(list@)), 0),
{
    let ghost all = lowered(text::texts(list@));
    let mut seen: TextMap<bool> = TextMap::new();
    let mut r: Vec<String> = Vec::new();
    let n: usize = list.len();
    let mut i: usize = 0;
    assert(text::texts(r@) =~= Seq::<Seq<char>>::empty());
    while i < n
        invariant
            all == lowered(text::texts(list@)),
            n == list@.len(),
            i <= n,
            remembers(seen, all, i as int),
            distinct_from(all, 0) =~= text::texts(r@) + distinct_from(all, i as int),
        decreases n - i,
    {
        let key = text::to_lower(&list[i]);
        assert(all[i as int] == key@);
        let ghost before = seen;
        assert(seen.spec_get(key@) is Some <==> exists|j: int|
            0 <= j < i && #[trigger] all[j] == key@);
        if !seen.contains(&key) {
            let ghost so_far = text::texts(r@);
            r.push(text::copy_of(&key));
            assert(text::texts(r@) =~= so_far.push(key@));
        }
        seen.insert(&key, true);
        proof {
            crate::textmap::lemma_get_with(before, seen, key@, true);
            assert forall|s: Seq<char>|
                (#[trigger] seen.spec_get(s)) is Some <==> exists|j: int|
                    0 <= j < i + 1 && #[trigger] all[j] == s by {
                assert(before.spec_get(s) is Some <==> exists|j: int|
                    0 <= j < i && #[trigger] all[j] == s);
                if s == key@ {
                    assert(all[i as int] == s);
                }
                if exists|j: int| 0 <= j < i && #[trigger] all[j] == s {
                    let j = choose|j: int| 0 <= j < i && #[trigger] all[j] == s;
                    assert(all[j] == s);
                }
            }
        }
        i = i + 1;
    }
    assert(text::texts(r@) =~= distinct_from(all, 0));
    r
}

/// What a store keeps of an asset, besides what the record says itself.
pub struct AssetRows {
    pub asset_key: String,
    pub source_path_key: String,
    pub parent_class_key: Option<String>,
    pub asset_name: String,
    pub asset_name_lc: String,
    pub reference_keys: Vec<String>,
    pub function_keys: Vec<String>,
}

/// How an asset uses what a key names.
#[derive(Clone, Copy, PartialEq, Eq, Structural, Debug)]
pub enum UsageKind {
    Reference,
    Function,
    Derived,
}

pub open spec fn kind_name(k: UsageKind) -> Seq<char> {
    match k {
        UsageKind::Reference => "reference"@,
        UsageKind::Function => "function"@,
        UsageKind::Derived => "derived"@,
    }
}

impl UsageKind {
    pub fn as_str(self) -> (r: &'static str)
        ensures
            r@ == kind_name(self),
    {
        match self {
            UsageKind::Reference => "reference",
            UsageKind::Function => "function",
            UsageKind::Derived => "derived",
        }
    }
}

pub struct AssetRowsView {
    pub asset_key: Seq<char>,
    pub source_path_key: Seq<char>,
    pub parent_class_key: Option<Seq<char>>,
    pub asset_name: Seq<char>,
    pub asset_name_lc: Seq<char>,
    pub reference_keys: Seq<Seq<char>>,
    pub function_keys: Seq<Seq<char>>,
}

impl View for AssetRows {
    type V = AssetRowsView;

    open spec fn view(&self) -> AssetRowsView {
        AssetRowsView {
            asset_key: self.asset_key@,
            source_path_key: self.source_path_key@,
            parent_class_key: text::opt_text(self.parent_class_key),
            asset_name: self.asset_name@,
            asset_name_lc: self.asset_name_lc@,
            reference_keys: text::texts(self.reference_keys@),
            function_keys: text::texts(self.function_keys@),
        }
    }
}

pub open spec fn rows_of(r: RecordView) -> AssetRowsView {
    AssetRowsView {
        asset_key: text::lower(r.asset_path),
        source_path_key: text::lower(r.source_path),
        parent_class_key: match r.parent_class {
            Some(p) => Some(text::lower(p)),
            None => None,
        },
        asset_name: text::last_part(r.asset_path, '/'),
        asset_name_lc: text::lower(text::last_part(r.asset_path, '/')),
        reference_keys: distinct_from(lowered(r.imports), 0),
        function_keys: distinct_from(lowered(r.functions), 0),
    }
}

/// The rows that are written for an asset.
pub fn insert_asset_record_db(record: &AssetRecord) -> (r: AssetRows)
    ensures
        r@ == rows_of(record@),
{
    let name = text::last_part_of(&record.asset_path, '/');
    AssetRows {
        asset_key: text::to_lower(&record.asset_path),
        source_path_key: text::to_lower(&record.source_path),
        parent_class_key: match &record.parent_class {
            Some(p) => Some(text::to_lower(p)),
            None => None,
        },
        asset_name: text::copy_of(name),
        asset_name_lc: text::to_lower(name),
        reference_keys: distinct_lower(&record.imports),
        function_keys: distinct_lower(&record.functions),
    }
}

pub open spec fn of_kind(keys: Seq<Seq<char>>, kind: UsageKind) -> Seq<(Seq<char>, UsageKind)> {
    keys.map_values(|k: Seq<char>| (k, kind))
}

/// The usages that are written for an asset: a row for each key, with its kind.
pub open spec fn usage_rows_of(r: AssetRowsView) -> Seq<(Seq<char>, UsageKind)> {
    of_kind(r.reference_keys, UsageKind::Reference) + of_kind(r.function_keys, UsageKind::Function)
        + match r.parent_class_key {
        Some(p) => seq![(p, UsageKind::Derived)],
        None => Seq::empty(),
    }
}

pub open spec fn usage_views(v: Seq<(String, UsageKind)>) -> Seq<(Seq<char>, UsageKind)> {
    v.map_values(|u: (String, UsageKind)| (u.0@, u.1))
}

fn push_usages(list: &mut Vec<(String, UsageKind)>, keys: &Vec<String>, kind: UsageKind)
    ensures
        usage_views(final(list)@) == usage_views(old(list)@) + of_kind(text::texts(keys@), kind),
{
    let ghost start = usage_views(list@);
    let ghost all = of_kind(text::texts(keys@), kind);
    let n: usize = keys.len();
    let mut i: usize = 0;
    while i < n
        invariant
            all == of_kind(text::texts(keys@), kind),
            n == keys@.len(),
            i <= n,
            usage_views(list@) =~= start + all.take(i as int),
        decreases n - i,
    {
        assert(all[i as int] == (keys@[i as int]@, kind));
        let ghost before = usage_views(list@);
        list.push((text::copy_of(&keys[i]), kind));
        assert(usage_views(list@) =~= before.push(all[i as int]));
        assert(all.take(i + 1) =~= all.take(i as int).push(all[i as int]));
        i = i + 1;
    }
    assert(all.take(n as int) =~= all);
}

/// The rows of usages that are written for an asset.
pub fn usage_rows(rows: &AssetRows) -> (r: Vec<(String, UsageKind)>)
    ensures
        usage_views(r@) == usage_rows_of(rows@),
{
    let mut r: Vec<(String, UsageKind)> = Vec::new();
    assert(usage_views(r@) =~= Seq::<(Seq<char>, UsageKind)>::empty());
    push_usages(&mut r, &rows.reference_keys, UsageKind::Reference);
    push_usages(&mut r, &rows.function_keys, UsageKind::Function);
    match &rows.parent_class_key {
        Some(p) => {
            let ghost before = usage_views(r@);
            r.push((text::copy_of(p), UsageKind::Derived));
            assert(usage_views(r@) =~= before.push((p@, UsageKind::Derived)));
        },
        None => {},
    }
    assert(usage_views(r@) =~= usage_rows_of(rows@));
    r
}

pub open spec fn source_paths(records: Seq<AssetRecord>) -> Seq<Seq<char>> {
    records.map_values(|r: AssetRecord| r.source_path@)
}

/// The keys of the rows that go before the records are written: of the paths that are gone, and
/// of those that are written again.
pub fn apply_asset_index_delta(records: &Vec<AssetRecord>, deleted: &Vec<String>) -> (r: Vec<String>)
    ensures
        text::texts(r@) == lowered(text::texts(deleted@)) + lowered(source_paths(records@)),
{
    let ghost first = lowered(text::texts(deleted@));
    let ghost second = lowered(source_paths(records@));
    let mut r: Vec<String> = Vec::new();
    let n: usize = deleted.len();
    let mut i: usize = 0;
    while i < n
        invariant
            first == lowered(text::texts(deleted@)),
            n == deleted@.len(),
            i <= n,
            r@.len() == i,
            forall|j: int| 0 <= j < i ==> (#[trigger] r@[j])@ == first[j],
        decreases n - i,
    {
        assert(first[i as int] == text::lower(deleted@[i as int]@));
        r.push(text::to_lower(&deleted[i]));
        i = i + 1;
    }
    let m: usize = records.len();
    let mut k: usize = 0;
    while k < m
        invariant
            second == lowered(source_paths(records@)),
            n == first.len(),
            m == records@.len(),
            k <= m,
            r@.len() == n + k,
            forall|j: int| 0 <= j < n ==> (#[trigger] r@[j])@ == first[j],
            forall|j: int| n <= j < n + k ==> (#[trigger] r@[j])@ == second[j - n],
        decreases m - k,
    {
        assert(second[k as int] == text::lower(records@[k as int].source_path@));
        r.push(text::to_lower(&records[k].source_path));
        k = k + 1;
    }
    assert(text::texts(r@) =~= first + second);
    r
}

/// One lookup in a store: by the name itself, or as what stands behind a dot or a colon.
pub struct UsageLookup {
    pub name: String,
    pub behind_dot: String,
    pub behind_colon: String,
}

pub open spec fn lookup_view(l: UsageLookup) -> (Seq<char>, Seq<char>, Seq<char>) {
    (l.name@, l.behind_dot@, l.behind_colon@)
}

pub open spec fn lookup_of(name: Seq<char>) -> (Seq<char>, Seq<char>, Seq<char>) {
    (name, "%."@ + name, "%:"@ + name)
}

/// The lookups by which a store finds the assets that use something.
pub fn usage_lookups(asset_path: &str) -> (r: Vec<UsageLookup>)
    ensures
        r@.map_values(|l: UsageLookup| lookup_view(l)) == lookup_names(asset_path@).map_values(
            |s: Seq<char>| lookup_of(s),
        ),
{
    let names = make_asset_lookup_names(asset_path);
    let ghost list = lookup_names(asset_path@);
    let n: usize = names.len();
    let mut r: Vec<UsageLookup> = Vec::new();
    let mut i: usize = 0;
    assert(n == list.len());
    while i < n
        invariant
            list == text::texts(names@),
            n == names@.len(),
            i <= n,
            r@.len() == i,
            forall|j: int| 0 <= j < i ==> lookup_view(#[trigger] r@[j]) == lookup_of(list[j]),
        decreases n - i,
    {
        assert(list[i as int] == names@[i as int]@);
        r.push(
            UsageLookup {
                name: text::copy_of(&names[i]),
                behind_dot: text::concat2("%.", &names[i]),
                behind_colon: text::concat2("%:", &names[i]),
            },
        );
        i = i + 1;
    }
    assert(r@.map_values(|l: UsageLookup| lookup_view(l)) =~= list.map_values(
        |s: Seq<char>| lookup_of(s),
    ));
    r
}

/// The usages, from the assets that a store found for each kind.
pub fn get_asset_usages(references: &Vec<String>, functions: &Vec<String>, derived: &Vec<String>) -> (r: AssetUsages)
    ensures
        r@ == (UsagesView {
            references: sorted_set(text::texts(references@)),
            function_references: sorted_set(text::texts(functions@)),
            derived: sorted_set(text::texts(derived@)),
        }),
{
    AssetUsages {
        references: sorted_strings(references),
        function_references: sorted_strings(functions),
        derived: sorted_strings(derived),
    }
}

/// The names from position `k` on for which usages are counted: trimmed, none blank, and each once
/// but for ASCII case.
pub open spec fn counted_names_from(names: Seq<Seq<char>>, k: int) -> Seq<Seq<char>>
    decreases names.len() - k,
{
    if k < 0 || k >= names.len() {
        Seq::empty()
    } else {
        let name = text::trimmed(names[k]);
        if name.len() == 0 || named_before(names, name, k) {
            counted_names_from(names, k + 1)
        } else {
            seq![name] + counted_names_from(names, k + 1)
        }
    }
}

/// The names for which a store counts usages.
pub fn counted_names(names: &Vec<String>) -> (r: Vec<String>)
    ensures
        text::texts(r@) == counted_names_from(text::texts(names@), 0),
{
    let ghost list = text::texts(names@);
    let mut r: Vec<String> = Vec::new();
    let n: usize = names.len();
    let mut i: usize = 0;
    assert(text::texts(r@) =~= Seq::<Seq<char>>::empty());
    while i < n
        invariant
            list == text::texts(names@),
            n == names@.len(),
            i <= n,
            counted_names_from(list, 0) =~= text::texts(r@) + counted_names_from(list, i as int),
        decreases n - i,
    {
        assert(list[i as int] == names@[i as int]@);
        let name = text::trim(&names[i]);
        if !name.is_empty() && !is_named_before(names, name, i) {
            let ghost before = text::texts(r@);
            r.push(text::copy_of(name));
            assert(text::texts(r@) =~= before.push(name@));
        }
        i = i + 1;
    }
    assert(text::texts(r@) =~= counted_names_from(list, 0));
    r
}

/// How many assets use a name, from those that a store found for each kind.
pub fn get_asset_usage_hints(
    name: &str,
    references: &Vec<String>,
    functions: &Vec<String>,
    derived: &Vec<String>,
) -> (r: UsageHint)
    ensures
        r.name@ == name@,
        r.derived_count == sorted_set(text::texts(derived@)).len(),
        r.reference_count == sum_or_max(
            sorted_set(text::texts(references@)).len() as usize,
            sorted_set(text::texts(functions@)).len() as usize,
        ),
{
    let u = get_asset_usages(references, functions, derived);
    assert(u@.derived.len() == u.derived@.len());
    assert(u@.references.len() == u.references@.len());
    assert(u@.function_references.len() == u.function_references@.len());
    UsageHint {
        name: text::copy_of(name),
        derived_count: u.derived.len(),
        reference_count: saturated_sum(u.references.len(), u.function_references.len()),
    }
}

// ---------------------------------------------------------------------------
// Whether the index can be used
// ---------------------------------------------------------------------------
/// The text is a number, and the one of the version that is expected.
pub open spec fn expected_version(s: Option<Seq<char>>) -> bool {
    match s {
        Some(t) => text::integer_value(t) == Some(ASSET_INDEX_VERSION as int),
        None => false,
    }
}

fn is_expected_version(s: Option<&str>) -> (r: bool)
    ensures
        r == expected_version(text::opt_str(s)),
{
    match s {
        Some(t) => match text::parse_i64(t) {
            Some(n) => n == ASSET_INDEX_VERSION as i64,
            None => false,
        },
        None => false,
    }
}

/// The index was made at least once, by whatever version.
pub fn asset_index_initialized(initialized: Option<&str>) -> (r: bool)
    ensures
        r == (text::opt_str(initialized) == Some("1"@)),
{
    match initialized {
        Some(s) => text::same(s, "1"),
        None => false,
    }
}

/// The index can be used as it is: it was made, and by the version that is expected.
pub open spec fn index_usable(initialized: Option<Seq<char>>, version: Option<Seq<char>>) -> bool {
    initialized == Some("1"@) && expected_version(version)
}

/// Whether the index can be used as it is, or is to be made anew.
pub fn asset_index_usable(initialized: Option<&str>, version: Option<&str>) -> (r: bool)
    ensures
        r == index_usable(text::opt_str(initialized), text::opt_str(version)),
{
    asset_index_initialized(initialized) && is_expected_version(version)
}

pub open spec fn issue_if(condition: bool, s: Seq<char>) -> Seq<Seq<char>> {
    if condition {
        seq![s]
    } else {
        Seq::empty()
    }
}

pub open spec fn index_issues(
    db_version: Option<Seq<char>>,
    initialized: Option<Seq<char>>,
    version: Option<Seq<char>>,
    assets: i64,
    references: i64,
    orphan_references: i64,
    orphan_functions: i64,
) -> Seq<Seq<char>> {
    issue_if(db_version is None, "project_meta.db_version is missing"@) + issue_if(
        initialized != Some("1"@),
        "asset_index_initialized is not set to 1"@,
    ) + issue_if(
        !expected_version(version),
        "asset_index_version is "@ + (match version {
            Some(v) => v,
            None => "missing"@,
        }) + ", expected "@ + text::decimal(ASSET_INDEX_VERSION as int),
    ) + issue_if(assets <= 0, "assets table is empty"@) + issue_if(
        references <= 0,
        "asset_references table is empty"@,
    ) + issue_if(
        orphan_references > 0,
        "asset_references has "@ + text::decimal(orphan_references as int) + " orphan rows"@,
    ) + issue_if(
        orphan_functions > 0,
        "asset_functions has "@ + text::decimal(orphan_functions as int) + " orphan rows"@,
    )
}

fn push_if(list: Vec<String>, condition: bool, s: String) -> (r: Vec<String>)
    ensures
        text::texts(r@) == text::texts(list@) + issue_if(condition, s@),
{
    let mut r = list;
    if condition {
        r.push(s);
    }
    assert(text::texts(r@) =~= text::texts(list@) + issue_if(condition, s@));
    r
}

/// What is wrong with the index; nothing where it can be used.
pub fn build_asset_index_issues(
    db_version: Option<&str>,
    asset_index_initialized: Option<&str>,
    asset_index_version: Option<&str>,
    assets_count: i64,
    references_count: i64,
    orphan_references: i64,
    orphan_functions: i64,
) -> (r: Vec<String>)
    ensures
        text::texts(r@) == index_issues(
            text::opt_str(db_version),
            text::opt_str(asset_index_initialized),
            text::opt_str(asset_index_version),
            assets_count,
            references_count,
            orphan_references,
            orphan_functions,
        ),
{
    let mut r: Vec<String> = Vec::new();
    assert(text::texts(r@) =~= Seq::<Seq<char>>::empty());
    r = push_if(r, db_version.is_none(), text::copy_of("project_meta.db_version is missing"));
    let made = match asset_index_initialized {
        Some(s) => text::same(s, "1"),
        None => false,
    };
    r = push_if(r, !made, text::copy_of("asset_index_initialized is not set to 1"));
    let shown = match asset_index_version {
        Some(v) => v,
        None => "missing",
    };
    let head = text::concat3("asset_index_version is ", shown, ", expected ");
    let wrong = text::concat2(&head, &text::decimal_i64(ASSET_INDEX_VERSION as i64));
    r = push_if(r, !is_expected_version(asset_index_version), wrong);
    r = push_if(r, assets_count <= 0, text::copy_of("assets table is empty"));
    r = push_if(r, references_count <= 0, text::copy_of("asset_references table is empty"));
    r = push_if(
        r,
        orphan_references > 0,
        text::concat3(
            "asset_references has ",
            &text::decimal_i64(orphan_references),
            " orphan rows",
        ),
    );
    r = push_if(
        r,
        orphan_functions > 0,
        text::concat3("asset_functions has ", &text::decimal_i64(orphan_functions), " orphan rows"),
    );
    assert(text::texts(r@) =~= index_issues(
        text::opt_str(db_version),
        text::opt_str(asset_index_initialized),
        text::opt_str(asset_index_version),
        assets_count,
        references_count,
        orphan_references,
        orphan_functions,
    ));
    r
}

/// What a store says of its index.
pub struct AssetIndexFacts {
    pub db_version: Option<String>,
    pub asset_index_initialized: Option<String>,
    pub asset_index_version: Option<String>,
    pub assets: i64,
    pub asset_references: i64,
    pub orphan_asset_references: i64,
    pub orphan_asset_functions: i64,
}

pub struct AssetIndexStatus {
    pub ok: bool,
    pub issues: Vec<String>,
}

pub open spec fn status_issues(facts: Option<AssetIndexFacts>) -> Seq<Seq<char>> {
    match facts {
        None => seq!["asset database is missing"@],
        Some(f) => index_issues(
            text::opt_text(f.db_version),
            text::opt_text(f.asset_index_initialized),
            text::opt_text(f.asset_index_version),
            f.assets,
            f.asset_references,
            f.orphan_asset_references,
            f.orphan_asset_functions,
        ),
    }
}

/// Whether the index can be used, and what is wrong with it; there are no facts where there is no
/// store.
pub fn get_asset_index_status(facts: Option<AssetIndexFacts>) -> (r: AssetIndexStatus)
    ensures
        text::texts(r.issues@) == status_issues(facts),
        r.ok == (status_issues(facts).len() == 0),
{
    let issues = match facts {
        None => {
            let mut v: Vec<String> = Vec::new();
            v.push(text::copy_of("asset database is missing"));
            assert(text::texts(v@) =~= seq!["asset database is missing"@]);
            v
        },
        Some(f) => build_asset_index_issues(
            text::opt_str_of(&f.db_version),
            text::opt_str_of(&f.asset_index_initialized),
            text::opt_str_of(&f.asset_index_version),
            f.assets,
            f.asset_references,
            f.orphan_asset_references,
            f.orphan_asset_functions,
        ),
    };
    assert(text::texts(issues@).len() == issues@.len());
    AssetIndexStatus { ok: issues.len() == 0, issues }
}

/// What a bulk write ends with: its own error before one of the clean-up behind it.
pub fn with_asset_bulk_write<T, E>(work: Result<T, E>, finalize: Result<(), E>) -> (r: Result<T, E>)
    ensures
        r == match work {
            Err(e) => Err(e),
            Ok(v) => match finalize {
                Ok(_) => Ok(v),
                Err(e) => Err(e),
            },
        },
{
    match work {
        Err(e) => Err(e),
        Ok(v) => match finalize {
            Ok(_) => Ok(v),
            Err(e) => Err(e),
        },
    }
}

} // verus!
