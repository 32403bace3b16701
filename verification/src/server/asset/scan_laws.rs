//! What a scan of assets reads, writes and reports.
use vstd::prelude::*;

use super::graph::named_before;
use super::graph_laws::names_it;
use super::index::{
    changed_from, counted_names_from, deleted_from, distinct_from, has_row, index_issues, index_usable,
    last_time, lowered, of_kind, rows_of, usage_rows_of, UsageKind,
};
use super::record::{AssetRecord, RecordView};
use super::scan::{
    content_before, content_dirs_from, failures_upto, first_failure, indexed_upto, progress_bucket,
    skipped_upto, ParseOutcome,
};
use crate::text;
use crate::text_laws::numbers_read_as_written;

verus! {

// ---------------------------------------------------------------------------
// What is read again
// ---------------------------------------------------------------------------
/// The last row of a path gives this time.
pub open spec fn known_since(rows: Seq<(Seq<char>, i64)>, path: Seq<char>, time: i64) -> bool {
    exists|k: int|
        0 <= k < rows.len() && #[trigger] rows[k] == (path, time) && forall|j: int|
            k < j < rows.len() ==> (#[trigger] rows[j]).0 != path
}

proof fn lemma_last_time(rows: Seq<(Seq<char>, i64)>, path: Seq<char>, upto: int)
    requires
        0 <= upto <= rows.len(),
    ensures
        match last_time(rows, path, upto) {
            Some(time) => exists|k: int|
                0 <= k < upto && #[trigger] rows[k] == (path, time) && forall|j: int|
                    k < j < upto ==> (#[trigger] rows[j]).0 != path,
            None => forall|j: int| 0 <= j < upto ==> (#[trigger] rows[j]).0 != path,
        },
    decreases upto,
{
    if upto > 0 {
        if rows[upto - 1].0 == path {
            assert(rows[upto - 1] == (path, rows[upto - 1].1));
        } else {
            lemma_last_time(rows, path, upto - 1);
            if let Some(time) = last_time(rows, path, upto - 1) {
                let k = choose|k: int|
                    0 <= k < upto - 1 && #[trigger] rows[k] == (path, time) && forall|j: int|
                        k < j < upto - 1 ==> (#[trigger] rows[j]).0 != path;
                assert(rows[k] == (path, time));
            }
        }
    }
}

proof fn lemma_known_since(rows: Seq<(Seq<char>, i64)>, path: Seq<char>, time: i64)
    ensures
        last_time(rows, path, rows.len() as int) == Some(time) <==> known_since(rows, path, time),
{
    lemma_last_time(rows, path, rows.len() as int);
    if known_since(rows, path, time) {
        let k = choose|k: int|
            0 <= k < rows.len() && #[trigger] rows[k] == (path, time) && forall|j: int|
                k < j < rows.len() ==> (#[trigger] rows[j]).0 != path;
        match last_time(rows, path, rows.len() as int) {
            None => {
                assert(rows[k].0 == path);
            },
            Some(other) => {
                let m = choose|m: int|
                    0 <= m < rows.len() && #[trigger] rows[m] == (path, other) && forall|j: int|
                        m < j < rows.len() ==> (#[trigger] rows[j]).0 != path;
                if m < k {
                    assert(rows[k].0 == path);
                } else if k < m {
                    assert(rows[m].0 == path);
                }
            },
        }
    }
}

proof fn lemma_changed(
    existing: Seq<(Seq<char>, i64)>,
    files: Seq<(Seq<char>, i64)>,
    k: int,
    i: usize,
)
    requires
        0 <= k <= files.len() <= usize::MAX,
        i < files.len(),
    ensures
        changed_from(existing, files, k).contains(i) <==> k <= i && !known_since(
            existing,
            files[i as int].0,
            files[i as int].1,
        ),
    decreases files.len() - k,
{
    if k < files.len() {
        lemma_changed(existing, files, k + 1, i);
        lemma_known_since(existing, files[k].0, files[k].1);
        let rest = changed_from(existing, files, k + 1);
        let all = changed_from(existing, files, k);
        if last_time(existing, files[k].0, existing.len() as int) != Some(files[k].1) {
            assert(all == seq![k as usize] + rest);
            if i == k {
                assert(all[0] == i);
            }
            if rest.contains(i) {
                let m = choose|m: int| 0 <= m < rest.len() && rest[m] == i;
                assert(all[m + 1] == i);
            }
            if all.contains(i) {
                let m = choose|m: int| 0 <= m < all.len() && all[m] == i;
                if m > 0 {
                    assert(rest[m - 1] == i);
                }
            }
        }
    }
}

/// A file is read again exactly if the index does not hold it with the time of its last writing.
pub proof fn changed_files_are_read_again(
    existing: Seq<(Seq<char>, i64)>,
    files: Seq<(Seq<char>, i64)>,
    i: usize,
)
    requires
        i < files.len() <= usize::MAX,
    ensures
        changed_from(existing, files, 0).contains(i) <==> !known_since(
            existing,
            files[i as int].0,
            files[i as int].1,
        ),
{
    lemma_changed(existing, files, 0, i);
}

proof fn lemma_deleted(
    existing: Seq<(Seq<char>, i64)>,
    files: Seq<(Seq<char>, i64)>,
    k: int,
    path: Seq<char>,
)
    requires
        0 <= k <= existing.len(),
    ensures
        deleted_from(existing, files, k).contains(path) <==> !has_row(
            files,
            path,
            files.len() as int,
        ) && !has_row(existing, path, k) && has_row(existing, path, existing.len() as int),
    decreases existing.len() - k,
{
    let all = deleted_from(existing, files, k);
    if k < existing.len() {
        lemma_deleted(existing, files, k + 1, path);
        let rest = deleted_from(existing, files, k + 1);
        let first = existing[k].0;
        if has_row(existing, path, k) {
            let j = choose|j: int| 0 <= j < k && (#[trigger] existing[j]).0 == path;
            assert(existing[j].0 == path && j < k + 1);
            assert(has_row(existing, path, k + 1));
        }
        if has_row(existing, path, k + 1) && !has_row(existing, path, k) {
            let j = choose|j: int| 0 <= j < k + 1 && (#[trigger] existing[j]).0 == path;
            assert(j == k);
        }
        if first == path {
            assert(existing[k].0 == path);
            assert(has_row(existing, path, k + 1));
            assert(has_row(existing, path, existing.len() as int));
        }
        if !(has_row(existing, first, k) || has_row(files, first, files.len() as int)) {
            assert(all == seq![first] + rest);
            if first == path {
                assert(all[0] == path);
            }
            if rest.contains(path) {
                let m = choose|m: int| 0 <= m < rest.len() && rest[m] == path;
                assert(all[m + 1] == path);
            }
            if all.contains(path) {
                let m = choose|m: int| 0 <= m < all.len() && all[m] == path;
                if m > 0 {
                    assert(rest[m - 1] == path);
                }
            }
        }
    }
}

/// A path is taken out of the index exactly if the index holds it and no file bears it.
pub proof fn missing_files_are_taken_out(
    existing: Seq<(Seq<char>, i64)>,
    files: Seq<(Seq<char>, i64)>,
    path: Seq<char>,
)
    ensures
        deleted_from(existing, files, 0).contains(path) <==> (exists|i: int|
            0 <= i < existing.len() && (#[trigger] existing[i]).0 == path) && !(exists|i: int|
            0 <= i < files.len() && (#[trigger] files[i]).0 == path),
{
    lemma_deleted(existing, files, 0, path);
}

// ---------------------------------------------------------------------------
// What is written
// ---------------------------------------------------------------------------
proof fn lemma_distinct(list: Seq<Seq<char>>, k: int, x: Seq<char>)
    requires
        0 <= k <= list.len(),
    ensures
        distinct_from(list, k).contains(x) <==> (exists|i: int|
            k <= i < list.len() && #[trigger] list[i] == x) && !(exists|i: int|
            0 <= i < k && #[trigger] list[i] == x),
    decreases list.len() - k,
{
    if k < list.len() {
        lemma_distinct(list, k + 1, x);
        let rest = distinct_from(list, k + 1);
        let all = distinct_from(list, k);
        if !(exists|i: int| 0 <= i < k && #[trigger] list[i] == list[k]) {
            assert(all == seq![list[k]] + rest);
            if list[k] == x {
                assert(all[0] == x);
            }
            if rest.contains(x) {
                let m = choose|m: int| 0 <= m < rest.len() && rest[m] == x;
                assert(all[m + 1] == x);
            }
            if all.contains(x) {
                let m = choose|m: int| 0 <= m < all.len() && all[m] == x;
                if m > 0 {
                    assert(rest[m - 1] == x);
                }
            }
        }
    }
}

proof fn lemma_lowered(names: Seq<Seq<char>>, key: Seq<char>)
    ensures
        distinct_from(lowered(names), 0).contains(key) <==> names_it(names, key),
{
    let low = lowered(names);
    lemma_distinct(low, 0, key);
    if names_it(names, key) {
        let i = choose|i: int| 0 <= i < names.len() && text::lower(#[trigger] names[i]) == key;
        assert(low[i] == key);
    }
    if exists|i: int| 0 <= i < low.len() && #[trigger] low[i] == key {
        let i = choose|i: int| 0 <= i < low.len() && #[trigger] low[i] == key;
        assert(text::lower(names[i]) == key);
    }
}

proof fn lemma_of_kind(keys: Seq<Seq<char>>, kind: UsageKind, key: Seq<char>, other: UsageKind)
    ensures
        of_kind(keys, kind).contains((key, other)) <==> keys.contains(key) && kind == other,
{
    let list = of_kind(keys, kind);
    if keys.contains(key) && kind == other {
        let i = choose|i: int| 0 <= i < keys.len() && keys[i] == key;
        assert(list[i] == (key, other));
    }
    if list.contains((key, other)) {
        let i = choose|i: int| 0 <= i < list.len() && list[i] == (key, other);
        assert(keys[i] == key);
    }
}

/// For an asset one usage is written for each thing that it imports, as a reference; for each of its
/// functions, as a function; and for its parent class, as derived; all in lower case.
pub proof fn usages_are_written_by_kind(r: RecordView, key: Seq<char>)
    ensures
        ({
            let rows = usage_rows_of(rows_of(r));
            &&& rows.contains((key, UsageKind::Reference)) <==> names_it(r.imports, key)
            &&& rows.contains((key, UsageKind::Function)) <==> names_it(r.functions, key)
            &&& rows.contains((key, UsageKind::Derived)) <==> r.parent_class is Some && key
                == text::lower(r.parent_class->0)
        }),
{
    let v = rows_of(r);
    let a = of_kind(v.reference_keys, UsageKind::Reference);
    let b = of_kind(v.function_keys, UsageKind::Function);
    let c = match v.parent_class_key {
        Some(p) => seq![(p, UsageKind::Derived)],
        None => Seq::<(Seq<char>, UsageKind)>::empty(),
    };
    let rows = usage_rows_of(v);
    assert(rows == a + b + c);
    lemma_lowered(r.imports, key);
    lemma_lowered(r.functions, key);
    assert forall|kind: UsageKind|
        #[trigger] rows.contains((key, kind)) <==> a.contains((key, kind)) || b.contains((key, kind))
            || c.contains((key, kind)) by {
        let x = (key, kind);
        if a.contains(x) {
            let i = choose|i: int| 0 <= i < a.len() && a[i] == x;
            assert(rows[i] == x);
        }
        if b.contains(x) {
            let i = choose|i: int| 0 <= i < b.len() && b[i] == x;
            assert(rows[a.len() + i] == x);
        }
        if c.contains(x) {
            let i = choose|i: int| 0 <= i < c.len() && c[i] == x;
            assert(rows[a.len() + b.len() + i] == x);
        }
        if rows.contains(x) {
            let i = choose|i: int| 0 <= i < rows.len() && rows[i] == x;
            if i < a.len() {
                assert(a[i] == x);
            } else if i < a.len() + b.len() {
                assert(b[i - a.len()] == x);
            } else {
                assert(c[i - a.len() - b.len()] == x);
            }
        }
    }
    lemma_of_kind(v.reference_keys, UsageKind::Reference, key, UsageKind::Reference);
    lemma_of_kind(v.reference_keys, UsageKind::Reference, key, UsageKind::Function);
    lemma_of_kind(v.reference_keys, UsageKind::Reference, key, UsageKind::Derived);
    lemma_of_kind(v.function_keys, UsageKind::Function, key, UsageKind::Reference);
    lemma_of_kind(v.function_keys, UsageKind::Function, key, UsageKind::Function);
    lemma_of_kind(v.function_keys, UsageKind::Function, key, UsageKind::Derived);
    if let Some(p) = v.parent_class_key {
        assert(c[0] == (p, UsageKind::Derived));
    }
}

/// The row of an asset bears the path of the asset and that of its file in lower case, and the name
/// behind the last slash.
pub proof fn asset_rows_bear_their_names(r: RecordView, front: Seq<char>, name: Seq<char>)
    requires
        r.asset_path == front + seq!['/'] + name,
        !name.contains('/'),
    ensures
        rows_of(r).asset_name == name,
        rows_of(r).asset_name_lc == text::lower(name),
        rows_of(r).asset_key == text::lower(r.asset_path),
        rows_of(r).source_path_key == text::lower(r.source_path),
{
    crate::text_laws::first_and_last_parts(front, '/', name);
}

/// The names are the same but for white space around them and ASCII case.
pub open spec fn alike(a: Seq<char>, b: Seq<char>) -> bool {
    text::lower(text::trimmed(a)) == text::lower(text::trimmed(b))
}

proof fn lemma_counted(names: Seq<Seq<char>>, k: int, x: Seq<char>)
    requires
        0 <= k <= names.len(),
    ensures
        counted_names_from(names, k).contains(x) <==> x.len() > 0 && exists|i: int|
            k <= i < names.len() && text::trimmed(#[trigger] names[i]) == x && !named_before(
                names,
                x,
                i,
            ),
    decreases names.len() - k,
{
    if k < names.len() {
        lemma_counted(names, k + 1, x);
        let rest = counted_names_from(names, k + 1);
        let all = counted_names_from(names, k);
        let name = text::trimmed(names[k]);
        if !(name.len() == 0 || named_before(names, name, k)) {
            assert(all == seq![name] + rest);
            if name == x {
                assert(all[0] == x);
            }
            if rest.contains(x) {
                let m = choose|m: int| 0 <= m < rest.len() && rest[m] == x;
                assert(all[m + 1] == x);
            }
            if all.contains(x) {
                let m = choose|m: int| 0 <= m < all.len() && all[m] == x;
                if m > 0 {
                    assert(rest[m - 1] == x);
                }
            }
        }
    }
}

/// Usages are counted for the names that are not blank, without the white space around them, each
/// where a name like it stands first.
pub proof fn names_are_counted_once(names: Seq<Seq<char>>, x: Seq<char>)
    ensures
        counted_names_from(names, 0).contains(x) <==> x.len() > 0 && exists|i: int|
            0 <= i < names.len() && text::trimmed(#[trigger] names[i]) == x && forall|j: int|
                0 <= j < i ==> !alike(#[trigger] names[j], names[i]),
{
    lemma_counted(names, 0, x);
    assert forall|i: int|
        0 <= i < names.len() && text::trimmed(#[trigger] names[i]) == x implies (!named_before(
        names,
        x,
        i,
    ) <==> forall|j: int| 0 <= j < i ==> !alike(#[trigger] names[j], names[i])) by {
        if named_before(names, x, i) {
            let j = choose|j: int|
                0 <= j < i && text::same_caseless(text::trimmed(#[trigger] names[j]), x);
            assert(alike(names[j], names[i]));
        }
    }
    if counted_names_from(names, 0).contains(x) {
        let i = choose|i: int|
            0 <= i < names.len() && text::trimmed(#[trigger] names[i]) == x && !named_before(
                names,
                x,
                i,
            );
        assert(text::trimmed(names[i]) == x);
    }
}

// ---------------------------------------------------------------------------
// Whether the index can be used
// ---------------------------------------------------------------------------
/// An index without issues can be used: it was made by this version, holds assets and references,
/// and no orphans.
pub proof fn sound_indexes_have_no_issues(
    db_version: Option<Seq<char>>,
    initialized: Option<Seq<char>>,
    version: Option<Seq<char>>,
    assets: i64,
    references: i64,
    orphan_references: i64,
    orphan_functions: i64,
)
    ensures
        index_issues(
            db_version,
            initialized,
            version,
            assets,
            references,
            orphan_references,
            orphan_functions,
        ).len() == 0 <==> db_version is Some && index_usable(initialized, version) && assets > 0
            && references > 0 && orphan_references <= 0 && orphan_functions <= 0,
        index_usable(initialized, version) ==> initialized == Some(seq!['1']),
        index_usable(
            Some(seq!['1']),
            Some(text::decimal(super::index::ASSET_INDEX_VERSION as int)),
        ),
        initialized is None || version is None ==> !index_usable(initialized, version),
{
    reveal_strlit("1");
    assert("1"@ =~= seq!['1']);
    numbers_read_as_written(super::index::ASSET_INDEX_VERSION as int);
}

// ---------------------------------------------------------------------------
// Scanning
// ---------------------------------------------------------------------------
proof fn lemma_content(list: Seq<(Seq<char>, Seq<char>)>, k: int, path: Seq<char>)
    requires
        0 <= k <= list.len(),
    ensures
        content_dirs_from(list, k).contains(path) <==> content_before(
            list,
            path,
            list.len() as int,
        ) && !content_before(list, path, k),
    decreases list.len() - k,
{
    if k < list.len() {
        lemma_content(list, k + 1, path);
        let rest = content_dirs_from(list, k + 1);
        let all = content_dirs_from(list, k);
        if content_before(list, path, k) {
            let j = choose|j: int|
                0 <= j < k && super::scan::content_named((#[trigger] list[j]).0) && list[j].1 == path;
            assert(0 <= j < k + 1 && super::scan::content_named(list[j].0));
            assert(content_before(list, path, k + 1));
        }
        if content_before(list, path, k + 1) && !content_before(list, path, k) {
            let j = choose|j: int|
                0 <= j < k + 1 && super::scan::content_named((#[trigger] list[j]).0) && list[j].1
                    == path;
            assert(j == k);
        }
        if super::scan::content_named(list[k].0) && list[k].1 == path {
            assert(content_before(list, path, k + 1));
            assert(content_before(list, path, list.len() as int));
        }
        if super::scan::content_named(list[k].0) && !content_before(list, list[k].1, k) {
            assert(all == seq![list[k].1] + rest);
            if list[k].1 == path {
                assert(all[0] == path);
            }
            if rest.contains(path) {
                let m = choose|m: int| 0 <= m < rest.len() && rest[m] == path;
                assert(all[m + 1] == path);
            }
            if all.contains(path) {
                let m = choose|m: int| 0 <= m < all.len() && all[m] == path;
                if m > 0 {
                    assert(rest[m - 1] == path);
                }
            }
        }
    }
}

/// Assets are looked for in the directories that are named `Content`, however it is spelt in upper
/// and lower case, and in no others.
pub proof fn content_directories_are_searched(list: Seq<(Seq<char>, Seq<char>)>, path: Seq<char>)
    ensures
        content_dirs_from(list, 0).contains(path) <==> exists|i: int|
            0 <= i < list.len() && (#[trigger] list[i]).1 == path && text::lower(list[i].0)
                == "content"@,
{
    reveal_strlit("Content");
    reveal_strlit("content");
    assert(text::lower("Content"@) =~= "content"@) by {
        crate::text_laws::capitals_become_small('C');
        assert(text::lower_char('C') as u32 == 'c' as u32);
        assert(text::lower_char('C') == 'c');
    }
    lemma_content(list, 0, path);
    if exists|i: int|
        0 <= i < list.len() && (#[trigger] list[i]).1 == path && text::lower(list[i].0)
            == "content"@ {
        let i = choose|i: int|
            0 <= i < list.len() && (#[trigger] list[i]).1 == path && text::lower(list[i].0)
                == "content"@;
        assert(super::scan::content_named(list[i].0));
    }
}

/// The file failed for this reason.
pub open spec fn failed_for(o: ParseOutcome, reason: Seq<char>) -> bool {
    &&& o matches ParseOutcome::Failed { reason: r, path: _ }
    &&& r@ == reason
}

proof fn lemma_failures(list: Seq<ParseOutcome>, reason: Seq<char>, upto: int)
    requires
        0 <= upto <= list.len(),
    ensures
        failures_upto(list, reason, upto) > 0 <==> exists|i: int|
            0 <= i < upto && failed_for(#[trigger] list[i], reason),
    decreases upto,
{
    if upto > 0 {
        lemma_failures(list, reason, upto - 1);
        if failed_for(list[upto - 1], reason) {
            assert(failures_upto(list, reason, upto) > 0);
        }
    }
}

proof fn lemma_first_failure(list: Seq<ParseOutcome>, reason: Seq<char>, upto: int, i: int)
    requires
        0 <= i < upto <= list.len(),
        failed_for(list[i], reason),
        forall|j: int| 0 <= j < i ==> !failed_for(#[trigger] list[j], reason),
    ensures
        first_failure(list, reason, upto) == list[i]->Failed_path@,
    decreases upto,
{
    lemma_failures(list, reason, upto - 1);
    if i < upto - 1 {
        assert(failures_upto(list, reason, upto - 1) > 0);
        lemma_first_failure(list, reason, upto - 1, i);
    }
}

/// A reason is reported with the first file that failed for it.
pub proof fn failures_show_their_first_file(list: Seq<ParseOutcome>, reason: Seq<char>, i: int)
    requires
        0 <= i < list.len(),
        failed_for(list[i], reason),
        forall|j: int| 0 <= j < i ==> !failed_for(#[trigger] list[j], reason),
    ensures
        failures_upto(list, reason, list.len() as int) > 0,
        first_failure(list, reason, list.len() as int) == list[i]->Failed_path@,
{
    lemma_failures(list, reason, list.len() as int);
    lemma_first_failure(list, reason, list.len() as int, i);
}

/// What is indexed are the records of the files that were parsed, and a skipped file counts as such.
pub proof fn parsed_files_are_indexed(list: Seq<ParseOutcome>, upto: int, r: AssetRecord)
    requires
        0 <= upto <= list.len(),
    ensures
        indexed_upto(list, upto).contains(r) <==> exists|i: int|
            0 <= i < upto && #[trigger] list[i] == ParseOutcome::Indexed(r),
        upto > 0 && list[upto - 1] is Skipped ==> skipped_upto(list, upto) == skipped_upto(
            list,
            upto - 1,
        ) + 1,
    decreases upto,
{
    if upto > 0 {
        parsed_files_are_indexed(list, upto - 1, r);
        let before = indexed_upto(list, upto - 1);
        let all = indexed_upto(list, upto);
        if let ParseOutcome::Indexed(x) = list[upto - 1] {
            assert(all == before.push(x));
            if before.contains(r) {
                let i = choose|i: int| 0 <= i < before.len() && before[i] == r;
                assert(all[i] == r);
            }
            if x == r {
                assert(all[before.len() as int] == r);
            }
            if all.contains(r) {
                let i = choose|i: int| 0 <= i < all.len() && all[i] == r;
                if i < before.len() {
                    assert(before[i] == r);
                }
            }
        }
    }
}

/// Progress is measured in thousandths of the files: none at the beginning, all at the end, and
/// never backwards.
pub proof fn progress_runs_through_thousandths(a: int, b: int, total: int)
    requires
        0 <= a <= b <= total,
        total > 0,
    ensures
        progress_bucket(0, total) == 0,
        progress_bucket(total, total) == 1000,
        progress_bucket(a, total) <= progress_bucket(b, total),
        progress_bucket(b, total) * total <= b * 1000,
        b < total ==> b * 1000 < (progress_bucket(b, total) + 1) * total,
{
    assert(0int * 1000 / total == 0) by (nonlinear_arith)
        requires
            total > 0,
    ;
    assert(total * 1000 / total == 1000) by (nonlinear_arith)
        requires
            total > 0,
    ;
    assert(a * 1000 / total <= b * 1000 / total) by (nonlinear_arith)
        requires
            total > 0,
            a <= b,
    ;
    assert(b * 1000 / total <= 1000) by (nonlinear_arith)
        requires
            total > 0,
            0 <= b <= total,
    ;
    assert((b * 1000 / total) * total <= b * 1000 && b * 1000 < (b * 1000 / total + 1) * total)
        by (nonlinear_arith)
        requires
            total > 0,
            0 <= b,
    ;
}

} // verus!
