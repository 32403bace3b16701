//! Looking for the assets of a project, and reading them.
use vstd::prelude::*;

use super::fallback::{
    ascii_strings, fallback_parse_asset_record, fallback_view, matches_in, says_nothing, GAME_PATH,
    IDENTIFIER, SCRIPT_PATH,
};
use super::record::{
    filter_indexed_asset_record, fully_indexed, opt_record, AssetRecord, RecordView,
};
use crate::sort::{
    arrangement, comes_first, lemma_arrangement_onto, lemma_sorted_by, sort, sorted_by,
    sorting_puts_in_order, Ranked,
};
use crate::text;
use crate::textmap::TextMap;

verus! {

pub const ASSET_PROGRESS_EVERY: usize = 100;

// ---------------------------------------------------------------------------
// Directories and files
// ---------------------------------------------------------------------------
/// A directory that a walk came upon.
pub struct DirEntry {
    pub name: String,
    pub path: String,
}

pub open spec fn dir_view(e: DirEntry) -> (Seq<char>, Seq<char>) {
    (e.name@, e.path@)
}

pub open spec fn dir_views(v: Seq<DirEntry>) -> Seq<(Seq<char>, Seq<char>)> {
    v.map_values(|e: DirEntry| dir_view(e))
}

pub open spec fn content_named(name: Seq<char>) -> bool {
    text::same_caseless(name, "Content"@)
}

/// A content directory of this path stands among the first `upto`.
pub open spec fn content_before(list: Seq<(Seq<char>, Seq<char>)>, path: Seq<char>, upto: int) -> bool {
    exists|i: int|
        0 <= i < upto && content_named((#[trigger] list[i]).0) && list[i].1 == path
}

/// The content directories from position `k` on, each path once.
pub open spec fn content_dirs_from(list: Seq<(Seq<char>, Seq<char>)>, k: int) -> Seq<Seq<char>>
    decreases list.len() - k,
{
    if k < 0 || k >= list.len() {
        Seq::empty()
    } else if content_named(list[k].0) && !content_before(list, list[k].1, k) {
        seq![list[k].1] + content_dirs_from(list, k + 1)
    } else {
        content_dirs_from(list, k + 1)
    }
}

/// The directories that hold assets, among those that a walk came upon.
pub fn discover_content_dirs(entries: &Vec<DirEntry>) -> (r: Vec<String>)
    ensures
        text::texts(r@) == content_dirs_from(dir_views(entries@), 0),
{
    let ghost list = dir_views(entries@);
    let mut seen: TextMap<bool> = TextMap::new();
    let mut r: Vec<String> = Vec::new();
    let n: usize = entries.len();
    let mut i: usize = 0;
    assert(text::texts(r@) =~= Seq::<Seq<char>>::empty());
    while i < n
        invariant
            list == dir_views(entries@),
            n == entries@.len(),
            i <= n,
            forall|p: Seq<char>|
                (#[trigger] seen.spec_get(p)) is Some <==> content_before(list, p, i as int),
            content_dirs_from(list, 0) =~= text::texts(r@) + content_dirs_from(list, i as int),
        decreases n - i,
    {
        let e = &entries[i];
        assert(list[i as int] == (e.name@, e.path@));
        let ghost before = seen;
        let ghost so_far = text::texts(r@);
        let named = text::eq_caseless(&e.name, "Content");
        if named {
            assert(seen.spec_get(e.path@) is Some <==> content_before(list, e.path@, i as int));
            if !seen.contains(&e.path) {
                r.push(text::copy_of(&e.path));
                assert(text::texts(r@) =~= so_far.push(e.path@));
            }
            seen.insert(&e.path, true);
            proof {
                crate::textmap::lemma_get_with(before, seen, e.path@, true);
            }
        }
        proof {
            assert forall|p: Seq<char>|
                (#[trigger] seen.spec_get(p)) is Some <==> content_before(list, p, i + 1) by {
                assert(before.spec_get(p) is Some <==> content_before(list, p, i as int));
                if content_before(list, p, i as int) {
                    let j = choose|j: int|
                        0 <= j < i && content_named((#[trigger] list[j]).0) && list[j].1 == p;
                    assert(content_named(list[j].0) && list[j].1 == p);
                }
                if named && p == e.path@ {
                    assert(content_named(list[i as int].0) && list[i as int].1 == p);
                }
            }
        }
        i = i + 1;
    }
    assert(text::texts(r@) =~= content_dirs_from(list, 0));
    r
}

/// A file that may hold an asset.
pub struct Candidate {
    pub path: String,
    pub size: u64,
}

/// Paths are ordered by their components: a separator comes before all other characters.
pub open spec fn component_key(path: Seq<char>) -> Seq<char> {
    text::replaced_char(path, '/', seq!['\0'])
}

pub open spec fn candidate_view(c: Candidate) -> (Seq<char>, u64) {
    (c.path@, c.size)
}

pub open spec fn candidate_views(v: Seq<Candidate>) -> Seq<(Seq<char>, u64)> {
    v.map_values(|c: Candidate| candidate_view(c))
}

/// Larger files are read first; files of the same size by their path.
pub open spec fn read_before(a: (Seq<char>, u64), b: (Seq<char>, u64)) -> bool {
    a.1 > b.1 || a.1 == b.1 && text::at_most(component_key(a.0), component_key(b.0))
}

impl Ranked for Candidate {
    open spec fn before(self, other: Self) -> bool {
        read_before(candidate_view(self), candidate_view(other))
    }

    proof fn before_total(a: Self, b: Self) {
        text::lemma_less_total(component_key(a.path@), component_key(b.path@));
    }

    proof fn before_trans(a: Self, b: Self, c: Self) {
        if a.size == b.size && b.size == c.size {
            text::lemma_at_most_trans(
                component_key(a.path@),
                component_key(b.path@),
                component_key(c.path@),
            );
        }
    }

    fn may_precede(&self, other: &Self) -> (r: bool) {
        if self.size != other.size {
            return self.size > other.size;
        }
        proof {
            reveal_strlit("\0");
            assert("\0"@ =~= seq!['\0']);
        }
        let mine = text::replace_char(&self.path, '/', "\0");
        let theirs = text::replace_char(&other.path, '/', "\0");
        !text::is_less(&theirs, &mine)
    }
}

pub open spec fn path_before(list: Seq<(Seq<char>, u64)>, path: Seq<char>, upto: int) -> bool {
    exists|i: int| 0 <= i < upto && (#[trigger] list[i]).0 == path
}

/// The files from position `k` on, each path once.
pub open spec fn files_from(list: Seq<(Seq<char>, u64)>, k: int) -> Seq<(Seq<char>, u64)>
    decreases list.len() - k,
{
    if k < 0 || k >= list.len() {
        Seq::empty()
    } else if path_before(list, list[k].0, k) {
        files_from(list, k + 1)
    } else {
        seq![list[k]] + files_from(list, k + 1)
    }
}

/// The files that may hold an asset, each once and in the order in which they are read.
pub fn collect_candidate_assets(files: &Vec<Candidate>) -> (r: Vec<Candidate>)
    ensures
        candidate_views(r@) == sorted_by(
            files_from(candidate_views(files@), 0),
            |a: (Seq<char>, u64), b: (Seq<char>, u64)| read_before(a, b),
        ),
{
    let ghost list = candidate_views(files@);
    let mut seen: TextMap<bool> = TextMap::new();
    let mut u: Vec<Candidate> = Vec::new();
    let n: usize = files.len();
    let mut i: usize = 0;
    assert(candidate_views(u@) =~= Seq::<(Seq<char>, u64)>::empty());
    while i < n
        invariant
            list == candidate_views(files@),
            n == files@.len(),
            i <= n,
            forall|p: Seq<char>|
                (#[trigger] seen.spec_get(p)) is Some <==> path_before(list, p, i as int),
            files_from(list, 0) =~= candidate_views(u@) + files_from(list, i as int),
        decreases n - i,
    {
        let c = &files[i];
        assert(list[i as int] == (c.path@, c.size));
        let ghost before = seen;
        let ghost so_far = candidate_views(u@);
        assert(seen.spec_get(c.path@) is Some <==> path_before(list, c.path@, i as int));
        if !seen.contains(&c.path) {
            u.push(Candidate { path: text::copy_of(&c.path), size: c.size });
            assert(candidate_views(u@) =~= so_far.push((c.path@, c.size)));
        }
        seen.insert(&c.path, true);
        proof {
            crate::textmap::lemma_get_with(before, seen, c.path@, true);
            assert forall|p: Seq<char>|
                (#[trigger] seen.spec_get(p)) is Some <==> path_before(list, p, i + 1) by {
                assert(before.spec_get(p) is Some <==> path_before(list, p, i as int));
                if path_before(list, p, i as int) {
                    let j = choose|j: int| 0 <= j < i && (#[trigger] list[j]).0 == p;
                    assert(list[j].0 == p);
                }
                if p == c.path@ {
                    assert(list[i as int].0 == p);
                }
            }
        }
        i = i + 1;
    }
    assert(candidate_views(u@) =~= files_from(list, 0));
    let ghost unsorted = u@;
    let r = sort(u);
    proof {
        lemma_sorted_by(
            unsorted,
            r@,
            |c: Candidate| candidate_view(c),
            |a: (Seq<char>, u64), b: (Seq<char>, u64)| read_before(a, b),
        );
    }
    r
}

// ---------------------------------------------------------------------------
// One file
// ---------------------------------------------------------------------------
/// What came of parsing a file in full.
pub enum FullParse {
    Parsed(AssetRecord),
    Failed(String),
    Panicked,
}

/// What the texts of a file say of its asset.
pub open spec fn told_by(bytes: Seq<u8>, path: Seq<char>, mtime: i64) -> RecordView {
    let strings = ascii_strings(bytes, 4);
    fallback_view(
        matches_in(SCRIPT_PATH@, strings),
        matches_in(GAME_PATH@, strings),
        matches_in(IDENTIFIER@, strings),
        path,
        mtime,
    )
}

pub open spec fn if_indexed(extension: Option<Seq<char>>, v: RecordView) -> Option<RecordView> {
    if fully_indexed(extension, v) {
        Some(v)
    } else {
        None
    }
}

/// The reason that is given where a file could not be parsed.
pub open spec fn parse_reason(p: FullParse) -> Seq<char> {
    match p {
        FullParse::Failed(reason) => reason@,
        _ => "panic while parsing asset"@,
    }
}

/// The record of a file, if it is one to index. A file that cannot be parsed in full is searched
/// for texts; `bytes` is what it holds, where it could be read. Where that gives nothing either,
/// the reason of the parse is returned.
pub fn parse_asset_record(
    parsed: FullParse,
    bytes: Option<&[u8]>,
    path: &str,
    extension: Option<&str>,
    mtime: i64,
) -> (r: Result<Option<AssetRecord>, String>)
    ensures
        ({
            let told = told_by(bytes->0@, path@, mtime);
            match parsed {
                FullParse::Parsed(record) => r is Ok && opt_record(r->Ok_0) == if_indexed(
                    text::opt_str(extension),
                    record@,
                ),
                _ => match r {
                    Ok(record) => bytes is Some && !says_nothing(told) && opt_record(record)
                        == if_indexed(text::opt_str(extension), told),
                    Err(reason) => (bytes is None || says_nothing(told)) && reason@
                        == parse_reason(parsed),
                },
            }
        }),
{
    let reason = match parsed {
        FullParse::Parsed(record) => {
            return Ok(filter_indexed_asset_record(extension, record));
        },
        FullParse::Failed(reason) => reason,
        FullParse::Panicked => text::copy_of("panic while parsing asset"),
    };
    match bytes {
        Some(b) => match fallback_parse_asset_record(b, path, extension, mtime) {
            Ok(record) => Ok(record),
            Err(_) => Err(reason),
        },
        None => Err(reason),
    }
}

// ---------------------------------------------------------------------------
// The report of a scan
// ---------------------------------------------------------------------------
/// What came of one file.
pub enum ParseOutcome {
    Indexed(AssetRecord),
    Skipped,
    Failed { path: String, reason: String },
}

/// Files that could not be read for the same reason.
#[derive(Debug)]
pub struct AssetParseErrorSummary {
    pub reason: String,
    pub count: usize,
    pub sample_path: String,
}

pub struct AssetScanReport {
    pub total_seen: usize,
    pub skipped: usize,
    pub errors: usize,
    pub parsed: Vec<AssetRecord>,
    pub error_summary: Vec<AssetParseErrorSummary>,
}

pub open spec fn indexed_upto(list: Seq<ParseOutcome>, upto: int) -> Seq<AssetRecord>
    decreases upto,
{
    if upto <= 0 {
        Seq::empty()
    } else {
        match list[upto - 1] {
            ParseOutcome::Indexed(r) => indexed_upto(list, upto - 1).push(r),
            _ => indexed_upto(list, upto - 1),
        }
    }
}

pub open spec fn skipped_upto(list: Seq<ParseOutcome>, upto: int) -> nat
    decreases upto,
{
    if upto <= 0 {
        0
    } else {
        skipped_upto(list, upto - 1) + if list[upto - 1] is Skipped {
            1nat
        } else {
            0nat
        }
    }
}

pub open spec fn failed_upto(list: Seq<ParseOutcome>, upto: int) -> nat
    decreases upto,
{
    if upto <= 0 {
        0
    } else {
        failed_upto(list, upto - 1) + if list[upto - 1] is Failed {
            1nat
        } else {
            0nat
        }
    }
}

pub open spec fn fails_for(o: ParseOutcome, reason: Seq<char>) -> bool {
    match o {
        ParseOutcome::Failed { reason: r, .. } => r@ == reason,
        _ => false,
    }
}

/// How many of the first `upto` files failed for a reason.
pub open spec fn failures_upto(list: Seq<ParseOutcome>, reason: Seq<char>, upto: int) -> nat
    decreases upto,
{
    if upto <= 0 {
        0
    } else {
        failures_upto(list, reason, upto - 1) + if fails_for(list[upto - 1], reason) {
            1nat
        } else {
            0nat
        }
    }
}

/// The first of the first `upto` files that failed for a reason.
pub open spec fn first_failure(list: Seq<ParseOutcome>, reason: Seq<char>, upto: int) -> Seq<char>
    decreases upto,
{
    if upto <= 0 {
        Seq::empty()
    } else if failures_upto(list, reason, upto - 1) > 0 {
        first_failure(list, reason, upto - 1)
    } else {
        match list[upto - 1] {
            ParseOutcome::Failed { path, .. } => path@,
            _ => Seq::empty(),
        }
    }
}

impl Ranked for AssetParseErrorSummary {
    open spec fn before(self, other: Self) -> bool {
        self.count > other.count || self.count == other.count && text::at_most(
            self.reason@,
            other.reason@,
        )
    }

    proof fn before_total(a: Self, b: Self) {
        text::lemma_less_total(a.reason@, b.reason@);
    }

    proof fn before_trans(a: Self, b: Self, c: Self) {
        if a.count == b.count && b.count == c.count {
            text::lemma_at_most_trans(a.reason@, b.reason@, c.reason@);
        }
    }

    fn may_precede(&self, other: &Self) -> (r: bool) {
        self.count > other.count || self.count == other.count && !text::is_less(
            &other.reason,
            &self.reason,
        )
    }
}

/// One entry per reason, the most frequent first; reasons of the same count by name.
pub open spec fn summarizes(s: Seq<AssetParseErrorSummary>, list: Seq<ParseOutcome>) -> bool {
    let n = list.len() as int;
    &&& forall|i: int|
        0 <= i < s.len() ==> {
            let e = #[trigger] s[i];
            e.count > 0 && e.count == failures_upto(list, e.reason@, n) && e.sample_path@
                == first_failure(list, e.reason@, n)
        }
    &&& forall|i: int, j: int|
        0 <= i < j < s.len() ==> (#[trigger] s[i]).before(#[trigger] s[j]) && s[i].reason@
            != s[j].reason@
    &&& forall|reason: Seq<char>| #[trigger]
        failures_upto(list, reason, n) > 0 ==> exists|i: int|
            0 <= i < s.len() && (#[trigger] s[i]).reason@ == reason
}

proof fn lemma_failures(list: Seq<ParseOutcome>, reason: Seq<char>, upto: int)
    requires
        0 <= upto <= list.len(),
    ensures
        failures_upto(list, reason, upto) <= upto,
        failed_upto(list, upto) <= upto,
        skipped_upto(list, upto) <= upto,
    decreases upto,
{
    if upto > 0 {
        lemma_failures(list, reason, upto - 1);
    }
}

spec fn counted(m: TextMap<(usize, String)>, list: Seq<ParseOutcome>, upto: int) -> bool {
    forall|reason: Seq<char>|
        match #[trigger] m.spec_get(reason) {
            Some(e) => e.0 > 0 && e.0 == failures_upto(list, reason, upto) && e.1@ == first_failure(
                list,
                reason,
                upto,
            ),
            None => failures_upto(list, reason, upto) == 0,
        }
}

fn count_failures(list: &Vec<ParseOutcome>) -> (r: TextMap<(usize, String)>)
    ensures
        counted(r, list@, list@.len() as int),
{
    let mut m: TextMap<(usize, String)> = TextMap::new();
    let n: usize = list.len();
    let mut i: usize = 0;
    while i < n
        invariant
            n == list@.len(),
            i <= n,
            counted(m, list@, i as int),
        decreases n - i,
    {
        let ghost before = m;
        match &list[i] {
            ParseOutcome::Failed { path, reason } => {
                let next: (usize, String) = match m.get(reason) {
                    Some(e) => {
                        proof {
                            lemma_failures(list@, reason@, i as int);
                        }
                        (e.0 + 1, text::copy_of(&e.1))
                    },
                    None => (1, text::copy_of(path)),
                };
                m.insert(reason, next);
                proof {
                    crate::textmap::lemma_get_with(before, m, reason@, next);
                    assert forall|x: Seq<char>|
                        match #[trigger] m.spec_get(x) {
                            Some(e) => e.0 > 0 && e.0 == failures_upto(list@, x, i + 1) && e.1@
                                == first_failure(list@, x, i + 1),
                            None => failures_upto(list@, x, i + 1) == 0,
                        } by {
                        assert(match before.spec_get(x) {
                            Some(e) => e.0 > 0 && e.0 == failures_upto(list@, x, i as int) && e.1@
                                == first_failure(list@, x, i as int),
                            None => failures_upto(list@, x, i as int) == 0,
                        });
                        assert(fails_for(list@[i as int], x) <==> x == reason@);
                    }
                }
            },
            _ => {
                assert forall|x: Seq<char>|
                    match #[trigger] m.spec_get(x) {
                        Some(e) => e.0 > 0 && e.0 == failures_upto(list@, x, i + 1) && e.1@
                            == first_failure(list@, x, i + 1),
                        None => failures_upto(list@, x, i + 1) == 0,
                    } by {
                    assert(match before.spec_get(x) {
                        Some(e) => e.0 > 0 && e.0 == failures_upto(list@, x, i as int) && e.1@
                            == first_failure(list@, x, i as int),
                        None => failures_upto(list@, x, i as int) == 0,
                    });
                    assert(!fails_for(list@[i as int], x));
                }
            },
        }
        i = i + 1;
    }
    m
}

fn summarize_failures(list: &Vec<ParseOutcome>) -> (r: Vec<AssetParseErrorSummary>)
    ensures
        summarizes(r@, list@),
{
    let m = count_failures(list);
    m.note_keys_differ();
    let ghost pairs = m.pairs();
    let n: usize = m.len();
    let mut v: Vec<AssetParseErrorSummary> = Vec::new();
    let mut i: usize = 0;
    while i < n
        invariant
            pairs == m.pairs(),
            n == pairs.len(),
            i <= n,
            v@.len() == i,
            forall|j: int|
                0 <= j < i ==> (#[trigger] v@[j]).reason@ == pairs[j].0 && v@[j].count
                    == pairs[j].1.0 && v@[j].sample_path@ == pairs[j].1.1@,
        decreases n - i,
    {
        let e = m.value_at(i);
        v.push(
            AssetParseErrorSummary {
                reason: text::copy_of(m.key_at(i)),
                count: e.0,
                sample_path: text::copy_of(&e.1),
            },
        );
        i = i + 1;
    }
    let ghost u = v@;
    let r = sort(v);
    proof {
        let p = choose|p: Seq<int>| arrangement(u, r@, p);
        lemma_arrangement_onto(u, r@, p);
        let total = list@.len() as int;
        assert forall|j: int| 0 <= j < n implies m.spec_get((#[trigger] pairs[j]).0) == Some(
            pairs[j].1,
        ) by {
            crate::textmap::lemma_key_position(pairs, pairs[j].0, 0);
        }
        assert forall|i: int| 0 <= i < r@.len() implies {
            let e = #[trigger] r@[i];
            e.count > 0 && e.count == failures_upto(list@, e.reason@, total) && e.sample_path@
                == first_failure(list@, e.reason@, total)
        } by {
            let j = p[i];
            assert(r@[i] == u[j]);
            assert(u[j].reason@ == pairs[j].0);
            assert(m.spec_get(pairs[j].0) == Some(pairs[j].1));
        }
        assert forall|i: int, j: int| 0 <= i < j < r@.len() implies (#[trigger] r@[i]).before(
            #[trigger] r@[j],
        ) && r@[i].reason@ != r@[j].reason@ by {
            assert(comes_first(u, p[i], p[j]));
            assert(r@[i] == u[p[i]]);
            assert(r@[j] == u[p[j]]);
            assert(p[i] != p[j]);
            assert(pairs[p[i]].0 != pairs[p[j]].0) by {
                if p[i] < p[j] {
                    assert(pairs[p[i]].0 != pairs[p[j]].0);
                } else {
                    assert(pairs[p[j]].0 != pairs[p[i]].0);
                }
            }
        }
        assert forall|reason: Seq<char>| #[trigger] failures_upto(list@, reason, total) > 0 implies exists|
            i: int,
        | 0 <= i < r@.len() && (#[trigger] r@[i]).reason@ == reason by {
            assert(m.spec_get(reason) is Some);
            crate::textmap::lemma_get_pair(m, reason);
            let j = crate::textmap::key_position(pairs, reason, 0);
            assert(p.contains(j));
            let i = choose|i: int| 0 <= i < p.len() && p[i] == j;
            assert(r@[i] == u[j]);
            assert(r@[i].reason@ == reason);
        }
    }
    r
}

/// Sums up what came of the files of a scan.
pub fn parse_asset_files(outcomes: Vec<ParseOutcome>) -> (r: AssetScanReport)
    ensures
        ({
            let n = outcomes@.len() as int;
            &&& r.total_seen == n
            &&& r.skipped == skipped_upto(outcomes@, n)
            &&& r.errors == failed_upto(outcomes@, n)
            &&& r.parsed@ == indexed_upto(outcomes@, n)
            &&& summarizes(r.error_summary@, outcomes@)
        }),
{
    let total_seen: usize = outcomes.len();
    let error_summary = summarize_failures(&outcomes);
    let ghost list = outcomes@;
    let mut rest = outcomes;
    let mut backwards: Vec<AssetRecord> = Vec::new();
    let mut skipped: usize = 0;
    let mut errors: usize = 0;
    let mut i: usize = total_seen;
    proof {
        lemma_failures(list, Seq::empty(), total_seen as int);
        assert(indexed_upto(list, total_seen as int) =~= indexed_upto(list, total_seen as int)
            + backwards@.reverse());
    }
    while i > 0
        invariant
            i <= total_seen == list.len(),
            rest@ == list.take(i as int),
            failed_upto(list, total_seen as int) == errors + failed_upto(list, i as int),
            skipped_upto(list, total_seen as int) == skipped + skipped_upto(list, i as int),
            errors <= total_seen - i,
            skipped <= total_seen - i,
            indexed_upto(list, total_seen as int) == indexed_upto(list, i as int)
                + backwards@.reverse(),
        decreases i,
    {
        let ghost before = backwards@;
        let last = rest.pop();
        assert(list.take(i as int).drop_last() =~= list.take(i - 1));
        match last {
            Some(o) => {
                assert(o == list[i - 1]);
                match o {
                    ParseOutcome::Indexed(record) => {
                        backwards.push(record);
                        assert(backwards@.reverse() =~= seq![record] + before.reverse());
                        assert(indexed_upto(list, i - 1).push(record) + before.reverse()
                            =~= indexed_upto(list, i - 1) + backwards@.reverse());
                    },
                    ParseOutcome::Skipped => {
                        skipped = skipped + 1;
                    },
                    ParseOutcome::Failed { .. } => {
                        errors = errors + 1;
                    },
                }
            },
            None => {},
        }
        i = i - 1;
    }
    let mut parsed: Vec<AssetRecord> = Vec::new();
    let ghost all = backwards@;
    while backwards.len() > 0
        invariant
            backwards@.len() <= all.len(),
            backwards@ == all.take(backwards@.len() as int),
            parsed@.len() == all.len() - backwards@.len(),
            forall|j: int| 0 <= j < parsed@.len() ==> parsed@[j] == all[all.len() - 1 - j],
        decreases backwards@.len(),
    {
        let ghost left = backwards@;
        match backwards.pop() {
            Some(record) => {
                parsed.push(record);
            },
            None => {},
        }
        assert(left.drop_last() =~= all.take(left.len() - 1));
    }
    assert(parsed@ =~= all.reverse());
    assert(parsed@ =~= indexed_upto(list, list.len() as int));
    AssetScanReport { total_seen, skipped, errors, parsed, error_summary }
}

/// Progress is reported for the first file, the last, and every so many in between.
pub fn reports_progress(current: usize, total: usize) -> (r: bool)
    ensures
        r == (current == total || current == 1 || current as int % ASSET_PROGRESS_EVERY as int == 0),
{
    current == total || current == 1 || current % ASSET_PROGRESS_EVERY == 0
}

/// How far a scan is, in thousandths.
pub open spec fn progress_bucket(current: int, total: int) -> int {
    let whole = if total < 1 { 1 } else { total };
    let part = current * 1000 / whole;
    if part > 1000 { 1000 } else { part }
}

/// Whether a scan reports its progress after a file, and the last thousandth that was reported
/// then: for the first file, the last and every so many, and wherever a new thousandth is reached.
pub fn scan_progress(current: usize, total: usize, reported: usize) -> (r: (bool, usize))
    ensures
        ({
            let bucket = progress_bucket(current as int, total as int);
            let plain = current == total || current == 1 || current as int
                % ASSET_PROGRESS_EVERY as int == 0;
            let moved = reported < bucket < 1000;
            r == (plain || moved, if !plain && moved {
                bucket as usize
            } else {
                reported
            })
        }),
{
    let plain = reports_progress(current, total);
    let whole: usize = if total < 1 {
        1
    } else {
        total
    };
    assert(current as u128 * 1000 <= 0xffff_ffff_ffff_ffff * 1000);
    let part: u128 = current as u128 * 1000 / whole as u128;
    let bucket: usize = if part > 1000 {
        1000
    } else {
        part as usize
    };
    if plain {
        (true, reported)
    } else if reported < bucket && bucket < 1000 {
        (true, bucket)
    } else {
        (false, reported)
    }
}

/// Every file that was seen is indexed, skipped or failed.
pub proof fn scanned_files_are_accounted_for(list: Seq<ParseOutcome>, upto: int)
    requires
        0 <= upto <= list.len(),
    ensures
        indexed_upto(list, upto).len() + skipped_upto(list, upto) + failed_upto(list, upto) == upto,
    decreases upto,
{
    if upto > 0 {
        scanned_files_are_accounted_for(list, upto - 1);
    }
}

proof fn lemma_files_from(list: Seq<(Seq<char>, u64)>, k: int)
    requires
        0 <= k <= list.len(),
    ensures
        forall|i: int|
            0 <= i < files_from(list, k).len() ==> stands_first(
                list,
                #[trigger] files_from(list, k)[i],
                k,
            ),
        forall|i: int, j: int|
            0 <= i < j < files_from(list, k).len() ==> (#[trigger] files_from(list, k)[i]).0 != (
            #[trigger] files_from(list, k)[j]).0,
        forall|m: int|
            k <= m < list.len() && !path_before(list, (#[trigger] list[m]).0, m) ==> files_from(
                list,
                k,
            ).contains(list[m]),
    decreases list.len() - k,
{
    let all = files_from(list, k);
    if k < list.len() {
        lemma_files_from(list, k + 1);
        let rest = files_from(list, k + 1);
        if !path_before(list, list[k].0, k) {
            assert(first_at(list, list[k], k));
            assert forall|i: int| 0 <= i < all.len() implies stands_first(
                list,
                #[trigger] all[i],
                k,
            ) by {
                if i > 0 {
                    assert(all[i] == rest[i - 1]);
                    let m = choose|m: int| k + 1 <= m && #[trigger] first_at(list, rest[i - 1], m);
                    assert(first_at(list, all[i], m));
                }
            }
            assert forall|i: int, j: int| 0 <= i < j < all.len() implies (#[trigger] all[i]).0 != (
            #[trigger] all[j]).0 by {
                assert(all[j] == rest[j - 1]);
                if i > 0 {
                    assert(all[i] == rest[i - 1]);
                } else {
                    let m = choose|m: int| k + 1 <= m && #[trigger] first_at(list, rest[j - 1], m);
                    assert(list[k].0 == all[0].0);
                }
            }
            assert forall|m: int|
                k <= m < list.len() && !path_before(
                    list,
                    (#[trigger] list[m]).0,
                    m,
                ) implies all.contains(list[m]) by {
                if m == k {
                    assert(all[0] == list[m]);
                } else {
                    assert(rest.contains(list[m]));
                    let i = choose|i: int| 0 <= i < rest.len() && rest[i] == list[m];
                    assert(all[i + 1] == list[m]);
                }
            }
        } else {
            assert forall|i: int| 0 <= i < all.len() implies stands_first(
                list,
                #[trigger] all[i],
                k,
            ) by {
                let m = choose|m: int| k + 1 <= m && #[trigger] first_at(list, rest[i], m);
                assert(first_at(list, all[i], m));
            }
        }
    }
}

/// The file stands at position `m`, and its path not before it.
pub open spec fn first_at(list: Seq<(Seq<char>, u64)>, file: (Seq<char>, u64), m: int) -> bool {
    0 <= m < list.len() && list[m] == file && !path_before(list, file.0, m)
}

pub open spec fn stands_first(list: Seq<(Seq<char>, u64)>, file: (Seq<char>, u64), k: int) -> bool {
    exists|m: int| k <= m && #[trigger] first_at(list, file, m)
}

/// The files that are read are among those that a walk came upon, and no path is read twice. None
/// is left out: the first file of every path is read.
pub proof fn each_path_is_read_once(list: Seq<(Seq<char>, u64)>)
    ensures
        forall|i: int|
            0 <= i < files_from(list, 0).len() ==> list.contains(#[trigger] files_from(list, 0)[i]),
        forall|i: int, j: int|
            0 <= i < j < files_from(list, 0).len() ==> (#[trigger] files_from(list, 0)[i]).0 != (
            #[trigger] files_from(list, 0)[j]).0,
        forall|m: int|
            0 <= m < list.len() && !path_before(list, (#[trigger] list[m]).0, m) ==> files_from(
                list,
                0,
            ).contains(list[m]),
{
    lemma_files_from(list, 0);
    let all = files_from(list, 0);
    assert forall|i: int| 0 <= i < all.len() implies list.contains(#[trigger] all[i]) by {
        assert(stands_first(list, all[i], 0));
        let m = choose|m: int| 0 <= m && #[trigger] first_at(list, all[i], m);
        assert(list[m] == all[i]);
    }
}

/// Larger files are read first, and every file that is to be read is read.
pub proof fn larger_files_are_read_first(list: Seq<(Seq<char>, u64)>)
    ensures
        ({
            let before = |a: (Seq<char>, u64), b: (Seq<char>, u64)| read_before(a, b);
            let r = sorted_by(list, before);
            &&& r.len() == list.len()
            &&& forall|i: int, j: int|
                0 <= i < j < r.len() ==> (#[trigger] r[i]).1 >= (#[trigger] r[j]).1
            &&& forall|x: (Seq<char>, u64)| #[trigger] r.contains(x) <==> list.contains(x)
        }),
{
    let before = |a: (Seq<char>, u64), b: (Seq<char>, u64)| read_before(a, b);
    assert forall|a: (Seq<char>, u64), b: (Seq<char>, u64)| #[trigger] before(a, b) || before(
        b,
        a,
    ) by {
        text::lemma_less_total(component_key(a.0), component_key(b.0));
    }
    assert forall|a: (Seq<char>, u64), b: (Seq<char>, u64), c: (Seq<char>, u64)| #[trigger]
        before(a, b) && #[trigger] before(b, c) implies before(a, c) by {
        if a.1 == b.1 && b.1 == c.1 {
            text::lemma_at_most_trans(component_key(a.0), component_key(b.0), component_key(c.0));
        }
    }
    let order = sorting_puts_in_order(list, before);
    let r = sorted_by(list, before);
    assert forall|i: int, j: int| 0 <= i < j < r.len() implies (#[trigger] r[i]).1 >= (
    #[trigger] r[j]).1 by {
        assert(before(r[i], r[j]));
    }
}

} // verus!
