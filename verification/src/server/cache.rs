//! Under which key an answer is remembered.
use std::collections::hash_map::DefaultHasher;
use std::hash::Hasher;
use vstd::prelude::*;

use crate::sort::{lemma_sorted_by, sort, sorted_by, sorting_puts_in_order, Ranked};
use crate::text;
use crate::textset::{ascending, ascending_list_is_unique, same_members};
use vstd::bytes::{spec_u64_to_le_bytes, u64_to_le_bytes};
use vstd::std_specs::hash::DefaultHasherAdditionalSpecFns;
use vstd::utf8::encode_utf8;

verus! {

/// A file that is open in an editor, as it stands there.
pub struct OpenBufferOverlay {
    pub file_path: String,
    pub content: String,
}

pub open spec fn overlay_view(o: OpenBufferOverlay) -> (Seq<char>, Seq<char>) {
    (o.file_path@, o.content@)
}

pub open spec fn overlay_views(v: Seq<OpenBufferOverlay>) -> Seq<(Seq<char>, Seq<char>)> {
    v.map_values(|o: OpenBufferOverlay| overlay_view(o))
}

/// What is written to a hasher for a text: its bytes, and one that no text holds.
pub open spec fn writes_of(s: Seq<char>) -> Seq<Seq<u8>> {
    seq![encode_utf8(s), seq![255u8]]
}

fn write_text(hasher: &mut DefaultHasher, s: &str)
    ensures
        final(hasher)@ == old(hasher)@ + writes_of(s@),
{
    let ghost before = hasher@;
    hasher.write(s.as_bytes());
    let end: [u8; 1] = [255u8];
    hasher.write(&end);
    assert(end@ =~= seq![255u8]);
    assert(hasher@ =~= before + writes_of(s@));
}

pub open spec fn text_hash(s: Seq<char>) -> u64 {
    DefaultHasher::spec_finish(writes_of(s))
}

pub fn hash_text(s: &str) -> (r: u64)
    ensures
        r == text_hash(s@),
{
    let mut hasher = DefaultHasher::new();
    write_text(&mut hasher, s);
    assert(hasher@ =~= writes_of(s@));
    hasher.finish()
}

/// What is written for the first `upto` of some files.
pub open spec fn overlay_writes(list: Seq<(Seq<char>, Seq<char>)>, upto: int) -> Seq<Seq<u8>>
    decreases upto,
{
    if upto <= 0 {
        Seq::empty()
    } else {
        overlay_writes(list, upto - 1) + writes_of(list[upto - 1].0) + writes_of(list[upto - 1].1)
    }
}

pub open spec fn path_order(a: (Seq<char>, Seq<char>), b: (Seq<char>, Seq<char>)) -> bool {
    text::at_most(a.0, b.0)
}

/// The files by their paths.
pub open spec fn by_path(list: Seq<(Seq<char>, Seq<char>)>) -> Seq<(Seq<char>, Seq<char>)> {
    sorted_by(list, |a: (Seq<char>, Seq<char>), b: (Seq<char>, Seq<char>)| path_order(a, b))
}

/// The hash of open files, taken by their paths; how many there are is written first.
pub open spec fn open_files_hash(list: Seq<(Seq<char>, Seq<char>)>) -> u64 {
    DefaultHasher::spec_finish(
        seq![spec_u64_to_le_bytes(list.len() as u64)] + overlay_writes(
            by_path(list),
            list.len() as int,
        ),
    )
}

impl Ranked for OpenBufferOverlay {
    open spec fn before(self, other: Self) -> bool {
        text::at_most(self.file_path@, other.file_path@)
    }

    proof fn before_total(a: Self, b: Self) {
        text::lemma_less_total(a.file_path@, b.file_path@);
    }

    proof fn before_trans(a: Self, b: Self, c: Self) {
        text::lemma_at_most_trans(a.file_path@, b.file_path@, c.file_path@);
    }

    fn may_precede(&self, other: &Self) -> (r: bool) {
        !text::is_less(&other.file_path, &self.file_path)
    }
}

pub fn hash_open_files(open_files: &Vec<OpenBufferOverlay>) -> (r: u64)
    ensures
        r == open_files_hash(overlay_views(open_files@)),
{
    let n: usize = open_files.len();
    let mut copies: Vec<OpenBufferOverlay> = Vec::new();
    let mut i: usize = 0;
    while i < n
        invariant
            n == open_files@.len(),
            i <= n,
            copies@.len() == i,
            forall|j: int|
                0 <= j < i ==> overlay_view(#[trigger] copies@[j]) == overlay_view(open_files@[j]),
        decreases n - i,
    {
        copies.push(
            OpenBufferOverlay {
                file_path: text::copy_of(&open_files[i].file_path),
                content: text::copy_of(&open_files[i].content),
            },
        );
        i = i + 1;
    }
    let ghost list = overlay_views(open_files@);
    assert(overlay_views(copies@) =~= list);
    let ghost unsorted = copies@;
    let entries = sort(copies);
    proof {
        lemma_sorted_by(
            unsorted,
            entries@,
            |o: OpenBufferOverlay| overlay_view(o),
            |a: (Seq<char>, Seq<char>), b: (Seq<char>, Seq<char>)| path_order(a, b),
        );
    }
    let ghost sorted = by_path(list);
    assert(overlay_views(entries@) == sorted);
    let mut hasher = DefaultHasher::new();
    let count = u64_to_le_bytes(n as u64);
    hasher.write(count.as_slice());
    let ghost head = seq![spec_u64_to_le_bytes(list.len() as u64)];
    assert(hasher@ =~= head);
    let mut k: usize = 0;
    assert(hasher@ =~= head + overlay_writes(sorted, 0));
    while k < n
        invariant
            overlay_views(entries@) == sorted,
            n == entries@.len(),
            k <= n,
            hasher@ == head + overlay_writes(sorted, k as int),
        decreases n - k,
    {
        assert(sorted[k as int] == (entries@[k as int].file_path@, entries@[k as int].content@));
        write_text(&mut hasher, &entries[k].file_path);
        write_text(&mut hasher, &entries[k].content);
        assert(hasher@ =~= head + overlay_writes(sorted, k + 1));
        k = k + 1;
    }
    hasher.finish()
}

pub open spec fn or_dash(s: Option<Seq<char>>) -> Seq<char> {
    match s {
        Some(t) => t,
        None => "-"@,
    }
}

fn str_or_dash(s: Option<&str>) -> (r: &str)
    ensures
        r@ == or_dash(text::opt_str(s)),
{
    match s {
        Some(t) => t,
        None => "-",
    }
}

/// The key of the diagnostics of a file.
pub fn diagnostics_cache_key(file_path: Option<&str>, content: &str, open_files: &Vec<OpenBufferOverlay>) -> (r:
    String)
    ensures
        r@ == or_dash(text::opt_str(file_path)) + ":"@ + text::decimal(text_hash(content@) as int)
            + ":"@ + text::decimal(open_files_hash(overlay_views(open_files@)) as int),
{
    let a = text::concat3(
        str_or_dash(file_path),
        ":",
        &text::decimal_u64(hash_text(content)),
    );
    text::concat3(&a, ":", &text::decimal_u64(hash_open_files(open_files)))
}

/// The key of a question about a place in the code.
pub fn navigation_cache_key(
    kind: &str,
    file_path: Option<&str>,
    content: &str,
    line: u32,
    character: u32,
    engine_db_path: Option<&str>,
) -> (r: String)
    ensures
        r@ == kind@ + ":"@ + or_dash(text::opt_str(file_path)) + ":"@ + text::decimal(
            text_hash(content@) as int,
        ) + ":"@ + text::decimal(line as int) + ":"@ + text::decimal(character as int) + ":"@
            + or_dash(text::opt_str(engine_db_path)),
{
    let a = text::concat3(kind, ":", str_or_dash(file_path));
    let b = text::concat3(&a, ":", &text::decimal_u64(hash_text(content)));
    let c = text::concat3(&b, ":", &text::decimal_u64(line as u64));
    let d = text::concat3(&c, ":", &text::decimal_u64(character as u64));
    text::concat3(&d, ":", str_or_dash(engine_db_path))
}

/// What is done about a question for diagnostics.
#[derive(Clone, Copy, PartialEq, Eq, Structural, Debug)]
pub enum DiagnosticsStep {
    /// The answer is remembered.
    Remembered,
    /// The index is being made anew; there is nothing to say.
    Nothing,
    /// The answer is computed, and remembered.
    Compute,
}

pub fn diagnostics_step(remembered: bool, refreshing: bool) -> (r: DiagnosticsStep)
    ensures
        r == if remembered {
            DiagnosticsStep::Remembered
        } else if refreshing {
            DiagnosticsStep::Nothing
        } else {
            DiagnosticsStep::Compute
        },
{
    if remembered {
        DiagnosticsStep::Remembered
    } else if refreshing {
        DiagnosticsStep::Nothing
    } else {
        DiagnosticsStep::Compute
    }
}

/// No path is there twice.
pub open spec fn paths_differ(list: Seq<(Seq<char>, Seq<char>)>) -> bool {
    forall|i: int, j: int|
        0 <= i < list.len() && 0 <= j < list.len() && (#[trigger] list[i]).0 == (
        #[trigger] list[j]).0 ==> i == j
}

spec fn paths_of(list: Seq<(Seq<char>, Seq<char>)>) -> Seq<Seq<char>> {
    list.map_values(|e: (Seq<char>, Seq<char>)| e.0)
}

proof fn lemma_by_path(list: Seq<(Seq<char>, Seq<char>)>)
    requires
        paths_differ(list),
    ensures
        by_path(list).len() == list.len(),
        ascending(paths_of(by_path(list))),
        forall|x: (Seq<char>, Seq<char>)| #[trigger] by_path(list).contains(x) <==> list.contains(x),
{
    let before = |a: (Seq<char>, Seq<char>), b: (Seq<char>, Seq<char>)| path_order(a, b);
    assert forall|a: (Seq<char>, Seq<char>), b: (Seq<char>, Seq<char>)| #[trigger] before(a, b)
        || before(b, a) by {
        text::lemma_less_total(a.0, b.0);
    }
    assert forall|
        a: (Seq<char>, Seq<char>),
        b: (Seq<char>, Seq<char>),
        c: (Seq<char>, Seq<char>),
    | #[trigger] before(a, b) && #[trigger] before(b, c) implies before(a, c) by {
        text::lemma_at_most_trans(a.0, b.0, c.0);
    }
    let p = sorting_puts_in_order(list, before);
    let r = by_path(list);
    let keys = paths_of(r);
    assert forall|i: int, j: int| 0 <= i < j < keys.len() implies text::less(
        #[trigger] keys[i],
        #[trigger] keys[j],
    ) by {
        assert(before(r[i], r[j]));
        text::lemma_less_total(r[i].0, r[j].0);
        assert(r[i] == list[p[i]] && r[j] == list[p[j]]);
        assert(p[i] != p[j]);
    }
}

/// The order in which files are open makes no difference to their hash.
pub proof fn open_files_may_stand_in_any_order(
    a: Seq<(Seq<char>, Seq<char>)>,
    b: Seq<(Seq<char>, Seq<char>)>,
)
    requires
        paths_differ(a),
        paths_differ(b),
        a.len() == b.len(),
        forall|x: (Seq<char>, Seq<char>)| #[trigger] a.contains(x) <==> b.contains(x),
    ensures
        open_files_hash(a) == open_files_hash(b),
{
    lemma_by_path(a);
    lemma_by_path(b);
    let r = by_path(a);
    let s = by_path(b);
    let x = paths_of(r);
    let y = paths_of(s);
    lemma_same_paths(a, b, r, s);
    lemma_same_paths(b, a, s, r);
    assert(same_members(x, y)) by {
        assert forall|k: Seq<char>| #[trigger] x.contains(k) <==> y.contains(k) by {}
    }
    ascending_list_is_unique(x, y);
    assert forall|i: int| 0 <= i < r.len() implies r[i] == s[i] by {
        assert(r.contains(r[i]));
        assert(a.contains(r[i]));
        assert(b.contains(r[i]));
        assert(s.contains(s[i]));
        assert(b.contains(s[i]));
        let m = choose|m: int| 0 <= m < b.len() && b[m] == r[i];
        let n = choose|n: int| 0 <= n < b.len() && b[n] == s[i];
        assert(x[i] == y[i]);
        assert(b[m].0 == b[n].0);
    }
    assert(r =~= s);
}

proof fn lemma_same_paths(
    a: Seq<(Seq<char>, Seq<char>)>,
    b: Seq<(Seq<char>, Seq<char>)>,
    r: Seq<(Seq<char>, Seq<char>)>,
    s: Seq<(Seq<char>, Seq<char>)>,
)
    requires
        forall|x: (Seq<char>, Seq<char>)| #[trigger] r.contains(x) <==> a.contains(x),
        forall|x: (Seq<char>, Seq<char>)| #[trigger] s.contains(x) <==> b.contains(x),
        forall|x: (Seq<char>, Seq<char>)| #[trigger] a.contains(x) ==> b.contains(x),
    ensures
        forall|k: Seq<char>| #[trigger] paths_of(r).contains(k) ==> paths_of(s).contains(k),
{
    assert forall|k: Seq<char>| #[trigger] paths_of(r).contains(k) implies paths_of(s).contains(
        k,
    ) by {
        let i = choose|i: int| 0 <= i < paths_of(r).len() && paths_of(r)[i] == k;
        assert(r.contains(r[i]));
        assert(a.contains(r[i]));
        assert(b.contains(r[i]));
        assert(s.contains(r[i]));
        let j = choose|j: int| 0 <= j < s.len() && s[j] == r[i];
        assert(paths_of(s)[j] == k);
    }
}

} // verus!
