//! How well an item matches a query, and the order in which matches are shown.
use vstd::prelude::*;

use super::path::{normalize_path_key, path_key};
use crate::query::item::{
    as_int, as_text, field_of, has_like, identity, int_or, items, live_find_identity, live_identity,
    merged, path_at, result_identity, set_field_is_read_back, text_at, with_field, field_of_either, Field, FieldView, Item,
    ItemView, Likeness, Merged,
};
use crate::query::pattern::{compact, compact_identifier, type_letter};
use crate::sort::{lemma_sorted_by, orders, sort, sorted_by, sorting_puts_in_order, Ranked};
use crate::text;
use crate::textmap::TextMap;
use crate::textset::{ascending, same_members, sorted_strings};

verus! {

// ---------------------------------------------------------------------------
// How well an item matches
// ---------------------------------------------------------------------------
/// How well an item matches, the best first.
#[derive(Clone, Copy, PartialEq, Eq, Structural, Debug)]
pub enum MatchQuality {
    ExactSymbol,
    PrefixSymbol,
    NormalizedSymbol,
    FileNameMatch,
    OwnerClassMatch,
    TextMatch,
    Other,
}

pub open spec fn quality_rank(q: MatchQuality) -> u8 {
    match q {
        MatchQuality::ExactSymbol => 0,
        MatchQuality::PrefixSymbol => 1,
        MatchQuality::NormalizedSymbol => 2,
        MatchQuality::FileNameMatch => 3,
        MatchQuality::OwnerClassMatch => 4,
        MatchQuality::TextMatch => 5,
        MatchQuality::Other => 6,
    }
}

pub open spec fn quality_label(q: MatchQuality) -> Seq<char> {
    match q {
        MatchQuality::ExactSymbol => "exact_symbol"@,
        MatchQuality::PrefixSymbol => "prefix_symbol"@,
        MatchQuality::NormalizedSymbol => "normalized_symbol"@,
        MatchQuality::FileNameMatch => "file_name_match"@,
        MatchQuality::OwnerClassMatch => "owner_class_match"@,
        MatchQuality::TextMatch => "text_match"@,
        MatchQuality::Other => "other"@,
    }
}

impl MatchQuality {
    pub fn label(self) -> (r: &'static str)
        ensures
            r@ == quality_label(self),
    {
        match self {
            MatchQuality::ExactSymbol => "exact_symbol",
            MatchQuality::PrefixSymbol => "prefix_symbol",
            MatchQuality::NormalizedSymbol => "normalized_symbol",
            MatchQuality::FileNameMatch => "file_name_match",
            MatchQuality::OwnerClassMatch => "owner_class_match",
            MatchQuality::TextMatch => "text_match",
            MatchQuality::Other => "other",
        }
    }

    pub fn rank(self) -> (r: u8)
        ensures
            r == quality_rank(self),
    {
        match self {
            MatchQuality::ExactSymbol => 0,
            MatchQuality::PrefixSymbol => 1,
            MatchQuality::NormalizedSymbol => 2,
            MatchQuality::FileNameMatch => 3,
            MatchQuality::OwnerClassMatch => 4,
            MatchQuality::TextMatch => 5,
            MatchQuality::Other => 6,
        }
    }
}

/// The kind of a type, in lower case.
pub open spec fn class_like_kind(kind: Seq<char>) -> bool {
    kind == "class"@ || kind == "struct"@ || kind == "enum"@ || kind == "uclass"@ || kind
        == "ustruct"@ || kind == "uenum"@ || kind == "uinterface"@
}

pub fn is_class_like_kind(kind: &str) -> (r: bool)
    ensures
        r == class_like_kind(kind@),
{
    text::same(kind, "class") || text::same(kind, "struct") || text::same(kind, "enum")
        || text::same(kind, "uclass") || text::same(kind, "ustruct") || text::same(kind, "uenum")
        || text::same(kind, "uinterface")
}

/// The name is that of the type that the query means, with or without its prefix.
pub open spec fn type_fragment(name: Seq<char>, query: Seq<char>) -> bool {
    let n = compact(name);
    let q = compact(query);
    &&& text::byte_len(query) >= 6
    &&& n.len() > 0
    &&& q.len() > 0
    &&& n == q || n.len() == q.len() + 1 && type_letter(n[0]) && n.subrange(1, n.len() as int) == q
}

pub fn matches_unreal_type_fragment(name: &str, query: &str) -> (r: bool)
    ensures
        r == type_fragment(name@, query@),
{
    if text::bytes_in(query) < 6 {
        return false;
    }
    let n = compact_identifier(name);
    if n.as_str().is_empty() {
        return false;
    }
    let q = compact_identifier(query);
    if q.as_str().is_empty() {
        return false;
    }
    if text::same(&n, &q) {
        return true;
    }
    let c = n.as_str().get_char(0);
    if !(c == 'u' || c == 'a' || c == 'f' || c == 'e' || c == 'i') {
        return false;
    }
    let v = text::chars_of(&n);
    let rest = text::string_of(vstd::slice::slice_subrange(v.as_slice(), 1, v.len()));
    text::same(&rest, &q)
}

/// Where the `k`th character of the query is first met behind those before it.
pub open spec fn place(name: Seq<char>, query: Seq<char>, k: int) -> int
    decreases k,
{
    if k <= 0 {
        text::char_from(name, query[0], 0)
    } else {
        text::char_from(name, query[k], place(name, query, k - 1) + 1)
    }
}

/// The characters of the query are met in the name in their order, with few others between.
pub open spec fn fuzzy(name: Seq<char>, query: Seq<char>) -> bool {
    let m = query.len() as int;
    let allowed: int = if text::byte_len(query) <= 4 {
        1
    } else {
        2
    };
    &&& name.len() > 0
    &&& text::byte_len(query) >= 3
    &&& forall|k: int| 0 <= k < m ==> #[trigger] place(name, query, k) < name.len()
    &&& place(name, query, m - 1) - place(name, query, 0) + 1 - m <= allowed
    &&& forall|k: int|
        1 <= k < m ==> #[trigger] place(name, query, k) - place(name, query, k - 1) - 1 <= allowed
}

pub fn live_find_is_compact_fuzzy_match(compact_name: &str, compact_query: &str) -> (r: bool)
    ensures
        r == fuzzy(compact_name@, compact_query@),
{
    let ghost name = compact_name@;
    let ghost query = compact_query@;
    let bytes = text::bytes_in(compact_query);
    let v = text::chars_of(compact_name);
    let q = text::chars_of(compact_query);
    let n: usize = v.len();
    let m: usize = q.len();
    if n == 0 || bytes < 3 {
        return false;
    }
    if m == 0 {
        proof {
            assert(query =~= Seq::<char>::empty());
            assert(vstd::utf8::encode_utf8(query).len() == 0);
        }
        return false;
    }
    let allowed: usize = if bytes <= 4 {
        1
    } else {
        2
    };
    let first = text::char_pos(v.as_slice(), q[0], 0);
    if first >= n {
        assert(!(place(name, query, 0) < name.len()));
        return false;
    }
    let mut last: usize = first;
    let mut max_gap: usize = 0;
    let mut k: usize = 1;
    assert(last == place(name, query, 0));
    while k < m
        invariant
            v@ == name,
            q@ == query,
            name == compact_name@,
            query == compact_query@,
            n == name.len(),
            m == query.len(),
            1 <= k <= m,
            first == place(name, query, 0),
            last == place(name, query, k - 1),
            first <= last < n,
            last - first >= k - 1,
            forall|j: int| 0 <= j < k ==> #[trigger] place(name, query, j) < name.len(),
            forall|j: int|
                1 <= j < k ==> #[trigger] place(name, query, j) - place(name, query, j - 1) - 1
                    <= max_gap,
            max_gap == 0 || exists|j: int|
                1 <= j < k && max_gap == #[trigger] place(name, query, j) - place(
                    name,
                    query,
                    j - 1,
                ) - 1,
        decreases m - k,
    {
        let at = text::char_pos(v.as_slice(), q[k], last + 1);
        assert(at == place(name, query, k as int));
        if at >= n {
            return false;
        }
        proof {
            text::lemma_char_from(name, query[k as int], last + 1);
        }
        let gap: usize = at - last - 1;
        assert(gap == place(name, query, k as int) - place(name, query, k - 1) - 1);
        if gap > max_gap {
            max_gap = gap;
        }
        last = at;
        k = k + 1;
    }
    let extra: usize = last - first + 1 - m;
    extra <= allowed && max_gap <= allowed
}

/// The last part of a path, in lower case.
pub open spec fn filename(path: Seq<char>) -> Seq<char> {
    text::lower(text::last_part(path, '/'))
}

pub fn live_find_filename(path: &str) -> (r: String)
    ensures
        r@ == filename(path@),
{
    text::to_lower(text::last_part_of(path, '/'))
}

/// The compacted name is that of the query, or holds it, or holds its characters close together.
pub open spec fn compact_match(name: Seq<char>, query: Seq<char>) -> bool {
    name.len() > 0 && (text::has(name, query) || fuzzy(name, query))
}

/// How well an item matches a pattern.
pub open spec fn quality(item: ItemView, pattern: Seq<char>) -> MatchQuality {
    let query = text::lower(text::trimmed(pattern));
    let small = compact(text::trimmed(pattern));
    let kind = text::lower(text_at(item, "type"@));
    let name = text::lower(text_at(item, "name"@));
    let owner = text::lower(text_at(item, "class_name"@));
    let path = text::lower(path_at(item));
    let file = filename(path);
    let is_file = kind == "file"@;
    if kind == "text"@ {
        MatchQuality::TextMatch
    } else if class_like_kind(kind) && type_fragment(name, query) || name == query && !is_file {
        MatchQuality::ExactSymbol
    } else if query.len() > 0 && text::starts(name, query) && !is_file {
        MatchQuality::PrefixSymbol
    } else if !is_file && (if small.len() > 0 {
        compact_match(compact(name), small)
    } else {
        query.len() > 0 && text::has(name, query)
    }) {
        MatchQuality::NormalizedSymbol
    } else if is_file || file == query || query.len() > 0 && text::has(file, query) || small.len()
        > 0 && fuzzy(compact(file), small) {
        MatchQuality::FileNameMatch
    } else if query.len() > 0 && text::has(owner, query) {
        MatchQuality::OwnerClassMatch
    } else if query.len() > 0 && text::has(path, query) {
        MatchQuality::FileNameMatch
    } else {
        MatchQuality::Other
    }
}

pub fn live_find_match_quality(item: &Item, pattern: &str) -> (r: MatchQuality)
    ensures
        r == quality(item@, pattern@),
{
    let trimmed = text::trim(pattern);
    let query = text::to_lower(trimmed);
    let small = compact_identifier(trimmed);
    let kind = text::to_lower(item.text("type"));
    let name = text::to_lower(item.text("name"));
    let owner = text::to_lower(item.text("class_name"));
    let path = text::to_lower(item.path());
    let file = live_find_filename(&path);
    let is_file = text::same(&kind, "file");
    let asked = !query.as_str().is_empty();
    let asked_small = !small.as_str().is_empty();
    if text::same(&kind, "text") {
        return MatchQuality::TextMatch;
    }
    if is_class_like_kind(&kind) && matches_unreal_type_fragment(&name, &query) {
        return MatchQuality::ExactSymbol;
    }
    if text::same(&name, &query) && !is_file {
        return MatchQuality::ExactSymbol;
    }
    if asked && text::starts_with(&name, &query) && !is_file {
        return MatchQuality::PrefixSymbol;
    }
    if asked_small && !is_file {
        let small_name = compact_identifier(&name);
        if !small_name.as_str().is_empty() && (text::contains_text(&small_name, &small)
            || live_find_is_compact_fuzzy_match(&small_name, &small)) {
            return MatchQuality::NormalizedSymbol;
        }
    } else if asked && text::contains_text(&name, &query) && !is_file {
        return MatchQuality::NormalizedSymbol;
    }
    if is_file || text::same(&file, &query) || asked && text::contains_text(&file, &query)
        || asked_small && live_find_is_compact_fuzzy_match(&compact_identifier(&file), &small) {
        return MatchQuality::FileNameMatch;
    }
    if asked && text::contains_text(&owner, &query) {
        return MatchQuality::OwnerClassMatch;
    }
    if asked && text::contains_text(&path, &query) {
        return MatchQuality::FileNameMatch;
    }
    MatchQuality::Other
}

// ---------------------------------------------------------------------------
// The order of matches
// ---------------------------------------------------------------------------
pub open spec fn source_rank(item: ItemView) -> u8 {
    let s = text_at(item, "source"@);
    if s == "project"@ {
        0
    } else if s == "engine"@ {
        1
    } else {
        2
    }
}

pub fn live_find_source_rank(item: &Item) -> (r: u8)
    ensures
        r == source_rank(item@),
{
    let s = item.text("source");
    if text::same(s, "project") {
        0
    } else if text::same(s, "engine") {
        1
    } else {
        2
    }
}

pub open spec fn kind_rank(item: ItemView) -> u8 {
    let kind = text::lower(text_at(item, "type"@));
    if class_like_kind(kind) {
        0
    } else if kind == "define"@ || text::has(kind, "delegate"@) || text::has(kind, "event"@) {
        1
    } else if kind == "file"@ {
        2
    } else if text::has(kind, "function"@) || text::has(kind, "method"@) {
        3
    } else if kind == "text"@ {
        5
    } else {
        4
    }
}

pub fn live_find_kind_rank(item: &Item) -> (r: u8)
    ensures
        r == kind_rank(item@),
{
    let kind = text::to_lower(item.text("type"));
    if is_class_like_kind(&kind) {
        0
    } else if text::same(&kind, "define") || text::contains_text(&kind, "delegate")
        || text::contains_text(&kind, "event") {
        1
    } else if text::same(&kind, "file") {
        2
    } else if text::contains_text(&kind, "function") || text::contains_text(&kind, "method") {
        3
    } else if text::same(&kind, "text") {
        5
    } else {
        4
    }
}

/// The file belongs to others.
pub open spec fn foreign_path(path: Seq<char>) -> bool {
    let s = text::lower(path);
    text::has(s, "/thirdparty/"@) || text::has(s, "/source/thirdparty/"@) || text::has(
        s,
        "/framework/libs/"@,
    ) || text::has(s, "/external/"@)
}

/// How near an item is to the file that is edited.
pub open spec fn path_rank(
    item: ItemView,
    current_file: Option<Seq<char>>,
    current_module: Option<Seq<char>>,
) -> u8 {
    if current_file is Some && path_key(current_file->0) == path_key(path_at(item)) {
        0
    } else if current_module is Some && (match as_text(field_of(item, "module_name"@)) {
        Some(m) => text::same_caseless(m, current_module->0),
        None => false,
    }) {
        1
    } else if foreign_path(path_at(item)) {
        4
    } else {
        2
    }
}

pub fn live_find_path_rank(item: &Item, current_file: Option<&str>, current_module: Option<&str>) -> (r: u8)
    ensures
        r == path_rank(item@, text::opt_str(current_file), text::opt_str(current_module)),
{
    let path = item.path();
    match current_file {
        Some(current) => {
            if text::same(&normalize_path_key(current), &normalize_path_key(path)) {
                return 0;
            }
        },
        None => {},
    }
    match current_module {
        Some(module) => match item.text_opt("module_name") {
            Some(m) => {
                if text::eq_caseless(m, module) {
                    return 1;
                }
            },
            None => {},
        },
        None => {},
    }
    let s = text::to_lower(path);
    if text::contains_text(&s, "/thirdparty/") || text::contains_text(&s, "/source/thirdparty/")
        || text::contains_text(&s, "/framework/libs/") || text::contains_text(&s, "/external/") {
        return 4;
    }
    2
}

/// By what matches are ordered.
#[derive(Debug)]
pub struct LiveFindSortKey {
    pub quality: MatchQuality,
    pub source_rank: u8,
    pub path_rank: u8,
    pub kind_rank: u8,
    pub name: String,
    pub path: String,
    pub line: i64,
}

pub struct KeyView {
    pub quality: MatchQuality,
    pub source_rank: u8,
    pub path_rank: u8,
    pub kind_rank: u8,
    pub name: Seq<char>,
    pub path: Seq<char>,
    pub line: i64,
}

impl View for LiveFindSortKey {
    type V = KeyView;

    open spec fn view(&self) -> KeyView {
        KeyView {
            quality: self.quality,
            source_rank: self.source_rank,
            path_rank: self.path_rank,
            kind_rank: self.kind_rank,
            name: self.name@,
            path: self.path@,
            line: self.line,
        }
    }
}

pub open spec fn sort_key(
    item: ItemView,
    pattern: Seq<char>,
    current_file: Option<Seq<char>>,
    current_module: Option<Seq<char>>,
) -> KeyView {
    KeyView {
        quality: quality(item, pattern),
        source_rank: source_rank(item),
        path_rank: path_rank(item, current_file, current_module),
        kind_rank: kind_rank(item),
        name: text::lower(text_at(item, "name"@)),
        path: text::lower(path_at(item)),
        line: int_or(as_int(field_of(item, "line"@)), 1),
    }
}

pub fn live_find_sort_key(
    item: &Item,
    pattern: &str,
    current_file: Option<&str>,
    current_module: Option<&str>,
) -> (r: LiveFindSortKey)
    ensures
        r@ == sort_key(
            item@,
            pattern@,
            text::opt_str(current_file),
            text::opt_str(current_module),
        ),
{
    LiveFindSortKey {
        quality: live_find_match_quality(item, pattern),
        source_rank: live_find_source_rank(item),
        path_rank: live_find_path_rank(item, current_file, current_module),
        kind_rank: live_find_kind_rank(item),
        name: text::to_lower(item.text("name")),
        path: text::to_lower(item.path()),
        line: match item.whole("line") {
            Some(n) => n,
            None => 1,
        },
    }
}

/// The ranks of the first stand before those of the second.
pub open spec fn ranks_before(a: KeyView, b: KeyView) -> bool {
    let qa = quality_rank(a.quality);
    let qb = quality_rank(b.quality);
    qa < qb || qa == qb && (a.source_rank < b.source_rank || a.source_rank == b.source_rank && (
    a.path_rank < b.path_rank || a.path_rank == b.path_rank && a.kind_rank < b.kind_rank))
}

pub open spec fn same_ranks(a: KeyView, b: KeyView) -> bool {
    quality_rank(a.quality) == quality_rank(b.quality) && a.source_rank == b.source_rank
        && a.path_rank == b.path_rank && a.kind_rank == b.kind_rank
}

/// The first may stand before the second.
pub open spec fn key_before(a: KeyView, b: KeyView) -> bool {
    ranks_before(a, b) || same_ranks(a, b) && (text::less(a.name, b.name) || a.name == b.name && (
    text::less(a.path, b.path) || a.path == b.path && a.line <= b.line))
}

proof fn lemma_less_trans(a: Seq<char>, b: Seq<char>, c: Seq<char>)
    requires
        text::less(a, b),
        text::less(b, c),
    ensures
        text::less(a, c),
{
    text::lemma_less_total(a, b);
    text::lemma_less_total(b, c);
    text::lemma_at_most_trans(a, b, c);
    text::lemma_less_total(a, c);
}

proof fn lemma_key_total(a: KeyView, b: KeyView)
    ensures
        key_before(a, b) || key_before(b, a),
{
    text::lemma_less_total(a.name, b.name);
    text::lemma_less_total(a.path, b.path);
}

proof fn lemma_key_trans(a: KeyView, b: KeyView, c: KeyView)
    requires
        key_before(a, b),
        key_before(b, c),
    ensures
        key_before(a, c),
{
    if same_ranks(a, b) && same_ranks(b, c) {
        if text::less(a.name, b.name) && text::less(b.name, c.name) {
            lemma_less_trans(a.name, b.name, c.name);
        } else if a.name == b.name && b.name == c.name {
            if text::less(a.path, b.path) && text::less(b.path, c.path) {
                lemma_less_trans(a.path, b.path, c.path);
            }
        }
    }
}

/// A match with what orders it.
struct Match {
    key: LiveFindSortKey,
    item: Item,
}

spec fn match_view(m: Match) -> (KeyView, ItemView) {
    (m.key@, m.item@)
}

spec fn match_views(v: Seq<Match>) -> Seq<(KeyView, ItemView)> {
    v.map_values(|m: Match| match_view(m))
}

pub open spec fn match_before(a: (KeyView, ItemView), b: (KeyView, ItemView)) -> bool {
    key_before(a.0, b.0)
}

impl Ranked for Match {
    closed spec fn before(self, other: Self) -> bool {
        key_before(self.key@, other.key@)
    }

    proof fn before_total(a: Self, b: Self) {
        lemma_key_total(a.key@, b.key@);
    }

    proof fn before_trans(a: Self, b: Self, c: Self) {
        lemma_key_trans(a.key@, b.key@, c.key@);
    }

    fn may_precede(&self, other: &Self) -> (r: bool) {
        let a = &self.key;
        let b = &other.key;
        let qa: u8 = a.quality.rank();
        let qb: u8 = b.quality.rank();
        if qa != qb {
            return qa < qb;
        }
        if a.source_rank != b.source_rank {
            return a.source_rank < b.source_rank;
        }
        if a.path_rank != b.path_rank {
            return a.path_rank < b.path_rank;
        }
        if a.kind_rank != b.kind_rank {
            return a.kind_rank < b.kind_rank;
        }
        proof {
            text::lemma_less_total(a.name@, b.name@);
            text::lemma_less_total(a.path@, b.path@);
        }
        if !text::same(&a.name, &b.name) {
            return text::is_less(&a.name, &b.name);
        }
        if !text::same(&a.path, &b.path) {
            return text::is_less(&a.path, &b.path);
        }
        a.line <= b.line
    }
}

/// The items from position `k` on that match, with what orders them.
pub open spec fn matches_from(
    list: Seq<ItemView>,
    pattern: Seq<char>,
    current_file: Option<Seq<char>>,
    current_module: Option<Seq<char>>,
    k: int,
) -> Seq<(KeyView, ItemView)>
    decreases list.len() - k,
{
    if k < 0 || k >= list.len() {
        Seq::empty()
    } else {
        let rest = matches_from(list, pattern, current_file, current_module, k + 1);
        let key = sort_key(list[k], pattern, current_file, current_module);
        if key.quality is Other {
            rest
        } else {
            seq![(key, list[k])] + rest
        }
    }
}

pub open spec fn like_before(list: Seq<(KeyView, ItemView)>, key: Seq<char>, upto: int) -> bool {
    exists|i: int| 0 <= i < upto && live_identity((#[trigger] list[i]).1) == key
}

/// A match as it is shown: with its quality and its place.
pub open spec fn labelled(key: KeyView, item: ItemView, at: int) -> ItemView {
    with_field(
        with_field(item, "match_quality"@, FieldView::Text(quality_label(key.quality))),
        "backend_rank"@,
        FieldView::Int(at as i64),
    )
}

/// The matches from place `k` on as they are shown, without those that are like one before.
pub open spec fn labelled_from(list: Seq<(KeyView, ItemView)>, k: int) -> Seq<ItemView>
    decreases list.len() - k,
{
    if k < 0 || k >= list.len() {
        Seq::empty()
    } else if like_before(list, live_identity(list[k].1), k) {
        labelled_from(list, k + 1)
    } else {
        seq![labelled(list[k].0, list[k].1, k)] + labelled_from(list, k + 1)
    }
}

/// The items that match, the best first, each once.
pub open spec fn live_ranked(
    list: Seq<ItemView>,
    pattern: Seq<char>,
    current_file: Option<Seq<char>>,
    current_module: Option<Seq<char>>,
) -> Seq<ItemView> {
    labelled_from(
        sorted_by(
            matches_from(list, pattern, current_file, current_module, 0),
            |a: (KeyView, ItemView), b: (KeyView, ItemView)| match_before(a, b),
        ),
        0,
    )
}

fn collect_matches(
    results: &[Item],
    pattern: &str,
    current_file: Option<&str>,
    current_module: Option<&str>,
) -> (r: Vec<Match>)
    ensures
        match_views(r@) == matches_from(
            items(results@),
            pattern@,
            text::opt_str(current_file),
            text::opt_str(current_module),
            0,
        ),
{
    let ghost list = items(results@);
    let ghost cf = text::opt_str(current_file);
    let ghost cm = text::opt_str(current_module);
    let mut r: Vec<Match> = Vec::new();
    let n: usize = results.len();
    let mut i: usize = 0;
    assert(match_views(r@) =~= Seq::<(KeyView, ItemView)>::empty());
    while i < n
        invariant
            list == items(results@),
            cf == text::opt_str(current_file),
            cm == text::opt_str(current_module),
            n == results@.len(),
            i <= n,
            matches_from(list, pattern@, cf, cm, 0) =~= match_views(r@) + matches_from(
                list,
                pattern@,
                cf,
                cm,
                i as int,
            ),
        decreases n - i,
    {
        assert(list[i as int] == results@[i as int]@);
        let key = live_find_sort_key(&results[i], pattern, current_file, current_module);
        let ghost shown = key@;
        if live_find_should_keep_match(key.quality) {
            let ghost before = match_views(r@);
            r.push(Match { key, item: results[i].copy() });
            assert(match_views(r@) =~= before.push((shown, list[i as int])));
        }
        i = i + 1;
    }
    assert(match_views(r@) =~= matches_from(list, pattern@, cf, cm, 0));
    r
}

pub fn live_find_should_keep_match(quality: MatchQuality) -> (r: bool)
    ensures
        r == !(quality is Other),
{
    quality != MatchQuality::Other
}

fn label_matches(ranked: &Vec<Match>) -> (r: Vec<Item>)
    ensures
        items(r@) == labelled_from(match_views(ranked@), 0),
{
    let ghost list = match_views(ranked@);
    let mut seen: TextMap<bool> = TextMap::new();
    let mut r: Vec<Item> = Vec::new();
    let n: usize = ranked.len();
    let mut i: usize = 0;
    assert(items(r@) =~= Seq::<ItemView>::empty());
    while i < n
        invariant
            list == match_views(ranked@),
            n == ranked@.len(),
            i <= n,
            forall|s: Seq<char>|
                (#[trigger] seen.spec_get(s)) is Some <==> like_before(list, s, i as int),
            labelled_from(list, 0) =~= items(r@) + labelled_from(list, i as int),
        decreases n - i,
    {
        let m = &ranked[i];
        assert(list[i as int] == (m.key@, m.item@));
        let id = live_find_identity(&m.item);
        let ghost before = seen;
        let ghost so_far = items(r@);
        assert(seen.spec_get(id@) is Some <==> like_before(list, id@, i as int));
        if !seen.contains(&id) {
            let mut item = m.item.copy();
            item.set("match_quality", Field::text(m.key.quality.label()));
            item.set("backend_rank", Field::Int(i as i64));
            assert(item@ == labelled(m.key@, m.item@, i as int));
            r.push(item);
            assert(items(r@) =~= so_far.push(item@));
        }
        seen.insert(&id, true);
        proof {
            crate::textmap::lemma_get_with(before, seen, id@, true);
            assert forall|s: Seq<char>|
                (#[trigger] seen.spec_get(s)) is Some <==> like_before(list, s, i + 1) by {
                assert(before.spec_get(s) is Some <==> like_before(list, s, i as int));
                if like_before(list, s, i as int) {
                    let j = choose|j: int| 0 <= j < i && live_identity((#[trigger] list[j]).1) == s;
                    assert(live_identity(list[j].1) == s);
                }
                if s == id@ {
                    assert(live_identity(list[i as int].1) == s);
                }
            }
        }
        i = i + 1;
    }
    assert(items(r@) =~= labelled_from(list, 0));
    r
}

/// Orders the matches, and drops what does not match or is there already.
pub fn rank_live_find_results(
    results: &[Item],
    pattern: &str,
    current_file: Option<&str>,
    current_module: Option<&str>,
) -> (r: Vec<Item>)
    ensures
        items(r@) == live_ranked(
            items(results@),
            pattern@,
            text::opt_str(current_file),
            text::opt_str(current_module),
        ),
{
    let unsorted = collect_matches(results, pattern, current_file, current_module);
    let ghost before = unsorted@;
    let sorted = sort(unsorted);
    proof {
        lemma_sorted_by(
            before,
            sorted@,
            |m: Match| match_view(m),
            |a: (KeyView, ItemView), b: (KeyView, ItemView)| match_before(a, b),
        );
    }
    label_matches(&sorted)
}

// ---------------------------------------------------------------------------
// Counting and joining results
// ---------------------------------------------------------------------------
/// The item is a good match: a symbol of the name that was asked for, or nearly.
pub open spec fn good_match(item: ItemView) -> bool {
    let q = text_at(item, "match_quality"@);
    q == "exact_symbol"@ || q == "prefix_symbol"@ || q == "normalized_symbol"@
}

pub open spec fn good_matches(list: Seq<ItemView>, upto: int) -> nat
    decreases upto,
{
    if upto <= 0 {
        0
    } else {
        good_matches(list, upto - 1) + if good_match(list[upto - 1]) {
            1nat
        } else {
            0nat
        }
    }
}

/// How many of the results are good matches.
pub fn live_find_hqh_count(results: &[Item]) -> (r: usize)
    ensures
        r == good_matches(items(results@), results@.len() as int),
        r <= results@.len(),
{
    let ghost list = items(results@);
    let n: usize = results.len();
    let mut count: usize = 0;
    let mut i: usize = 0;
    while i < n
        invariant
            list == items(results@),
            n == results@.len(),
            i <= n,
            count <= i,
            count == good_matches(list, i as int),
        decreases n - i,
    {
        assert(list[i as int] == results@[i as int]@);
        let q = results[i].text("match_quality");
        if text::same(q, "exact_symbol") || text::same(q, "prefix_symbol") || text::same(
            q,
            "normalized_symbol",
        ) {
            count = count + 1;
        }
        i = i + 1;
    }
    count
}

/// The paths of the items from position `k` on, in lower case.
pub open spec fn paths_from(list: Seq<ItemView>, k: int) -> Seq<Seq<char>>
    decreases list.len() - k,
{
    if k < 0 || k >= list.len() {
        Seq::empty()
    } else {
        match as_text(field_of_either(list[k], "path"@, "file_path"@)) {
            Some(p) => seq![text::lower(p)] + paths_from(list, k + 1),
            None => paths_from(list, k + 1),
        }
    }
}

proof fn lemma_ascending_is_a_set(r: Seq<Seq<char>>, list: Seq<Seq<char>>)
    requires
        ascending(r),
        same_members(r, list),
    ensures
        r.len() == list.to_set().len(),
{
    assert(r.no_duplicates()) by {
        assert forall|i: int, j: int| 0 <= i < r.len() && 0 <= j < r.len() && i != j implies r[i]
            != r[j] by {
            text::lemma_less_total(r[i], r[j]);
        }
    }
    r.unique_seq_to_set();
    assert(r.to_set() =~= list.to_set()) by {
        assert forall|s: Seq<char>| r.to_set().contains(s) == list.to_set().contains(s) by {
            assert(r.contains(s) == list.contains(s));
        }
    }
}

/// How many files the results lie in.
pub fn result_path_count(results: &[Item]) -> (r: usize)
    ensures
        r == paths_from(items(results@), 0).to_set().len(),
        r <= results@.len(),
{
    let ghost list = items(results@);
    let mut paths: Vec<String> = Vec::new();
    let n: usize = results.len();
    let mut i: usize = 0;
    assert(text::texts(paths@) =~= Seq::<Seq<char>>::empty());
    while i < n
        invariant
            list == items(results@),
            n == results@.len(),
            i <= n,
            paths@.len() <= i,
            paths_from(list, 0) =~= text::texts(paths@) + paths_from(list, i as int),
        decreases n - i,
    {
        assert(list[i as int] == results@[i as int]@);
        match results[i].either_text("path", "file_path") {
            Some(p) => {
                let ghost before = text::texts(paths@);
                paths.push(text::to_lower(p));
                assert(text::texts(paths@) =~= before.push(text::lower(p@)));
            },
            None => {},
        }
        i = i + 1;
    }
    assert(text::texts(paths@) =~= paths_from(list, 0));
    let sorted = sorted_strings(&paths);
    assert(text::texts(sorted@).len() == sorted@.len());
    proof {
        lemma_ascending_is_a_set(text::texts(sorted@), text::texts(paths@));
        text::texts(paths@).lemma_cardinality_of_set();
    }
    sorted.len()
}

/// Joins results of another source, up to a limit, without those that are there already.
pub fn merge_query_results(target: Vec<Item>, extra: &[Item], limit: usize) -> (r: Vec<Item>)
    ensures
        items(r@) == merged(Likeness::Result, items(target@), items(extra@), 0, limit as nat),
{
    let mut m = Merged::from_items(Likeness::Result, target);
    m.merge(extra, limit);
    m.items
}

/// The items of a page, from position `k` on, that were not sent before.
pub open spec fn unsent_from(page: Seq<ItemView>, sent: Seq<ItemView>, k: int) -> Seq<ItemView>
    decreases page.len() - k,
{
    if k < 0 || k >= page.len() {
        Seq::empty()
    } else if has_like(Likeness::Result, sent, identity(Likeness::Result, page[k])) {
        unsent_from(page, sent, k + 1)
    } else {
        seq![page[k]] + unsent_from(page, sent, k + 1)
    }
}

pub fn live_find_append_delta(final_page: &[Item], already_sent: Vec<Item>) -> (r: Vec<Item>)
    ensures
        items(r@) == unsent_from(items(final_page@), items(already_sent@), 0),
{
    let ghost list = items(final_page@);
    let ghost sent = items(already_sent@);
    let known = Merged::from_items(Likeness::Result, already_sent);
    let mut r: Vec<Item> = Vec::new();
    let n: usize = final_page.len();
    let mut i: usize = 0;
    assert(items(r@) =~= Seq::<ItemView>::empty());
    while i < n
        invariant
            list == items(final_page@),
            known.known(),
            known.kind == Likeness::Result,
            known@ == sent,
            n == final_page@.len(),
            i <= n,
            unsent_from(list, sent, 0) =~= items(r@) + unsent_from(list, sent, i as int),
        decreases n - i,
    {
        assert(list[i as int] == final_page@[i as int]@);
        let id = result_identity(&final_page[i]);
        assert(known.seen.spec_get(id@) is Some <==> has_like(Likeness::Result, sent, id@));
        if !known.seen.contains(&id) {
            let ghost before = items(r@);
            r.push(final_page[i].copy());
            assert(items(r@) =~= before.push(list[i as int]));
        }
        i = i + 1;
    }
    assert(items(r@) =~= unsent_from(list, sent, 0));
    r
}

// ---------------------------------------------------------------------------
// Types
// ---------------------------------------------------------------------------
/// By what the results of a search for types are ordered.
pub struct ClassRank {
    pub rank: u8,
    pub name: String,
    pub path: String,
    pub source_rank: u8,
}

pub struct ClassRankView {
    pub rank: u8,
    pub name: Seq<char>,
    pub path: Seq<char>,
    pub source_rank: u8,
}

impl View for ClassRank {
    type V = ClassRankView;

    open spec fn view(&self) -> ClassRankView {
        ClassRankView {
            rank: self.rank,
            name: self.name@,
            path: self.path@,
            source_rank: self.source_rank,
        }
    }
}

pub open spec fn class_rank(item: ItemView, pattern: Seq<char>) -> ClassRankView {
    let query = text::lower(text::trimmed(pattern));
    let name = text::lower(text_at(item, "name"@));
    let path = text::lower(text_at(item, "path"@));
    ClassRankView {
        rank: if name == query {
            0
        } else if query.len() == 0 {
            9
        } else if text::starts(name, query) {
            1
        } else if text::has(name, query) {
            2
        } else if text::has(text::lower(text_at(item, "class_name"@)), query) {
            3
        } else if text::has(text::lower(text_at(item, "module_name"@)), query) {
            4
        } else if text::has(path, query) {
            5
        } else {
            9
        },
        name,
        path,
        source_rank: source_rank(item),
    }
}

pub fn class_symbol_result_rank(item: &Item, pattern: &str) -> (r: ClassRank)
    ensures
        r@ == class_rank(item@, pattern@),
{
    let query = text::to_lower(text::trim(pattern));
    let name = text::to_lower(item.text("name"));
    let class_name = text::to_lower(item.text("class_name"));
    let module_name = text::to_lower(item.text("module_name"));
    let path = text::to_lower(item.text("path"));
    let rank: u8 = if text::same(&name, &query) {
        0
    } else if query.as_str().is_empty() {
        9
    } else if text::starts_with(&name, &query) {
        1
    } else if text::contains_text(&name, &query) {
        2
    } else if text::contains_text(&class_name, &query) {
        3
    } else if text::contains_text(&module_name, &query) {
        4
    } else if text::contains_text(&path, &query) {
        5
    } else {
        9
    };
    ClassRank { rank, name, path, source_rank: live_find_source_rank(item) }
}

pub open spec fn class_rank_before(a: ClassRankView, b: ClassRankView) -> bool {
    a.rank < b.rank || a.rank == b.rank && (text::less(a.name, b.name) || a.name == b.name && (
    text::less(a.path, b.path) || a.path == b.path && a.source_rank <= b.source_rank))
}

/// A result with what orders it.
struct ClassMatch {
    rank: ClassRank,
    item: Item,
}

impl Ranked for ClassMatch {
    closed spec fn before(self, other: Self) -> bool {
        class_rank_before(self.rank@, other.rank@)
    }

    proof fn before_total(a: Self, b: Self) {
        text::lemma_less_total(a.rank.name@, b.rank.name@);
        text::lemma_less_total(a.rank.path@, b.rank.path@);
    }

    proof fn before_trans(a: Self, b: Self, c: Self) {
        let x = a.rank@;
        let y = b.rank@;
        let z = c.rank@;
        if x.rank == y.rank && y.rank == z.rank {
            if text::less(x.name, y.name) && text::less(y.name, z.name) {
                lemma_less_trans(x.name, y.name, z.name);
            } else if x.name == y.name && y.name == z.name {
                if text::less(x.path, y.path) && text::less(y.path, z.path) {
                    lemma_less_trans(x.path, y.path, z.path);
                }
            }
        }
    }

    fn may_precede(&self, other: &Self) -> (r: bool) {
        let a = &self.rank;
        let b = &other.rank;
        if a.rank != b.rank {
            return a.rank < b.rank;
        }
        proof {
            text::lemma_less_total(a.name@, b.name@);
            text::lemma_less_total(a.path@, b.path@);
        }
        if !text::same(&a.name, &b.name) {
            return text::is_less(&a.name, &b.name);
        }
        if !text::same(&a.path, &b.path) {
            return text::is_less(&a.path, &b.path);
        }
        a.source_rank <= b.source_rank
    }
}

/// The items, without those that are like one before.
pub open spec fn distinct_items(kind: Likeness, list: Seq<ItemView>) -> Seq<ItemView> {
    merged(kind, Seq::empty(), list, 0, list.len())
}

/// The results of a search for types, each once, the best first.
pub open spec fn class_ranked(list: Seq<ItemView>, pattern: Seq<char>) -> Seq<ItemView> {
    sorted_by(
        distinct_items(Likeness::Class, list),
        |a: ItemView, b: ItemView|
            class_rank_before(class_rank(a, pattern), class_rank(b, pattern)),
    )
}

spec fn ranked_for(v: Seq<ClassMatch>, pattern: Seq<char>) -> bool {
    forall|i: int| 0 <= i < v.len() ==> (#[trigger] v[i]).rank@ == class_rank(v[i].item@, pattern)
}

pub fn dedupe_and_rank_class_symbol_results(results: &[Item], pattern: &str) -> (r: Vec<Item>)
    ensures
        items(r@) == class_ranked(items(results@), pattern@),
{
    let mut kept = Merged::new(Likeness::Class);
    assert(items(results@).len() == results@.len());
    kept.merge(results, results.len());
    let ghost list = kept@;
    assert(list == distinct_items(Likeness::Class, items(results@)));
    let n: usize = kept.items.len();
    let mut v: Vec<ClassMatch> = Vec::new();
    let mut i: usize = 0;
    while i < n
        invariant
            list == kept@,
            n == kept.items@.len(),
            i <= n,
            v@.len() == i,
            forall|j: int| 0 <= j < i ==> (#[trigger] v@[j]).item@ == list[j],
            ranked_for(v@, pattern@),
        decreases n - i,
    {
        assert(list[i as int] == kept.items@[i as int]@);
        let item = kept.items[i].copy();
        let rank = class_symbol_result_rank(&item, pattern);
        v.push(ClassMatch { rank, item });
        i = i + 1;
    }
    let ghost unsorted = v@;
    let sorted = sort(v);
    proof {
        lemma_sorted_by(
            unsorted,
            sorted@,
            |m: ClassMatch| m.item@,
            |a: ItemView, b: ItemView|
                class_rank_before(class_rank(a, pattern@), class_rank(b, pattern@)),
        );
    }
    let mut r: Vec<Item> = Vec::new();
    let mut k: usize = 0;
    while k < n
        invariant
            n == sorted@.len(),
            k <= n,
            r@.len() == k,
            forall|j: int| 0 <= j < k ==> (#[trigger] r@[j])@ == sorted@[j].item@,
        decreases n - k,
    {
        r.push(sorted[k].item.copy());
        k = k + 1;
    }
    proof {
        let view = |m: ClassMatch| m.item@;
        assert(unsorted.map_values(view) =~= list);
        assert(items(r@) =~= sorted@.map_values(view));
    }
    r
}

// ---------------------------------------------------------------------------
// What holds of ranked results
// ---------------------------------------------------------------------------
/// The marks of a match do not change which item it is.
pub proof fn labels_keep_identity(key: KeyView, item: ItemView, at: int)
    ensures
        live_identity(labelled(key, item, at)) == live_identity(item),
{
    let q = FieldView::Text(quality_label(key.quality));
    let a = with_field(item, "match_quality"@, q);
    let n = FieldView::Int(at as i64);
    reveal_strlit("match_quality");
    reveal_strlit("backend_rank");
    reveal_strlit("type");
    reveal_strlit("symbol_type");
    reveal_strlit("name");
    reveal_strlit("path");
    reveal_strlit("file_path");
    reveal_strlit("line");
    reveal_strlit("line_number");
    assert("symbol_type"@[0] == 's' && "match_quality"@[0] == 'm' && "backend_rank"@[0] == 'b');
    assert("file_path"@[0] == 'f' && "line_number"@[0] == 'l');
    set_field_is_read_back(item, "match_quality"@, q, "type"@);
    set_field_is_read_back(item, "match_quality"@, q, "symbol_type"@);
    set_field_is_read_back(item, "match_quality"@, q, "name"@);
    set_field_is_read_back(item, "match_quality"@, q, "path"@);
    set_field_is_read_back(item, "match_quality"@, q, "file_path"@);
    set_field_is_read_back(item, "match_quality"@, q, "line"@);
    set_field_is_read_back(item, "match_quality"@, q, "line_number"@);
    set_field_is_read_back(a, "backend_rank"@, n, "type"@);
    set_field_is_read_back(a, "backend_rank"@, n, "symbol_type"@);
    set_field_is_read_back(a, "backend_rank"@, n, "name"@);
    set_field_is_read_back(a, "backend_rank"@, n, "path"@);
    set_field_is_read_back(a, "backend_rank"@, n, "file_path"@);
    set_field_is_read_back(a, "backend_rank"@, n, "line"@);
    set_field_is_read_back(a, "backend_rank"@, n, "line_number"@);
}

/// The place in `list` of the `i`th match that is shown from place `k` on.
pub open spec fn shown_place(list: Seq<(KeyView, ItemView)>, k: int, i: int) -> int
    decreases list.len() - k,
{
    if k < 0 || k >= list.len() {
        k
    } else if like_before(list, live_identity(list[k].1), k) {
        shown_place(list, k + 1, i)
    } else if i <= 0 {
        k
    } else {
        shown_place(list, k + 1, i - 1)
    }
}

pub proof fn lemma_shown_place(list: Seq<(KeyView, ItemView)>, k: int, i: int)
    requires
        0 <= k,
        0 <= i < labelled_from(list, k).len(),
    ensures
        ({
            let p = shown_place(list, k, i);
            &&& k <= p < list.len()
            &&& labelled_from(list, k)[i] == labelled(list[p].0, list[p].1, p)
            &&& !like_before(list, live_identity(list[p].1), p)
        }),
    decreases list.len() - k,
{
    if k < list.len() {
        if like_before(list, live_identity(list[k].1), k) {
            lemma_shown_place(list, k + 1, i);
        } else if i > 0 {
            lemma_shown_place(list, k + 1, i - 1);
        }
    }
}

proof fn lemma_shown_places_rise(list: Seq<(KeyView, ItemView)>, k: int, i: int, j: int)
    requires
        0 <= k,
        0 <= i < j < labelled_from(list, k).len(),
    ensures
        shown_place(list, k, i) < shown_place(list, k, j),
    decreases list.len() - k,
{
    if k < list.len() {
        if like_before(list, live_identity(list[k].1), k) {
            lemma_shown_places_rise(list, k + 1, i, j);
        } else if i > 0 {
            lemma_shown_places_rise(list, k + 1, i - 1, j - 1);
        } else {
            lemma_shown_place(list, k + 1, j - 1);
        }
    }
}

/// Of what is shown, no two items are the same.
pub proof fn shown_matches_differ(list: Seq<(KeyView, ItemView)>, i: int, j: int)
    requires
        0 <= i < j < labelled_from(list, 0).len(),
    ensures
        live_identity(labelled_from(list, 0)[i]) != live_identity(labelled_from(list, 0)[j]),
{
    lemma_shown_place(list, 0, i);
    lemma_shown_place(list, 0, j);
    lemma_shown_places_rise(list, 0, i, j);
    let p = shown_place(list, 0, i);
    let q = shown_place(list, 0, j);
    labels_keep_identity(list[p].0, list[p].1, p);
    labels_keep_identity(list[q].0, list[q].1, q);
    assert(live_identity(list[p].1) != live_identity(list[q].1)) by {
        if live_identity(list[p].1) == live_identity(list[q].1) {
            assert(like_before(list, live_identity(list[q].1), q));
        }
    }
}

/// What is shown says how well it matches, and nothing is shown that does not match.
pub proof fn shown_matches_match(
    list: Seq<ItemView>,
    pattern: Seq<char>,
    current_file: Option<Seq<char>>,
    current_module: Option<Seq<char>>,
    k: int,
)
    ensures
        forall|i: int|
            0 <= i < matches_from(list, pattern, current_file, current_module, k).len() ==> {
                let m = #[trigger] matches_from(list, pattern, current_file, current_module, k)[i];
                m.0.quality == quality(m.1, pattern) && !(m.0.quality is Other) && list.contains(
                    m.1,
                )
            },
    decreases list.len() - k,
{
    if 0 <= k < list.len() {
        shown_matches_match(list, pattern, current_file, current_module, k + 1);
        let rest = matches_from(list, pattern, current_file, current_module, k + 1);
        let all = matches_from(list, pattern, current_file, current_module, k);
        assert forall|i: int| 0 <= i < all.len() implies {
            let m = #[trigger] all[i];
            m.0.quality == quality(m.1, pattern) && !(m.0.quality is Other) && list.contains(m.1)
        } by {
            if all.len() == rest.len() {
                assert(all[i] == rest[i]);
            } else if i > 0 {
                assert(all[i] == rest[i - 1]);
            } else {
                assert(list[k] == all[0].1);
            }
        }
    }
}

/// An exact match of the name of a symbol is the best that there is.
pub proof fn exact_name_matches_best(item: ItemView, pattern: Seq<char>)
    requires
        text::lower(text_at(item, "name"@)) == text::lower(text::trimmed(pattern)),
        text::lower(text_at(item, "type"@)) != "file"@,
        text::lower(text_at(item, "type"@)) != "text"@,
    ensures
        quality(item, pattern) == MatchQuality::ExactSymbol,
{
}

/// The match at place `p` is shown at `i`.
pub open spec fn shows_match(shown: Seq<ItemView>, all: Seq<(KeyView, ItemView)>, i: int, p: int) -> bool {
    0 <= p < all.len() && shown[i] == labelled(all[p].0, all[p].1, p)
}

pub proof fn lemma_matches_ordered()
    ensures
        orders(|a: (KeyView, ItemView), b: (KeyView, ItemView)| match_before(a, b)),
{
    let before = |a: (KeyView, ItemView), b: (KeyView, ItemView)| match_before(a, b);
    assert forall|a: (KeyView, ItemView), b: (KeyView, ItemView)| #[trigger] before(a, b) || before(
        b,
        a,
    ) by {
        lemma_key_total(a.0, b.0);
    }
    assert forall|a: (KeyView, ItemView), b: (KeyView, ItemView), c: (KeyView, ItemView)| #[trigger]
        before(a, b) && #[trigger] before(b, c) implies before(a, c) by {
        lemma_key_trans(a.0, b.0, c.0);
    }
}

/// What is shown comes in the order of the matches: no result is shown behind one that it should
/// stand before.
pub proof fn shown_matches_come_best_first(
    list: Seq<ItemView>,
    pattern: Seq<char>,
    current_file: Option<Seq<char>>,
    current_module: Option<Seq<char>>,
    i: int,
    j: int,
)
    requires
        0 <= i < j < live_ranked(list, pattern, current_file, current_module).len(),
    ensures
        ({
            let shown = live_ranked(list, pattern, current_file, current_module);
            let all = sorted_by(
                matches_from(list, pattern, current_file, current_module, 0),
                |a: (KeyView, ItemView), b: (KeyView, ItemView)| match_before(a, b),
            );
            exists|p: int, q: int| #[trigger]
                shows_match(shown, all, i, p) && #[trigger] shows_match(shown, all, j, q) && p < q
                    && key_before(all[p].0, all[q].0)
        }),
{
    let shown = live_ranked(list, pattern, current_file, current_module);
    let found = matches_from(list, pattern, current_file, current_module, 0);
    let before = |a: (KeyView, ItemView), b: (KeyView, ItemView)| match_before(a, b);
    let all = sorted_by(found, before);
    lemma_matches_ordered();
    let order = sorting_puts_in_order(found, before);
    lemma_shown_place(all, 0, i);
    lemma_shown_place(all, 0, j);
    lemma_shown_places_rise(all, 0, i, j);
    let p = shown_place(all, 0, i);
    let q = shown_place(all, 0, j);
    assert(shows_match(shown, all, i, p));
    assert(shows_match(shown, all, j, q));
    assert(before(all[p], all[q]));
}

/// The results of a search for types come best first; none of the distinct results is left out, and
/// none is added.
pub proof fn class_results_come_best_first(list: Seq<ItemView>, pattern: Seq<char>)
    ensures
        class_ranked(list, pattern).len() == distinct_items(Likeness::Class, list).len(),
        forall|i: int, j: int|
            0 <= i < j < class_ranked(list, pattern).len() ==> class_rank_before(
                class_rank(#[trigger] class_ranked(list, pattern)[i], pattern),
                class_rank(#[trigger] class_ranked(list, pattern)[j], pattern),
            ),
        forall|x: ItemView| #[trigger]
            class_ranked(list, pattern).contains(x) <==> distinct_items(
                Likeness::Class,
                list,
            ).contains(x),
{
    let before = |a: ItemView, b: ItemView|
        class_rank_before(class_rank(a, pattern), class_rank(b, pattern));
    assert forall|a: ItemView, b: ItemView| #[trigger] before(a, b) || before(b, a) by {
        let x = class_rank(a, pattern);
        let y = class_rank(b, pattern);
        text::lemma_less_total(x.name, y.name);
        text::lemma_less_total(x.path, y.path);
    }
    assert forall|a: ItemView, b: ItemView, c: ItemView| #[trigger] before(a, b) && #[trigger] before(
        b,
        c,
    ) implies before(a, c) by {
        let x = class_rank(a, pattern);
        let y = class_rank(b, pattern);
        let z = class_rank(c, pattern);
        if x.rank == y.rank && y.rank == z.rank {
            if text::less(x.name, y.name) && text::less(y.name, z.name) {
                lemma_less_trans(x.name, y.name, z.name);
            } else if x.name == y.name && y.name == z.name {
                if text::less(x.path, y.path) && text::less(y.path, z.path) {
                    lemma_less_trans(x.path, y.path, z.path);
                }
            }
        }
    }
    let kept = distinct_items(Likeness::Class, list);
    let order = sorting_puts_in_order(kept, before);
    assert(class_ranked(list, pattern) == sorted_by(kept, before));
    assert forall|i: int, j: int|
        0 <= i < j < class_ranked(list, pattern).len() implies class_rank_before(
        class_rank(#[trigger] class_ranked(list, pattern)[i], pattern),
        class_rank(#[trigger] class_ranked(list, pattern)[j], pattern),
    ) by {
        assert(before(sorted_by(kept, before)[i], sorted_by(kept, before)[j]));
    }
}

} // verus!
