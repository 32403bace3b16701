//! What is said of queries and their answers.
use vstd::prelude::*;

use crate::query::item::{
    as_int, as_text, field_of, int_or, items, or_empty, path_at, text_at, FieldView, Item, ItemView,
};
use crate::text;
use crate::textmap::TextMap;

verus! {

/// A setting that is switched on.
pub open spec fn switched_on(value: Option<Seq<char>>) -> bool {
    match value {
        Some(s) => {
            let t = text::trimmed(s);
            t == "1"@ || t == "true"@ || t == "TRUE"@ || t == "on"@ || t == "ON"@
        },
        None => false,
    }
}

pub fn log_enabled(value: Option<&str>) -> (r: bool)
    ensures
        r == switched_on(text::opt_str(value)),
{
    match value {
        Some(s) => {
            let t = text::trim(s);
            text::same(t, "1") || text::same(t, "true") || text::same(t, "TRUE") || text::same(
                t,
                "on",
            ) || text::same(t, "ON")
        },
        None => false,
    }
}

pub open spec fn result_sample(item: ItemView) -> Seq<char> {
    text_at(item, "name"@) + "<"@ + text_at(item, "type"@) + "> owner="@ + text_at(
        item,
        "class_name"@,
    ) + " path="@ + path_at(item)
}

/// The first six results in one line.
pub fn sample_fast_find_results(results: &[Item]) -> (r: String)
    ensures
        r@ == text::joined(
            items(results@).take(
                if results@.len() < 6 {
                    results@.len() as int
                } else {
                    6
                },
            ).map_values(|i: ItemView| result_sample(i)),
            " | "@,
        ),
{
    let n: usize = if results.len() < 6 {
        results.len()
    } else {
        6
    };
    let ghost list = items(results@).take(n as int).map_values(|i: ItemView| result_sample(i));
    let mut parts: Vec<String> = Vec::new();
    let mut i: usize = 0;
    while i < n
        invariant
            n <= results@.len(),
            list == items(results@).take(n as int).map_values(|i: ItemView| result_sample(i)),
            i <= n,
            parts@.len() == i,
            forall|j: int| 0 <= j < i ==> (#[trigger] parts@[j])@ == list[j],
        decreases n - i,
    {
        let item = &results[i];
        assert(list[i as int] == result_sample(item@));
        let mut s = text::concat3(item.text("name"), "<", item.text("type"));
        s = text::concat3(&s, "> owner=", item.text("class_name"));
        parts.push(text::concat3(&s, " path=", item.path()));
        i = i + 1;
    }
    assert(text::texts(parts@) =~= list);
    text::join(&parts, " | ")
}

/// The field under the first of three names that is there.
pub open spec fn first_field(item: ItemView, a: Seq<char>, b: Seq<char>, c: Seq<char>) -> Option<FieldView> {
    match field_of(item, a) {
        Some(f) => Some(f),
        None => match field_of(item, b) {
            Some(f) => Some(f),
            None => field_of(item, c),
        },
    }
}

fn first_text(item: &Item, a: &str, b: &str, c: &str) -> (r: String)
    ensures
        r@ == or_empty(as_text(first_field(item@, a@, b@, c@))),
{
    proof {
        reveal_strlit("");
        assert(""@ =~= Seq::<char>::empty());
    }
    let s = if item.get(a).is_some() {
        item.text(a)
    } else if item.get(b).is_some() {
        item.text(b)
    } else {
        item.text(c)
    };
    text::copy_of(s)
}

pub open spec fn item_sample(item: ItemView) -> Seq<char> {
    "name="@ + or_empty(as_text(first_field(item, "name"@, "label"@, "symbol_name"@))) + " kind="@
        + or_empty(as_text(first_field(item, "type"@, "kind"@, "symbol_type"@))) + " path="@
        + or_empty(as_text(first_field(item, "path"@, "file_path"@, "asset_path"@))) + " line="@
        + text::decimal(
        int_or(as_int(first_field(item, "line"@, "line_number"@, "line_number"@)), 0) as int,
    )
}

/// One item in one line.
pub fn sample_single_item(item: &Item) -> (r: String)
    ensures
        r@ == item_sample(item@),
{
    let line: i64 = match item.either_whole("line", "line_number") {
        Some(n) => n,
        None => 0,
    };
    let mut s = text::concat2("name=", &first_text(item, "name", "label", "symbol_name"));
    s = text::concat3(&s, " kind=", &first_text(item, "type", "kind", "symbol_type"));
    s = text::concat3(&s, " path=", &first_text(item, "path", "file_path", "asset_path"));
    text::concat3(&s, " line=", &text::decimal_i64(line))
}

/// An answer to a query, as far as it is reported.
pub enum Answer {
    Null,
    List(Vec<Item>),
    /// An object that holds a list under `items`.
    Items(Vec<Item>),
    /// An object that holds a list under `results`.
    Results(Vec<Item>),
    /// An object that holds a list under `signatures`.
    Signatures(Vec<Item>),
    Object(Item),
    /// Anything else, as it is written.
    Other(String),
}

pub open spec fn list_summary(name: Seq<char>, list: Seq<ItemView>) -> Seq<char> {
    name + " count="@ + text::decimal(list.len() as int) + " sample="@ + if list.len() > 0 {
        item_sample(list[0])
    } else {
        "-"@
    }
}

pub open spec fn answer_summary(a: Answer) -> Seq<char> {
    match a {
        Answer::Null => "null"@,
        Answer::List(v) => list_summary("array"@, items(v@)),
        Answer::Items(v) => list_summary("items"@, items(v@)),
        Answer::Results(v) => list_summary("results"@, items(v@)),
        Answer::Signatures(v) => list_summary("signatures"@, items(v@)),
        Answer::Object(i) => "object "@ + item_sample(i@),
        Answer::Other(s) => s@,
    }
}

fn summary_of(name: &str, list: &Vec<Item>) -> (r: String)
    ensures
        r@ == list_summary(name@, items(list@)),
{
    assert(items(list@).len() == list@.len());
    let sample = if list.len() > 0 {
        assert(items(list@)[0] == list@[0]@);
        sample_single_item(&list[0])
    } else {
        text::copy_of("-")
    };
    let s = text::concat3(name, " count=", &text::decimal_u64(list.len() as u64));
    text::concat3(&s, " sample=", &sample)
}

/// An answer in one line.
pub fn sample_value_summary(answer: &Answer) -> (r: String)
    ensures
        r@ == answer_summary(*answer),
{
    match answer {
        Answer::Null => text::copy_of("null"),
        Answer::List(v) => summary_of("array", v),
        Answer::Items(v) => summary_of("items", v),
        Answer::Results(v) => summary_of("results", v),
        Answer::Signatures(v) => summary_of("signatures", v),
        Answer::Object(i) => text::concat2("object ", &sample_single_item(i)),
        Answer::Other(s) => text::copy_of(s),
    }
}

// ---------------------------------------------------------------------------
// How long queries take
// ---------------------------------------------------------------------------
/// How often a query was asked, and how long that took in milliseconds.
#[derive(Clone, Copy, PartialEq, Eq, Structural, Debug)]
pub struct QueryPerfStat {
    pub count: u64,
    pub total_ms: u64,
    pub max_ms: u64,
    pub errors: u64,
}

pub open spec fn no_stat() -> QueryPerfStat {
    QueryPerfStat { count: 0, total_ms: 0, max_ms: 0, errors: 0 }
}

pub open spec fn stat_of(m: TextMap<QueryPerfStat>, label: Seq<char>) -> QueryPerfStat {
    match m.spec_get(label) {
        Some(s) => s,
        None => no_stat(),
    }
}

/// The statistics after one more query.
pub open spec fn noted(s: QueryPerfStat, elapsed_ms: u64, is_error: bool) -> QueryPerfStat {
    QueryPerfStat {
        count: (s.count + 1) as u64,
        total_ms: (s.total_ms + elapsed_ms) as u64,
        max_ms: if elapsed_ms > s.max_ms {
            elapsed_ms
        } else {
            s.max_ms
        },
        errors: if is_error {
            (s.errors + 1) as u64
        } else {
            s.errors
        },
    }
}

/// Takes note of a query.
pub fn record_query_perf(
    stats: &mut TextMap<QueryPerfStat>,
    label: &str,
    elapsed_ms: u64,
    is_error: bool,
)
    requires
        stat_of(*old(stats), label@).count < u64::MAX,
        stat_of(*old(stats), label@).errors < u64::MAX,
        stat_of(*old(stats), label@).total_ms + elapsed_ms <= u64::MAX,
    ensures
        stat_of(*final(stats), label@) == noted(
            stat_of(*old(stats), label@),
            elapsed_ms,
            is_error,
        ),
        forall|other: Seq<char>|
            other != label@ ==> #[trigger] stat_of(*final(stats), other) == stat_of(
                *old(stats),
                other,
            ),
{
    let s: QueryPerfStat = match stats.get(label) {
        Some(s) => *s,
        None => QueryPerfStat { count: 0, total_ms: 0, max_ms: 0, errors: 0 },
    };
    let next = QueryPerfStat {
        count: s.count + 1,
        total_ms: s.total_ms + elapsed_ms,
        max_ms: if elapsed_ms > s.max_ms {
            elapsed_ms
        } else {
            s.max_ms
        },
        errors: if is_error {
            s.errors + 1
        } else {
            s.errors
        },
    };
    let ghost before = *stats;
    stats.insert(label, next);
    proof {
        crate::textmap::lemma_get_with(before, *stats, label@, next);
    }
}

/// The statistics of a query in one line.
pub open spec fn stat_line(label: Seq<char>, s: QueryPerfStat) -> Seq<char> {
    label + " count="@ + text::decimal(s.count as int) + " avg="@ + text::decimal(
        if s.count == 0 {
            0
        } else {
            s.total_ms as int / s.count as int
        },
    ) + "ms max="@ + text::decimal(s.max_ms as int) + "ms errors="@ + text::decimal(
        s.errors as int,
    )
}

fn stat_text(label: &str, s: &QueryPerfStat) -> (r: String)
    ensures
        r@ == stat_line(label@, *s),
{
    let avg: u64 = if s.count == 0 {
        0
    } else {
        s.total_ms / s.count
    };
    let mut t = text::concat3(label, " count=", &text::decimal_u64(s.count));
    t = text::concat3(&t, " avg=", &text::decimal_u64(avg));
    t = text::concat3(&t, "ms max=", &text::decimal_u64(s.max_ms));
    text::concat3(&t, "ms errors=", &text::decimal_u64(s.errors))
}

pub open spec fn stat_lines(pairs: Seq<(Seq<char>, QueryPerfStat)>) -> Seq<Seq<char>> {
    pairs.map_values(|p: (Seq<char>, QueryPerfStat)| stat_line(p.0, p.1))
}

/// The statistics in one line, ordered.
pub fn flush_query_perf(stats: &TextMap<QueryPerfStat>) -> (r: String)
    ensures
        r@ == text::joined(crate::textset::sorted_set(stat_lines(stats.pairs())), " | "@),
{
    let ghost list = stat_lines(stats.pairs());
    let n: usize = stats.len();
    let mut parts: Vec<String> = Vec::new();
    let mut i: usize = 0;
    while i < n
        invariant
            n == stats.pairs().len(),
            list == stat_lines(stats.pairs()),
            i <= n,
            parts@.len() == i,
            forall|j: int| 0 <= j < i ==> (#[trigger] parts@[j])@ == list[j],
        decreases n - i,
    {
        parts.push(stat_text(stats.key_at(i), stats.value_at(i)));
        assert(list[i as int] == stat_line(stats.pairs()[i as int].0, stats.pairs()[i as int].1));
        i = i + 1;
    }
    assert(text::texts(parts@) =~= list);
    text::join(&crate::textset::sorted_strings(&parts), " | ")
}

} // verus!
