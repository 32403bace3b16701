//! Find: which sources are searched for a pattern, in which order, and what of their answers is
//! shown.
//!
//! A pattern is searched by stages. Symbols come first, then files, then loose matches, then
//! lines of code; a stage is only asked for while the page is not full.
use vstd::prelude::*;

use super::bucket::{
    begun, bucketed_file_results, bucketed_symbol_results, fuzzy_files, fuzzy_symbols, opt_sql,
    search_files_fuzzy_fallback, search_symbols_fuzzy_fallback, BucketSearch, ParamView, SqlParam,
    SqlQuery, SqlView,
};
use super::hot_index::{query_answer, symbol_query_answer, HotView, SearchHotIndex};
use super::item::{
    all_differ, copy_items, identity, items, merged, merging_adds_new_items_only, page, page_of,
    text_at, Field, FieldView, Item, ItemView, Likeness, Merged,
};
use super::pattern::{
    clamped, class_like, compact, compact_identifier, identifier, is_class_like_symbol_type,
    is_explicit_type_query, is_identifier_query, normalize_path, saturated_sum, slashed_path,
    sum_or_max, type_query, within,
};
use crate::text;

verus! {

/// How many loose matches are asked for.
pub const FIND_FUZZY_FALLBACK_LIMIT: usize = 256;

/// The furthest that a page may begin.
pub const MAX_OFFSET: usize = 1_000_000;

/// The item is a type whose compacted name holds this text.
pub open spec fn strong_type_match(item: ItemView, c: Seq<char>) -> bool {
    class_like(text_at(item, "type"@)) && compact(text_at(item, "name"@)).len() > 0 && text::has(
        compact(text_at(item, "name"@)),
        c,
    )
}

/// The pattern asks for a type, and a type that it may mean is among the results.
pub open spec fn strong_match(list: Seq<ItemView>, pattern: Seq<char>) -> bool {
    let q = text::trimmed(pattern);
    type_query(q) && compact(q).len() > 0 && exists|i: int|
        0 <= i < list.len() && strong_type_match(#[trigger] list[i], compact(q))
}

pub fn has_strong_explicit_type_match(results: &[Item], pattern: &str) -> (r: bool)
    ensures
        r == strong_match(items(results@), pattern@),
{
    let q = text::trim(pattern);
    if !is_explicit_type_query(q) {
        return false;
    }
    let c = compact_identifier(q);
    if c.as_str().is_empty() {
        return false;
    }
    let ghost list = items(results@);
    let n: usize = results.len();
    let mut i: usize = 0;
    while i < n
        invariant
            list == items(results@),
            n == results@.len(),
            i <= n,
            q@ == text::trimmed(pattern@),
            type_query(q@),
            c@ == compact(q@),
            c@.len() > 0,
            forall|j: int| 0 <= j < i ==> !strong_type_match(#[trigger] list[j], c@),
        decreases n - i,
    {
        let item = &results[i];
        assert(list[i as int] == item@);
        if is_class_like_symbol_type(item.text("type")) {
            let name = compact_identifier(item.text("name"));
            if !name.as_str().is_empty() && text::contains_text(&name, &c) {
                assert(strong_type_match(list[i as int], c@));
                return true;
            }
        }
        i = i + 1;
    }
    false
}

/// The item is the type of this name.
pub open spec fn exact_type(item: ItemView, q: Seq<char>) -> bool {
    class_like(text_at(item, "type"@)) && text::same_caseless(text_at(item, "name"@), q)
}

/// Beside the type of this name, the item is still shown.
pub open spec fn beside_exact_type(item: ItemView, q: Seq<char>) -> bool {
    text::same_caseless(text_at(item, "name"@), q) || !class_like(text_at(item, "type"@))
        && text::same_caseless(text_at(item, "type"@), "file"@)
}

pub open spec fn shown_beside_from(list: Seq<ItemView>, q: Seq<char>, k: int) -> Seq<ItemView>
    decreases list.len() - k,
{
    if k < 0 || k >= list.len() {
        Seq::empty()
    } else if beside_exact_type(list[k], q) {
        seq![list[k]] + shown_beside_from(list, q, k + 1)
    } else {
        shown_beside_from(list, q, k + 1)
    }
}

/// The results without what merely contains the name of a type that is itself among them.
pub open spec fn suppressed(list: Seq<ItemView>, pattern: Seq<char>) -> Seq<ItemView> {
    let q = text::trimmed(pattern);
    if type_query(q) && exists|i: int|
        0 <= i < list.len() && exact_type(#[trigger] list[i], text::lower(q)) {
        shown_beside_from(list, text::lower(q), 0)
    } else {
        list
    }
}

pub fn suppress_broad_class_contains_when_exact_type_exists(results: &[Item], pattern: &str) -> (r: Vec<
    Item,
>)
    ensures
        items(r@) == suppressed(items(results@), pattern@),
{
    let trimmed = text::trim(pattern);
    if !is_explicit_type_query(trimmed) {
        return copy_items(results);
    }
    let q = text::to_lower(trimmed);
    let ghost list = items(results@);
    let n: usize = results.len();
    let mut has_exact_type_match = false;
    let mut i: usize = 0;
    while i < n
        invariant
            list == items(results@),
            n == results@.len(),
            i <= n,
            has_exact_type_match == exists|j: int|
                0 <= j < i && exact_type(#[trigger] list[j], q@),
        decreases n - i,
    {
        let item = &results[i];
        assert(list[i as int] == item@);
        if is_class_like_symbol_type(item.text("type")) && text::eq_caseless(
            item.text("name"),
            &q,
        ) {
            assert(exact_type(list[i as int], q@));
            has_exact_type_match = true;
        }
        i = i + 1;
    }
    if !has_exact_type_match {
        return copy_items(results);
    }
    let mut r: Vec<Item> = Vec::new();
    let mut k: usize = 0;
    assert(items(r@) =~= Seq::<ItemView>::empty());
    while k < n
        invariant
            list == items(results@),
            n == results@.len(),
            k <= n,
            shown_beside_from(list, q@, 0) =~= items(r@) + shown_beside_from(list, q@, k as int),
        decreases n - k,
    {
        let item = &results[k];
        assert(list[k as int] == item@);
        let named = text::eq_caseless(item.text("name"), &q);
        let kind = item.text("type");
        let keep = if is_class_like_symbol_type(kind) {
            named
        } else {
            text::eq_caseless(kind, "file") || named
        };
        if keep {
            let ghost before = items(r@);
            r.push(item.copy());
            assert(items(r@) =~= before.push(list[k as int]));
        }
        k = k + 1;
    }
    assert(items(r@) =~= shown_beside_from(list, q@, 0));
    r
}

/// How well the name of a symbol meets a pattern: it is the pattern, it begins with it, it holds it
/// (for the pattern of a name also without the signs between its words), or something else about
/// the symbol matches.
pub open spec fn symbol_group(item: ItemView, pattern: Seq<char>) -> int {
    let q = text::trimmed(pattern);
    let name = text_at(item, "name"@);
    if text::lower(name) == text::lower(q) {
        0
    } else if text::starts(text::lower(name), text::lower(q)) {
        1
    } else if text::has(text::lower(name), text::lower(q)) || (identifier(q) && compact(q).len() > 0
        && text::has(compact(name), compact(q))) {
        2
    } else {
        3
    }
}

/// The items of a group from position `k` on.
pub open spec fn group_from(list: Seq<ItemView>, pattern: Seq<char>, group: int, k: int) -> Seq<
    ItemView,
>
    decreases list.len() - k,
{
    if k < 0 || k >= list.len() {
        Seq::empty()
    } else if symbol_group(list[k], pattern) == group {
        seq![list[k]] + group_from(list, pattern, group, k + 1)
    } else {
        group_from(list, pattern, group, k + 1)
    }
}

/// The symbols group by group: exact names, beginnings of names, names that hold the pattern, the
/// others. Within a group their order stays.
pub open spec fn grouped(list: Seq<ItemView>, pattern: Seq<char>) -> Seq<ItemView> {
    group_from(list, pattern, 0, 0) + group_from(list, pattern, 1, 0) + group_from(
        list,
        pattern,
        2,
        0,
    ) + group_from(list, pattern, 3, 0)
}

fn group_of_symbol(item: &Item, pattern: &str) -> (r: u8)
    ensures
        r == symbol_group(item@, pattern@),
{
    let q = text::trim(pattern);
    let wanted = text::to_lower(q);
    let name = item.text("name");
    let lower_name = text::to_lower(name);
    if text::same(&lower_name, &wanted) {
        return 0;
    }
    if text::starts_with(&lower_name, &wanted) {
        return 1;
    }
    if text::contains_text(&lower_name, &wanted) {
        return 2;
    }
    if is_identifier_query(q) {
        let c = compact_identifier(q);
        if !c.as_str().is_empty() && text::contains_text(&compact_identifier(name), &c) {
            return 2;
        }
    }
    3
}

fn push_group(found: Vec<Item>, list: &[Item], pattern: &str, group: u8) -> (r: Vec<Item>)
    ensures
        items(r@) == items(found@) + group_from(items(list@), pattern@, group as int, 0),
{
    let ghost all = items(list@);
    let mut r = found;
    let n: usize = list.len();
    let mut k: usize = 0;
    while k < n
        invariant
            all == items(list@),
            n == list@.len(),
            k <= n,
            items(r@) + group_from(all, pattern@, group as int, k as int) =~= items(found@)
                + group_from(all, pattern@, group as int, 0),
        decreases n - k,
    {
        let item = &list[k];
        assert(all[k as int] == item@);
        if group_of_symbol(item, pattern) == group {
            let ghost before = items(r@);
            r.push(item.copy());
            assert(items(r@) =~= before.push(all[k as int]));
        }
        k = k + 1;
    }
    assert(items(r@) =~= items(found@) + group_from(all, pattern@, group as int, 0));
    r
}

fn in_groups(list: &[Item], pattern: &str) -> (r: Vec<Item>)
    ensures
        items(r@) == grouped(items(list@), pattern@),
{
    let exact = push_group(nothing(), list, pattern, 0);
    let beginnings = push_group(exact, list, pattern, 1);
    let inside = push_group(beginnings, list, pattern, 2);
    let r = push_group(inside, list, pattern, 3);
    assert(items(r@) =~= grouped(items(list@), pattern@));
    r
}

/// The ways to find.
#[derive(Clone, Copy, PartialEq, Eq, Structural, Debug)]
pub enum FindKind {
    /// Symbols of the store, by how well their names match.
    Symbols,
    /// Types of the store.
    Classes,
    /// Symbols and files of the store, and loose matches.
    Fast,
    /// The same, and lines of code.
    Global,
    /// Symbols of the index, then of the store.
    IndexedSymbols,
    /// Types of the index, then of the store.
    IndexedClasses,
    /// What the index finds, then what the store finds fast.
    IndexedFast,
    /// The same, and lines of code.
    IndexedGlobal,
}

/// What is to be asked next.
#[derive(Clone, Copy, PartialEq, Eq, Structural, Debug)]
pub enum FindStep {
    /// A page of all symbols.
    ListSymbols,
    /// A page of all types.
    ListClasses,
    /// The symbols that match, stage by stage.
    Symbols,
    /// The files that match, stage by stage.
    Files,
    /// Loose matches among the symbols.
    FuzzySymbols,
    /// Loose matches among the files.
    FuzzyFiles,
    /// Lines of code that match.
    CodeText,
    Done,
}

/// A search under way.
pub struct Find {
    pub kind: FindKind,
    pub pattern: String,
    pub limit: usize,
    pub offset: usize,
    /// How many results fill the page.
    pub target: usize,
    /// How many results are asked of the store.
    pub store_target: usize,
    pub step: FindStep,
    pub results: Vec<Item>,
    pub stored: Vec<Item>,
}

#[verifier::ext_equal]
pub struct FindView {
    pub kind: FindKind,
    pub pattern: Seq<char>,
    pub limit: usize,
    pub offset: usize,
    pub target: usize,
    pub store_target: usize,
    pub step: FindStep,
    pub results: Seq<ItemView>,
    pub stored: Seq<ItemView>,
}

pub open spec fn classes_only(kind: FindKind) -> bool {
    kind == FindKind::Classes || kind == FindKind::IndexedClasses
}

pub open spec fn most_per_page(kind: FindKind) -> usize {
    match kind {
        FindKind::Fast | FindKind::Global | FindKind::IndexedFast | FindKind::IndexedGlobal => 500,
        _ => 10_000,
    }
}

pub open spec fn asks_store_only(kind: FindKind) -> bool {
    kind == FindKind::Symbols || kind == FindKind::Classes
}

pub open spec fn offset_kept(offset: usize) -> usize {
    if offset > MAX_OFFSET {
        MAX_OFFSET
    } else {
        offset
    }
}

/// How many results fill a page.
pub open spec fn target_of(kind: FindKind, limit: usize, offset: usize) -> usize {
    if asks_store_only(kind) {
        within(sum_or_max(offset, limit), 1, 10_000)
    } else {
        sum_or_max(offset_kept(offset), within(limit, 1, most_per_page(kind)))
    }
}

pub open spec fn store_target_of(kind: FindKind, target: usize) -> usize {
    if kind == FindKind::IndexedGlobal {
        within(target, 1, 500)
    } else {
        target
    }
}

pub open spec fn join(list: Seq<ItemView>, more: Seq<ItemView>, limit: usize) -> Seq<ItemView> {
    merged(Likeness::Find, list, more, 0, limit as nat)
}

/// The search at its end.
pub open spec fn ended(v: FindView) -> FindView {
    FindView {
        step: FindStep::Done,
        results: if v.kind == FindKind::Fast || v.kind == FindKind::IndexedFast {
            suppressed(v.results, v.pattern)
        } else {
            v.results
        },
        ..v
    }
}

/// The search once the store has answered all it is asked for.
pub open spec fn store_done(v: FindView) -> FindView {
    match v.kind {
        FindKind::IndexedFast | FindKind::IndexedClasses | FindKind::IndexedSymbols => ended(
            FindView { results: join(v.results, v.stored, v.target), ..v },
        ),
        FindKind::IndexedGlobal => {
            let nested = page(
                suppressed(join(Seq::empty(), v.stored, v.store_target), v.pattern),
                0,
                v.store_target as nat,
            );
            text_next(FindView { results: join(v.results, nested, v.target), ..v })
        },
        FindKind::Global => text_next(FindView { results: v.stored, ..v }),
        FindKind::Symbols => ended(FindView { results: grouped(v.stored, v.pattern), ..v }),
        _ => ended(FindView { results: v.stored, ..v }),
    }
}

/// The search goes on with lines of code while the page is not full.
pub open spec fn text_next(v: FindView) -> FindView {
    if v.results.len() < v.target {
        FindView { step: FindStep::CodeText, ..v }
    } else {
        ended(v)
    }
}

/// The search goes on with loose matches while the page is not full.
pub open spec fn fuzzy_next(v: FindView) -> FindView {
    if v.stored.len() < v.store_target && (v.kind == FindKind::Global || !strong_match(
        v.stored,
        v.pattern,
    )) {
        FindView { step: FindStep::FuzzySymbols, ..v }
    } else {
        store_done(v)
    }
}

/// Names are not searched for among files, except by the widest search.
pub open spec fn skips_files(v: FindView) -> bool {
    v.kind != FindKind::Global && identifier(v.pattern)
}

/// The search after an answer.
pub open spec fn answered(v: FindView, rows: Seq<ItemView>) -> FindView {
    match v.step {
        FindStep::ListSymbols | FindStep::ListClasses => FindView {
            step: FindStep::Done,
            results: rows,
            ..v
        },
        FindStep::Symbols => {
            let w = FindView {
                stored: if v.kind == FindKind::Global {
                    join(Seq::empty(), rows, v.store_target)
                } else {
                    rows
                },
                ..v
            };
            match v.kind {
                FindKind::Fast
                | FindKind::Global
                | FindKind::IndexedFast
                | FindKind::IndexedGlobal => if skips_files(v) {
                    fuzzy_next(w)
                } else {
                    FindView { step: FindStep::Files, ..w }
                },
                _ => store_done(w),
            }
        },
        FindStep::Files => fuzzy_next(
            FindView { stored: join(v.stored, rows, v.store_target), ..v },
        ),
        FindStep::FuzzySymbols => {
            let w = FindView { stored: join(v.stored, rows, v.store_target), ..v };
            if skips_files(v) {
                store_done(w)
            } else {
                FindView { step: FindStep::FuzzyFiles, ..w }
            }
        },
        FindStep::FuzzyFiles => store_done(
            FindView { stored: join(v.stored, rows, v.store_target), ..v },
        ),
        FindStep::CodeText => ended(FindView { results: join(v.results, rows, v.target), ..v }),
        FindStep::Done => v,
    }
}

/// What the index finds at once.
pub open spec fn indexed(kind: FindKind, index: Option<HotView>, pattern: Seq<char>, target: usize) -> Seq<ItemView> {
    match index {
        None => Seq::empty(),
        Some(h) => match kind {
            FindKind::IndexedSymbols => join(
                Seq::empty(),
                symbol_query_answer(h, pattern, target, 0, false),
                target,
            ),
            FindKind::IndexedFast | FindKind::IndexedGlobal => join(
                Seq::empty(),
                query_answer(h, pattern, target, 0, false),
                target,
            ),
            FindKind::IndexedClasses => join(
                Seq::empty(),
                query_answer(h, pattern, target, 0, true),
                target,
            ),
            _ => Seq::empty(),
        },
    }
}

/// The search before anything was asked.
pub open spec fn find_begun(
    kind: FindKind,
    index: Option<HotView>,
    pattern: Seq<char>,
    limit: usize,
    offset: usize,
) -> FindView {
    let q = text::trimmed(pattern);
    let target = target_of(kind, limit, offset);
    let v = FindView {
        kind,
        pattern: q,
        limit: within(limit, 1, most_per_page(kind)),
        offset: offset_kept(offset),
        target,
        store_target: store_target_of(kind, target),
        step: FindStep::Symbols,
        results: if q.len() == 0 {
            Seq::empty()
        } else {
            indexed(kind, index, q, target)
        },
        stored: Seq::empty(),
    };
    if q.len() == 0 {
        FindView {
            step: if classes_only(kind) {
                FindStep::ListClasses
            } else {
                FindStep::ListSymbols
            },
            ..v
        }
    } else if v.results.len() >= target {
        ended(v)
    } else {
        v
    }
}

/// What is shown of the results: all of a list that was asked for page by page, else the page.
pub open spec fn shown(v: FindView) -> Seq<ItemView> {
    if v.pattern.len() == 0 {
        v.results
    } else {
        page(v.results, v.offset as nat, v.limit as nat)
    }
}

fn joined(list: Vec<Item>, more: &[Item], limit: usize) -> (r: Vec<Item>)
    ensures
        items(r@) == join(items(list@), items(more@), limit),
{
    let mut m = Merged::from_items(Likeness::Find, list);
    m.merge(more, limit);
    m.items
}

fn nothing() -> (r: Vec<Item>)
    ensures
        items(r@) == Seq::<ItemView>::empty(),
{
    let r: Vec<Item> = Vec::new();
    assert(items(r@) =~= Seq::<ItemView>::empty());
    r
}

impl Find {
    pub open spec fn view(&self) -> FindView {
        FindView {
            kind: self.kind,
            pattern: self.pattern@,
            limit: self.limit,
            offset: self.offset,
            target: self.target,
            store_target: self.store_target,
            step: self.step,
            results: items(self.results@),
            stored: items(self.stored@),
        }
    }

    fn end(self) -> (r: Find)
        ensures
            r@ == ended(self@),
    {
        let results = match self.kind {
            FindKind::Fast | FindKind::IndexedFast => {
                suppress_broad_class_contains_when_exact_type_exists(
                    self.results.as_slice(),
                    &self.pattern,
                )
            },
            _ => self.results,
        };
        Find { step: FindStep::Done, results, ..self }
    }

    fn go_on_with_text(self) -> (r: Find)
        ensures
            r@ == text_next(self@),
    {
        assert(self@.results.len() == self.results@.len());
        if self.results.len() < self.target {
            Find { step: FindStep::CodeText, ..self }
        } else {
            self.end()
        }
    }

    fn end_store(self) -> (r: Find)
        ensures
            r@ == store_done(self@),
    {
        match self.kind {
            FindKind::IndexedFast | FindKind::IndexedClasses | FindKind::IndexedSymbols => {
                let results = joined(self.results, self.stored.as_slice(), self.target);
                let r = Find { results, ..self };
                r.end()
            },
            FindKind::IndexedGlobal => {
                let all = joined(nothing(), self.stored.as_slice(), self.store_target);
                let kept = suppress_broad_class_contains_when_exact_type_exists(
                    all.as_slice(),
                    &self.pattern,
                );
                let nested = page_of(kept.as_slice(), 0, self.store_target);
                let results = joined(self.results, nested.as_slice(), self.target);
                let r = Find { results, ..self };
                r.go_on_with_text()
            },
            FindKind::Global => {
                let results = copy_items(self.stored.as_slice());
                let r = Find { results, ..self };
                r.go_on_with_text()
            },
            FindKind::Symbols => {
                let results = in_groups(self.stored.as_slice(), &self.pattern);
                let r = Find { results, ..self };
                r.end()
            },
            _ => {
                let results = copy_items(self.stored.as_slice());
                let r = Find { results, ..self };
                r.end()
            },
        }
    }

    fn go_on_loosely(self) -> (r: Find)
        ensures
            r@ == fuzzy_next(self@),
    {
        assert(self@.stored.len() == self.stored@.len());
        if self.stored.len() < self.store_target && (self.kind == FindKind::Global
            || !has_strong_explicit_type_match(self.stored.as_slice(), &self.pattern)) {
            Find { step: FindStep::FuzzySymbols, ..self }
        } else {
            self.end_store()
        }
    }

    fn without_files(&self) -> (r: bool)
        ensures
            r == skips_files(self@),
    {
        self.kind != FindKind::Global && is_identifier_query(&self.pattern)
    }

    fn with_stored(self, rows: &[Item]) -> (r: Find)
        ensures
            r@ == (FindView { stored: join(self@.stored, items(rows@), self.store_target), ..self@ }),
    {
        let stored = joined(self.stored, rows, self.store_target);
        Find { stored, ..self }
    }

    /// Takes what was answered to the step, and goes on to the next.
    pub fn take(self, rows: Vec<Item>) -> (r: Find)
        ensures
            r@ == answered(self@, items(rows@)),
    {
        match self.step {
            FindStep::ListSymbols | FindStep::ListClasses => Find {
                step: FindStep::Done,
                results: rows,
                ..self
            },
            FindStep::Symbols => {
                let without = self.without_files();
                let stored = match self.kind {
                    FindKind::Global => joined(nothing(), rows.as_slice(), self.store_target),
                    _ => rows,
                };
                let w = Find { stored, ..self };
                match w.kind {
                    FindKind::Fast
                    | FindKind::Global
                    | FindKind::IndexedFast
                    | FindKind::IndexedGlobal => if without {
                        w.go_on_loosely()
                    } else {
                        Find { step: FindStep::Files, ..w }
                    },
                    _ => w.end_store(),
                }
            },
            FindStep::Files => self.with_stored(rows.as_slice()).go_on_loosely(),
            FindStep::FuzzySymbols => {
                let without = self.without_files();
                let w = self.with_stored(rows.as_slice());
                if without {
                    w.end_store()
                } else {
                    Find { step: FindStep::FuzzyFiles, ..w }
                }
            },
            FindStep::FuzzyFiles => self.with_stored(rows.as_slice()).end_store(),
            FindStep::CodeText => {
                let results = joined(self.results, rows.as_slice(), self.target);
                let w = Find { results, ..self };
                w.end()
            },
            FindStep::Done => self,
        }
    }

    /// The page that is shown.
    pub fn page(&self) -> (r: Vec<Item>)
        ensures
            items(r@) == shown(self@),
    {
        if self.pattern.as_str().is_empty() {
            copy_items(self.results.as_slice())
        } else {
            page_of(self.results.as_slice(), self.offset, self.limit)
        }
    }

    fn begin(kind: FindKind, index: Option<&SearchHotIndex>, pattern: &str, limit: usize, offset: usize) -> (r:
        Find)
        requires
            index matches Some(h) ==> h.well_formed(),
        ensures
            r@ == find_begun(kind, opt_index(index), pattern@, limit, offset),
    {
        let q = text::trim(pattern);
        let most: usize = match kind {
            FindKind::Fast | FindKind::Global | FindKind::IndexedFast | FindKind::IndexedGlobal => {
                500
            },
            _ => 10_000,
        };
        let kept_limit = clamped(limit, 1, most);
        let kept_offset: usize = if offset > MAX_OFFSET {
            MAX_OFFSET
        } else {
            offset
        };
        let target: usize = match kind {
            FindKind::Symbols | FindKind::Classes => clamped(
                saturated_sum(offset, limit),
                1,
                10_000,
            ),
            _ => saturated_sum(kept_offset, kept_limit),
        };
        let store_target: usize = match kind {
            FindKind::IndexedGlobal => clamped(target, 1, 500),
            _ => target,
        };
        let blank = q.is_empty();
        let results = if blank {
            nothing()
        } else {
            match index {
                None => nothing(),
                Some(h) => match kind {
                    FindKind::IndexedSymbols => joined(
                        nothing(),
                        h.query_symbols_only(q, target, 0, false).as_slice(),
                        target,
                    ),
                    FindKind::IndexedFast | FindKind::IndexedGlobal => joined(
                        nothing(),
                        h.query(q, target, 0, false).as_slice(),
                        target,
                    ),
                    FindKind::IndexedClasses => joined(
                        nothing(),
                        h.query(q, target, 0, true).as_slice(),
                        target,
                    ),
                    _ => nothing(),
                },
            }
        };
        let step = if !blank {
            FindStep::Symbols
        } else {
            match kind {
                FindKind::Classes | FindKind::IndexedClasses => FindStep::ListClasses,
                _ => FindStep::ListSymbols,
            }
        };
        let r = Find {
            kind,
            pattern: text::copy_of(q),
            limit: kept_limit,
            offset: kept_offset,
            target,
            store_target,
            step,
            results,
            stored: nothing(),
        };
        assert(r@.results.len() == r.results@.len());
        if !blank && r.results.len() >= target {
            r.end()
        } else {
            r
        }
    }
}

pub open spec fn opt_index(index: Option<&SearchHotIndex>) -> Option<HotView> {
    match index {
        Some(h) => Some(h@),
        None => None,
    }
}

/// Finds symbols in the store: exact names first, then beginnings of names, then names that hold
/// the pattern, then what matches by owner, module or path.
pub fn search_symbols(pattern: &str, limit: usize, offset: usize) -> (r: Find)
    ensures
        r@ == find_begun(FindKind::Symbols, None, pattern@, limit, offset),
{
    Find::begin(FindKind::Symbols, None, pattern, limit, offset)
}

/// Finds types in the store.
pub fn search_class_symbols(pattern: &str, limit: usize, offset: usize) -> (r: Find)
    ensures
        r@ == find_begun(FindKind::Classes, None, pattern@, limit, offset),
{
    Find::begin(FindKind::Classes, None, pattern, limit, offset)
}

/// Finds symbols and files in the store, quickly enough to show while a pattern is typed.
pub fn fast_find(pattern: &str, limit: usize, offset: usize) -> (r: Find)
    ensures
        r@ == find_begun(FindKind::Fast, None, pattern@, limit, offset),
{
    Find::begin(FindKind::Fast, None, pattern, limit, offset)
}

/// Finds symbols, files and lines of code in the store.
pub fn global_find(pattern: &str, limit: usize, offset: usize) -> (r: Find)
    ensures
        r@ == find_begun(FindKind::Global, None, pattern@, limit, offset),
{
    Find::begin(FindKind::Global, None, pattern, limit, offset)
}

pub fn fast_find_with_hot_index(index: Option<&SearchHotIndex>, pattern: &str, limit: usize, offset: usize) -> (r:
    Find)
    requires
        index matches Some(h) ==> h.well_formed(),
    ensures
        r@ == find_begun(FindKind::IndexedFast, opt_index(index), pattern@, limit, offset),
{
    Find::begin(FindKind::IndexedFast, index, pattern, limit, offset)
}

pub fn search_symbols_with_hot_index(
    index: Option<&SearchHotIndex>,
    pattern: &str,
    limit: usize,
    offset: usize,
) -> (r: Find)
    requires
        index matches Some(h) ==> h.well_formed(),
    ensures
        r@ == find_begun(FindKind::IndexedSymbols, opt_index(index), pattern@, limit, offset),
{
    Find::begin(FindKind::IndexedSymbols, index, pattern, limit, offset)
}

pub fn search_class_symbols_with_hot_index(
    index: Option<&SearchHotIndex>,
    pattern: &str,
    limit: usize,
    offset: usize,
) -> (r: Find)
    requires
        index matches Some(h) ==> h.well_formed(),
    ensures
        r@ == find_begun(FindKind::IndexedClasses, opt_index(index), pattern@, limit, offset),
{
    Find::begin(FindKind::IndexedClasses, index, pattern, limit, offset)
}

pub fn global_find_with_hot_index(
    index: Option<&SearchHotIndex>,
    pattern: &str,
    limit: usize,
    offset: usize,
) -> (r: Find)
    requires
        index matches Some(h) ==> h.well_formed(),
    ensures
        r@ == find_begun(FindKind::IndexedGlobal, opt_index(index), pattern@, limit, offset),
{
    Find::begin(FindKind::IndexedGlobal, index, pattern, limit, offset)
}

pub const ALL_SYMBOLS: &'static str =
    "SELECT name, kind, owner_name, path, line_number, module_name FROM search_symbols WHERE name NOT LIKE '(%' ORDER BY name_lc ASC, path_lc ASC LIMIT ? OFFSET ?";

pub const ALL_CLASSES: &'static str =
    "SELECT name, kind, owner_name, path, line_number, module_name FROM search_symbols WHERE is_class_like = 1 AND name NOT LIKE '(%' ORDER BY name_lc ASC, path_lc ASC LIMIT ? OFFSET ?";

pub open spec fn page_params(limit: usize, offset: usize) -> Seq<ParamView> {
    seq![
        ParamView::Integer(within(limit, 1, 10_000) as i64),
        ParamView::Integer(offset_kept(offset) as i64),
    ]
}

fn page_query(sql: &str, limit: usize, offset: usize) -> (r: SqlQuery)
    ensures
        r@ == (SqlView { sql: sql@, params: page_params(limit, offset) }),
{
    let kept: usize = if offset > MAX_OFFSET {
        MAX_OFFSET
    } else {
        offset
    };
    let mut params: Vec<SqlParam> = Vec::new();
    params.push(SqlParam::Integer(clamped(limit, 1, 10_000) as i64));
    params.push(SqlParam::Integer(kept as i64));
    let r = SqlQuery { sql: text::copy_of(sql), params };
    assert(r@.params =~= page_params(limit, offset));
    r
}

/// The query for a page of all symbols.
pub fn list_symbols(limit: usize, offset: usize) -> (r: SqlQuery)
    ensures
        r@ == (SqlView { sql: ALL_SYMBOLS@, params: page_params(limit, offset) }),
{
    page_query(ALL_SYMBOLS, limit, offset)
}

/// The query for a page of all types.
pub fn list_class_symbols(limit: usize, offset: usize) -> (r: SqlQuery)
    ensures
        r@ == (SqlView { sql: ALL_CLASSES@, params: page_params(limit, offset) }),
{
    page_query(ALL_CLASSES, limit, offset)
}

/// How lines of code are asked for: the pattern, how many lines, and from which on.
pub struct TextRequest {
    pub pattern: String,
    pub limit: usize,
    pub offset: usize,
}

/// The request asks for the lines with a pattern: at least one of them and at most 500, unless the
/// pattern is blank.
pub open spec fn asks_for_lines(r: Option<TextRequest>, pattern: Seq<char>, limit: usize, offset: usize) -> bool {
    match r {
        None => text::trimmed(pattern).len() == 0,
        Some(t) => text::trimmed(pattern).len() > 0 && t.pattern@ == text::trimmed(pattern)
            && t.limit == within(limit, 1, 500) && t.offset == offset_kept(offset),
    }
}

/// Asks for lines of code, unless the pattern is blank.
pub fn search_code_text(pattern: &str, limit: usize, offset: usize) -> (r: Option<TextRequest>)
    ensures
        asks_for_lines(r, pattern@, limit, offset),
{
    let q = text::trim(pattern);
    if q.is_empty() {
        return None;
    }
    Some(
        TextRequest {
            pattern: text::copy_of(q),
            limit: clamped(limit, 1, 500),
            offset: if offset > MAX_OFFSET {
                MAX_OFFSET
            } else {
                offset
            },
        },
    )
}

/// The item of a line of code.
pub open spec fn text_item(pattern: Seq<char>, path: Seq<char>, line: i64, line_text: Seq<char>) -> ItemView {
    seq![
        ("name"@, FieldView::Text(pattern)),
        ("type"@, FieldView::Text("text"@)),
        ("path"@, FieldView::Text(path)),
        ("line"@, FieldView::Int(line)),
        ("text"@, FieldView::Text(line_text)),
    ]
}

pub fn code_text_item(pattern: &str, path: &str, line: i64, line_text: &str) -> (r: Item)
    ensures
        r@ == text_item(pattern@, slashed_path(path@), line, line_text@),
{
    let path = normalize_path(path);
    let r = Item::new().and("name", Field::text(pattern)).and("type", Field::text("text")).and(
        "path",
        Field::text(&path),
    ).and("line", Field::Int(line)).and("text", Field::text(line_text));
    assert(r@ =~= text_item(pattern@, path@, line, line_text@));
    r
}

/// What a search asks for.
pub enum FindRequest {
    /// The rows of a query for symbols.
    List(SqlQuery),
    /// The symbols that a search by stages finds.
    Symbols(BucketSearch),
    /// The files that a search by stages finds.
    Files(BucketSearch),
    /// The rows of a query for symbols, if there is one to ask.
    LooseSymbols(Option<SqlQuery>),
    /// The rows of a query for files, if there is one to ask.
    LooseFiles(Option<SqlQuery>),
    /// Lines of code.
    Lines(Option<TextRequest>),
    Nothing,
}

/// The request is the one that the search stands at.
pub open spec fn is_request(r: FindRequest, v: FindView, path_cte: Seq<char>) -> bool {
    match v.step {
        FindStep::ListSymbols => r matches FindRequest::List(q) && q@ == (SqlView {
            sql: ALL_SYMBOLS@,
            params: page_params(v.limit, v.offset),
        }),
        FindStep::ListClasses => r matches FindRequest::List(q) && q@ == (SqlView {
            sql: ALL_CLASSES@,
            params: page_params(v.limit, v.offset),
        }),
        FindStep::Symbols => r matches FindRequest::Symbols(b) && b.well_formed() && b@ == begun(
            false,
            classes_only(v.kind),
            ""@,
            v.pattern,
            v.store_target,
        ),
        FindStep::Files => r matches FindRequest::Files(b) && b.well_formed() && b@ == begun(
            true,
            false,
            path_cte,
            v.pattern,
            v.store_target,
        ),
        FindStep::FuzzySymbols => r matches FindRequest::LooseSymbols(q) && opt_sql(q)
            == fuzzy_symbols(v.pattern, FIND_FUZZY_FALLBACK_LIMIT),
        FindStep::FuzzyFiles => r matches FindRequest::LooseFiles(q) && opt_sql(q) == fuzzy_files(
            path_cte,
            v.pattern,
            FIND_FUZZY_FALLBACK_LIMIT,
        ),
        FindStep::CodeText => r matches FindRequest::Lines(t) && asks_for_lines(
            t,
            v.pattern,
            v.target,
            0,
        ),
        FindStep::Done => r is Nothing,
    }
}

impl Find {
    /// What is to be asked next; `path_cte` names the table of paths.
    pub fn next_request(&self, path_cte: &str) -> (r: FindRequest)
        ensures
            is_request(r, self@, path_cte@),
    {
        match self.step {
            FindStep::ListSymbols => FindRequest::List(list_symbols(self.limit, self.offset)),
            FindStep::ListClasses => FindRequest::List(list_class_symbols(self.limit, self.offset)),
            FindStep::Symbols => FindRequest::Symbols(
                bucketed_symbol_results(
                    &self.pattern,
                    self.store_target,
                    self.kind == FindKind::Classes || self.kind == FindKind::IndexedClasses,
                ),
            ),
            FindStep::Files => FindRequest::Files(
                bucketed_file_results(path_cte, &self.pattern, self.store_target),
            ),
            FindStep::FuzzySymbols => FindRequest::LooseSymbols(
                search_symbols_fuzzy_fallback(&self.pattern, FIND_FUZZY_FALLBACK_LIMIT),
            ),
            FindStep::FuzzyFiles => FindRequest::LooseFiles(
                search_files_fuzzy_fallback(path_cte, &self.pattern, FIND_FUZZY_FALLBACK_LIMIT),
            ),
            FindStep::CodeText => FindRequest::Lines(
                search_code_text(&self.pattern, self.target, 0),
            ),
            FindStep::Done => FindRequest::Nothing,
        }
    }
}

pub const CLASSES_OF_KIND: &'static str =
    " SELECT sc.text AS name, sb.text AS base_class, c.symbol_type, dp.full_path || '/' || sn.text AS path, sm.text AS module_name, c.line_number, c.end_line_number FROM classes c JOIN strings sc ON c.name_id = sc.id LEFT JOIN strings sb ON c.base_class_id = sb.id JOIN files f ON c.file_id = f.id JOIN dir_paths dp ON f.directory_id = dp.id JOIN strings sn ON f.filename_id = sn.id LEFT JOIN modules m ON f.module_id = m.id LEFT JOIN strings sm ON m.name_id = sm.id WHERE c.symbol_type ";

pub const STRUCT_KINDS: &'static str =
    "IN ('struct', 'USTRUCT') AND sc.text NOT LIKE '(%' ORDER BY sc.text ASC";

pub const GIVEN_KIND: &'static str =
    "= ? AND sc.text NOT LIKE '(%' ORDER BY sc.text ASC LIMIT ?";

/// The query for all structs.
pub fn get_structs(path_cte: &str) -> (r: SqlQuery)
    ensures
        r@ == (SqlView {
            sql: path_cte@ + CLASSES_OF_KIND@ + STRUCT_KINDS@,
            params: Seq::empty(),
        }),
{
    let r = SqlQuery {
        sql: text::concat3(path_cte, CLASSES_OF_KIND, STRUCT_KINDS),
        params: Vec::new(),
    };
    assert(r@.params =~= Seq::<ParamView>::empty());
    r
}

pub open spec fn kind_limit(limit: Option<usize>) -> i64 {
    within(
        match limit {
            Some(n) => n,
            None => 1000,
        },
        1,
        5000,
    ) as i64
}

/// The query for the types of a kind, unless the kind is blank.
pub fn get_symbols_by_type(path_cte: &str, symbol_type: &str, limit: Option<usize>) -> (r: Option<SqlQuery>)
    ensures
        match r {
            None => text::trimmed(symbol_type@).len() == 0,
            Some(q) => text::trimmed(symbol_type@).len() > 0 && q@ == (SqlView {
                sql: path_cte@ + CLASSES_OF_KIND@ + GIVEN_KIND@,
                params: seq![
                    ParamView::Text(text::trimmed(symbol_type@)),
                    ParamView::Integer(kind_limit(limit)),
                ],
            }),
        },
{
    let kind = text::trim(symbol_type);
    if kind.is_empty() {
        return None;
    }
    let most: usize = match limit {
        Some(n) => n,
        None => 1000,
    };
    let mut params: Vec<SqlParam> = Vec::new();
    params.push(SqlParam::Text(text::copy_of(kind)));
    params.push(SqlParam::Integer(clamped(most, 1, 5000) as i64));
    let r = SqlQuery { sql: text::concat3(path_cte, CLASSES_OF_KIND, GIVEN_KIND), params };
    assert(r@.params =~= seq![
        ParamView::Text(text::trimmed(symbol_type@)),
        ParamView::Integer(kind_limit(limit)),
    ]);
    Some(r)
}

/// The item of a type that a store answered with.
pub fn class_row_to_item(
    name: &str,
    base_class: &Option<String>,
    kind: &str,
    path: &str,
    module: &Option<String>,
    line: Option<i64>,
    end_line: Option<i64>,
) -> (r: Item)
    ensures
        r@ == seq![
            ("name"@, FieldView::Text(name@)),
            ("base_class"@, super::item::text_field(text::opt_text(*base_class))),
            ("type"@, FieldView::Text(kind@)),
            ("path"@, FieldView::Text(slashed_path(path@))),
            ("module_name"@, super::item::text_field(text::opt_text(*module))),
            ("line"@, super::item::int_field(line)),
            ("end_line"@, super::item::int_field(end_line)),
        ],
{
    let path = normalize_path(path);
    let r = Item::new().and("name", Field::text(name)).and(
        "base_class",
        Field::text_opt(base_class),
    ).and("type", Field::text(kind)).and("path", Field::text(&path)).and(
        "module_name",
        Field::text_opt(module),
    ).and("line", Field::int_opt(line)).and("end_line", Field::int_opt(end_line));
    assert(r@ =~= seq![
        ("name"@, FieldView::Text(name@)),
        ("base_class"@, super::item::text_field(text::opt_text(*base_class))),
        ("type"@, FieldView::Text(kind@)),
        ("path"@, FieldView::Text(path@)),
        ("module_name"@, super::item::text_field(text::opt_text(*module))),
        ("line"@, super::item::int_field(line)),
        ("end_line"@, super::item::int_field(end_line)),
    ]);
    r
}

// ---------------------------------------------------------------------------
// What holds of every search
// ---------------------------------------------------------------------------
proof fn lemma_shown_beside(list: Seq<ItemView>, q: Seq<char>, k: int)
    requires
        0 <= k <= list.len(),
    ensures
        forall|x: ItemView| #[trigger]
            shown_beside_from(list, q, k).contains(x) <==> beside_exact_type(x, q) && exists|i: int|
                k <= i < list.len() && #[trigger] list[i] == x,
        all_differ(Likeness::Find, list) ==> all_differ(
            Likeness::Find,
            shown_beside_from(list, q, k),
        ),
        shown_beside_from(list, q, k).len() <= list.len() - k,
    decreases list.len() - k,
{
    let r = shown_beside_from(list, q, k);
    if k < list.len() {
        lemma_shown_beside(list, q, k + 1);
        let rest = shown_beside_from(list, q, k + 1);
        if beside_exact_type(list[k], q) {
            assert forall|x: ItemView| #[trigger]
                r.contains(x) <==> beside_exact_type(x, q) && exists|i: int|
                    k <= i < list.len() && #[trigger] list[i] == x by {
                if r.contains(x) {
                    let j = choose|j: int| 0 <= j < r.len() && r[j] == x;
                    if j > 0 {
                        assert(rest[j - 1] == x);
                        assert(rest.contains(x));
                    }
                }
                if beside_exact_type(x, q) && exists|i: int|
                    k <= i < list.len() && #[trigger] list[i] == x {
                    let i = choose|i: int| k <= i < list.len() && #[trigger] list[i] == x;
                    if i == k {
                        assert(r[0] == x);
                    } else {
                        assert(rest.contains(x));
                        let j = choose|j: int| 0 <= j < rest.len() && rest[j] == x;
                        assert(r[j + 1] == x);
                    }
                }
            }
            if all_differ(Likeness::Find, list) {
                assert forall|i: int, j: int| 0 <= i < j < r.len() implies identity(
                    Likeness::Find,
                    #[trigger] r[i],
                ) != identity(Likeness::Find, #[trigger] r[j]) by {
                    assert(r[j] == rest[j - 1]);
                    if i > 0 {
                        assert(r[i] == rest[i - 1]);
                    } else {
                        assert(rest.contains(rest[j - 1]));
                        let m = choose|m: int|
                            k + 1 <= m < list.len() && #[trigger] list[m] == rest[j - 1];
                        assert(list[k] == r[0]);
                    }
                }
            }
        } else {
            assert forall|x: ItemView| #[trigger]
                r.contains(x) <==> beside_exact_type(x, q) && exists|i: int|
                    k <= i < list.len() && #[trigger] list[i] == x by {
                if beside_exact_type(x, q) && exists|i: int|
                    k <= i < list.len() && #[trigger] list[i] == x {
                    let i = choose|i: int| k <= i < list.len() && #[trigger] list[i] == x;
                    assert(i != k);
                }
            }
        }
    }
}

/// Clearing the results of what merely contains a type's name adds nothing, and leaves the type.
pub proof fn exact_type_stays_shown(list: Seq<ItemView>, pattern: Seq<char>, x: ItemView)
    ensures
        suppressed(list, pattern).contains(x) ==> list.contains(x),
        list.contains(x) && exact_type(x, text::lower(text::trimmed(pattern))) ==> suppressed(
            list,
            pattern,
        ).contains(x),
        suppressed(list, pattern).len() <= list.len(),
{
    let q = text::lower(text::trimmed(pattern));
    lemma_shown_beside(list, q, 0);
    let r = shown_beside_from(list, q, 0);
    if list.contains(x) {
        let i = choose|i: int| 0 <= i < list.len() && list[i] == x;
        assert(list[i] == x);
        assert(r.contains(x) <==> beside_exact_type(x, q));
    } else {
        assert(!r.contains(x));
    }
}

proof fn lemma_group_from(list: Seq<ItemView>, pattern: Seq<char>, group: int, k: int)
    requires
        0 <= k <= list.len(),
    ensures
        forall|x: ItemView| #[trigger]
            group_from(list, pattern, group, k).contains(x) <==> symbol_group(x, pattern) == group
                && exists|i: int| k <= i < list.len() && #[trigger] list[i] == x,
        all_differ(Likeness::Find, list) ==> all_differ(
            Likeness::Find,
            group_from(list, pattern, group, k),
        ),
    decreases list.len() - k,
{
    let r = group_from(list, pattern, group, k);
    if k < list.len() {
        lemma_group_from(list, pattern, group, k + 1);
        let rest = group_from(list, pattern, group, k + 1);
        let kept = symbol_group(list[k], pattern) == group;
        assert forall|x: ItemView| #[trigger]
            r.contains(x) <==> symbol_group(x, pattern) == group && exists|i: int|
                k <= i < list.len() && #[trigger] list[i] == x by {
            if r.contains(x) {
                let j = choose|j: int| 0 <= j < r.len() && r[j] == x;
                if kept && j == 0 {
                    assert(list[k] == x);
                } else if kept {
                    assert(rest[j - 1] == x);
                    assert(rest.contains(x));
                } else {
                    assert(rest.contains(x));
                }
            }
            if symbol_group(x, pattern) == group && exists|i: int|
                k <= i < list.len() && #[trigger] list[i] == x {
                let i = choose|i: int| k <= i < list.len() && #[trigger] list[i] == x;
                if i == k {
                    assert(r[0] == x);
                } else {
                    assert(rest.contains(x));
                    let j = choose|j: int| 0 <= j < rest.len() && rest[j] == x;
                    if kept {
                        assert(r[j + 1] == x);
                    }
                }
            }
        }
        if all_differ(Likeness::Find, list) && kept {
            assert forall|i: int, j: int| 0 <= i < j < r.len() implies identity(
                Likeness::Find,
                #[trigger] r[i],
            ) != identity(Likeness::Find, #[trigger] r[j]) by {
                assert(r[j] == rest[j - 1]);
                if i > 0 {
                    assert(r[i] == rest[i - 1]);
                } else {
                    assert(rest.contains(rest[j - 1]));
                    let m = choose|m: int|
                        k + 1 <= m < list.len() && #[trigger] list[m] == rest[j - 1];
                    assert(list[k] == r[0]);
                }
            }
        }
    }
}

proof fn lemma_group_lens(list: Seq<ItemView>, pattern: Seq<char>, k: int)
    requires
        0 <= k <= list.len(),
    ensures
        group_from(list, pattern, 0, k).len() + group_from(list, pattern, 1, k).len() + group_from(
            list,
            pattern,
            2,
            k,
        ).len() + group_from(list, pattern, 3, k).len() == list.len() - k,
    decreases list.len() - k,
{
    if k < list.len() {
        lemma_group_lens(list, pattern, k + 1);
    }
}

/// Which group an item of the grouped list came with.
proof fn lemma_grouped(list: Seq<ItemView>, pattern: Seq<char>)
    ensures
        grouped(list, pattern).len() == list.len(),
        forall|x: ItemView| #[trigger] grouped(list, pattern).contains(x) <==> list.contains(x),
        forall|i: int, j: int|
            0 <= i < j < list.len() ==> symbol_group(
                #[trigger] grouped(list, pattern)[i],
                pattern,
            ) <= symbol_group(#[trigger] grouped(list, pattern)[j], pattern),
        all_differ(Likeness::Find, list) ==> all_differ(Likeness::Find, grouped(list, pattern)),
{
    let r = grouped(list, pattern);
    let a = group_from(list, pattern, 0, 0);
    let b = group_from(list, pattern, 1, 0);
    let c = group_from(list, pattern, 2, 0);
    let d = group_from(list, pattern, 3, 0);
    lemma_group_lens(list, pattern, 0);
    lemma_group_from(list, pattern, 0, 0);
    lemma_group_from(list, pattern, 1, 0);
    lemma_group_from(list, pattern, 2, 0);
    lemma_group_from(list, pattern, 3, 0);
    let ab = a.len() + b.len();
    let abc = ab + c.len();
    assert forall|i: int| 0 <= i < r.len() implies list.contains(#[trigger] r[i]) && symbol_group(
        r[i],
        pattern,
    ) == (if i < a.len() {
        0int
    } else if i < ab {
        1
    } else if i < abc {
        2
    } else {
        3
    }) by {
        if i < a.len() {
            assert(r[i] == a[i] && a.contains(a[i]));
        } else if i < ab {
            assert(r[i] == b[i - a.len()] && b.contains(b[i - a.len()]));
        } else if i < abc {
            assert(r[i] == c[i - ab] && c.contains(c[i - ab]));
        } else {
            assert(r[i] == d[i - abc] && d.contains(d[i - abc]));
        }
    }
    assert forall|x: ItemView| #[trigger] r.contains(x) <==> list.contains(x) by {
        if list.contains(x) {
            let m = choose|m: int| 0 <= m < list.len() && list[m] == x;
            assert(list[m] == x);
            if symbol_group(x, pattern) == 0 {
                assert(a.contains(x));
                let i = choose|i: int| 0 <= i < a.len() && a[i] == x;
                assert(r[i] == x);
            } else if symbol_group(x, pattern) == 1 {
                assert(b.contains(x));
                let i = choose|i: int| 0 <= i < b.len() && b[i] == x;
                assert(r[a.len() + i] == x);
            } else if symbol_group(x, pattern) == 2 {
                assert(c.contains(x));
                let i = choose|i: int| 0 <= i < c.len() && c[i] == x;
                assert(r[ab + i] == x);
            } else {
                assert(d.contains(x));
                let i = choose|i: int| 0 <= i < d.len() && d[i] == x;
                assert(r[abc + i] == x);
            }
        }
    }
    if all_differ(Likeness::Find, list) {
        assert forall|i: int, j: int| 0 <= i < j < r.len() implies identity(
            Likeness::Find,
            #[trigger] r[i],
        ) != identity(Likeness::Find, #[trigger] r[j]) by {
            assert(list.contains(r[i]) && list.contains(r[j]));
            if symbol_group(r[i], pattern) != symbol_group(r[j], pattern) {
                let m = choose|m: int| 0 <= m < list.len() && list[m] == r[i];
                let n = choose|n: int| 0 <= n < list.len() && list[n] == r[j];
                if m < n {
                    assert(identity(Likeness::Find, list[m]) != identity(Likeness::Find, list[n]));
                } else {
                    assert(identity(Likeness::Find, list[n]) != identity(Likeness::Find, list[m]));
                }
            } else if j < a.len() {
                assert(r[i] == a[i] && r[j] == a[j]);
            } else if a.len() <= i && j < ab {
                assert(r[i] == b[i - a.len()] && r[j] == b[j - a.len()]);
            } else if ab <= i && j < abc {
                assert(r[i] == c[i - ab] && r[j] == c[j - ab]);
            } else {
                assert(r[i] == d[i - abc] && r[j] == d[j - abc]);
            }
        }
    }
}

/// Whatever rows the store answers with, a search of symbols ends with them, group by group: no
/// name that is the pattern stands behind one that only begins with it, none of these behind a name
/// that merely holds it, and what matches by owner, module or path comes last.
pub proof fn symbols_come_in_groups(v: FindView, rows: Seq<ItemView>)
    requires
        v.kind == FindKind::Symbols,
        v.step == FindStep::Symbols,
    ensures
        answered(v, rows).step == FindStep::Done,
        answered(v, rows).results == grouped(rows, v.pattern),
        answered(v, rows).results.len() == rows.len(),
        forall|x: ItemView| #[trigger]
            answered(v, rows).results.contains(x) <==> rows.contains(x),
        forall|i: int, j: int|
            0 <= i < j < rows.len() ==> symbol_group(
                #[trigger] answered(v, rows).results[i],
                v.pattern,
            ) <= symbol_group(#[trigger] answered(v, rows).results[j], v.pattern),
{
    lemma_grouped(rows, v.pattern);
}

/// Rows that the store ranked by groups already stay as they are.
pub proof fn ranked_symbols_keep_their_order(rows: Seq<ItemView>, pattern: Seq<char>)
    requires
        forall|i: int, j: int|
            0 <= i < j < rows.len() ==> symbol_group(#[trigger] rows[i], pattern) <= symbol_group(
                #[trigger] rows[j],
                pattern,
            ),
    ensures
        grouped(rows, pattern) == rows,
{
    lemma_ranked_from(rows, pattern, 0);
    assert(rows.subrange(0, rows.len() as int) =~= rows);
}

proof fn lemma_ranked_from(rows: Seq<ItemView>, pattern: Seq<char>, k: int)
    requires
        0 <= k <= rows.len(),
        forall|i: int, j: int|
            0 <= i < j < rows.len() ==> symbol_group(#[trigger] rows[i], pattern) <= symbol_group(
                #[trigger] rows[j],
                pattern,
            ),
    ensures
        group_from(rows, pattern, 0, k) + group_from(rows, pattern, 1, k) + group_from(
            rows,
            pattern,
            2,
            k,
        ) + group_from(rows, pattern, 3, k) == rows.subrange(k, rows.len() as int),
        forall|g: int|
            (k < rows.len() && g < symbol_group(rows[k], pattern)) || k == rows.len() ==> (
            #[trigger] group_from(rows, pattern, g, k)).len() == 0,
    decreases rows.len() - k,
{
    let left = rows.subrange(k, rows.len() as int);
    if k < rows.len() {
        lemma_ranked_from(rows, pattern, k + 1);
        let rest = rows.subrange(k + 1, rows.len() as int);
        assert(left =~= seq![rows[k]] + rest);
        if k + 1 < rows.len() {
            assert(symbol_group(rows[k], pattern) <= symbol_group(rows[k + 1], pattern));
        }
        assert forall|g: int| g < symbol_group(rows[k], pattern) implies (#[trigger] group_from(
            rows,
            pattern,
            g,
            k,
        )).len() == 0 by {
            assert(group_from(rows, pattern, g, k + 1).len() == 0);
        }
        assert(group_from(rows, pattern, 0, k) + group_from(rows, pattern, 1, k) + group_from(
            rows,
            pattern,
            2,
            k,
        ) + group_from(rows, pattern, 3, k) =~= left);
    } else {
        assert(left =~= Seq::empty());
    }
}

/// Neither the results nor what the store has found so far hold two alike.
pub open spec fn find_sound(v: FindView) -> bool {
    v.pattern.len() > 0 ==> all_differ(Likeness::Find, v.results) && all_differ(
        Likeness::Find,
        v.stored,
    )
}

proof fn lemma_suppressed_differ(list: Seq<ItemView>, pattern: Seq<char>)
    requires
        all_differ(Likeness::Find, list),
    ensures
        all_differ(Likeness::Find, suppressed(list, pattern)),
{
    lemma_shown_beside(list, text::lower(text::trimmed(pattern)), 0);
}

proof fn lemma_store_done_sound(v: FindView)
    requires
        v.pattern.len() > 0,
        find_sound(v),
    ensures
        find_sound(store_done(v)),
{
    let none = Seq::<ItemView>::empty();
    let most = v.store_target as nat;
    let target = v.target as nat;
    merging_adds_new_items_only(Likeness::Find, v.results, v.stored, 0, target);
    merging_adds_new_items_only(Likeness::Find, none, v.stored, 0, most);
    let fresh = join(none, v.stored, v.store_target);
    lemma_suppressed_differ(fresh, v.pattern);
    let nested = page(suppressed(fresh, v.pattern), 0, most);
    merging_adds_new_items_only(Likeness::Find, v.results, nested, 0, target);
    lemma_suppressed_differ(v.stored, v.pattern);
    lemma_grouped(v.stored, v.pattern);
    lemma_suppressed_differ(join(v.results, v.stored, v.target), v.pattern);
    lemma_suppressed_differ(join(v.results, nested, v.target), v.pattern);
}

/// A search begins without two results alike.
pub proof fn find_begins_sound(
    kind: FindKind,
    index: Option<HotView>,
    pattern: Seq<char>,
    limit: usize,
    offset: usize,
)
    ensures
        find_sound(find_begun(kind, index, pattern, limit, offset)),
{
    let q = text::trimmed(pattern);
    let target = target_of(kind, limit, offset);
    let none = Seq::<ItemView>::empty();
    if let Some(h) = index {
        merging_adds_new_items_only(
            Likeness::Find,
            none,
            symbol_query_answer(h, q, target, 0, false),
            0,
            target as nat,
        );
        merging_adds_new_items_only(
            Likeness::Find,
            none,
            query_answer(h, q, target, 0, false),
            0,
            target as nat,
        );
        merging_adds_new_items_only(
            Likeness::Find,
            none,
            query_answer(h, q, target, 0, true),
            0,
            target as nat,
        );
    }
    assert(all_differ(Likeness::Find, indexed(kind, index, q, target)));
    lemma_suppressed_differ(indexed(kind, index, q, target), q);
}

/// Whatever the store answers, no result is shown twice. What it finds stage by stage holds no two
/// alike already.
pub proof fn answers_keep_results_apart(v: FindView, rows: Seq<ItemView>)
    requires
        find_sound(v),
        v.step == FindStep::Symbols ==> all_differ(Likeness::Find, rows),
        v.pattern.len() > 0 ==> v.step != FindStep::ListSymbols && v.step != FindStep::ListClasses,
    ensures
        find_sound(answered(v, rows)),
        v.pattern.len() > 0 ==> all_differ(Likeness::Find, shown(answered(v, rows))),
{
    if v.pattern.len() > 0 {
        let none = Seq::<ItemView>::empty();
        let most = v.store_target as nat;
        merging_adds_new_items_only(Likeness::Find, none, rows, 0, most);
        merging_adds_new_items_only(Likeness::Find, v.stored, rows, 0, most);
        merging_adds_new_items_only(Likeness::Find, v.results, rows, 0, v.target as nat);
        if v.step == FindStep::Symbols {
            lemma_store_done_sound(FindView { stored: rows, ..v });
        }
        lemma_store_done_sound(FindView { stored: join(none, rows, v.store_target), ..v });
        lemma_store_done_sound(FindView { stored: join(v.stored, rows, v.store_target), ..v });
        lemma_suppressed_differ(join(v.results, rows, v.target), v.pattern);
        let w = answered(v, rows);
        assert(find_sound(w));
        assert forall|i: int| 0 <= i < shown(w).len() implies #[trigger] shown(w)[i] == w.results[
        w.offset + i] by {}
    }
}

/// How many answers may still come.
pub open spec fn find_answers_left(v: FindView) -> nat {
    match v.step {
        FindStep::Symbols => 5,
        FindStep::Files => 4,
        FindStep::FuzzySymbols => 3,
        FindStep::FuzzyFiles => 2,
        FindStep::CodeText | FindStep::ListSymbols | FindStep::ListClasses => 1,
        FindStep::Done => 0,
    }
}

/// Each answer brings the search nearer to its end; lines of code are asked for only where the
/// search is for them and the page is not full.
pub proof fn answers_end_the_search(v: FindView, rows: Seq<ItemView>)
    requires
        v.step != FindStep::Done,
    ensures
        find_answers_left(answered(v, rows)) < find_answers_left(v),
        answered(v, rows).step == FindStep::CodeText ==> (v.kind == FindKind::Global || v.kind
            == FindKind::IndexedGlobal) && answered(v, rows).results.len() < v.target,
{
}

/// A page of results is no longer than asked for, and never longer than a page may be.
pub proof fn find_pages_keep_the_limit(v: FindView)
    requires
        v.pattern.len() > 0,
    ensures
        shown(v).len() <= v.limit,
{
}

} // verus!
