//! Searching lines of code while the user types: the file that is edited first, then its module,
//! its plugin, and everything, each within a budget.
//!
//! The lines come from a store. The search says what to ask it for, and takes the answers.
use vstd::prelude::*;

use super::path::{
    is_live_text_searchable_path, live_find_plugin_root, normalize_to_unix, plugin_root, searchable,
    unix_path,
};
use super::profile::{
    literal_code, live_find_is_literal_code_query, live_find_is_text_like_query, text_like,
};
use crate::query::item::{items, Field, FieldView, Item, ItemView};
use crate::query::pattern::{clamped, saturated_sum, sum_or_max, within};
use crate::text;
use crate::textmap::TextMap;

verus! {

/// A line that matches. The module of its file is only looked at where a module is searched.
#[derive(Debug)]
pub struct TextLineMatch {
    pub path: String,
    pub line_number: i64,
    pub line_text: String,
    pub module_name: Option<String>,
}

pub struct LineView {
    pub path: Seq<char>,
    pub line_number: i64,
    pub line_text: Seq<char>,
    pub module_name: Option<Seq<char>>,
}

impl View for TextLineMatch {
    type V = LineView;

    open spec fn view(&self) -> LineView {
        LineView {
            path: self.path@,
            line_number: self.line_number,
            line_text: self.line_text@,
            module_name: text::opt_text(self.module_name),
        }
    }
}

pub open spec fn line_views(v: Seq<TextLineMatch>) -> Seq<LineView> {
    v.map_values(|m: TextLineMatch| m@)
}

/// How much may be looked at.
#[derive(Clone, Copy, PartialEq, Eq, Structural, Debug)]
pub struct TextScanBudget {
    pub max_files: usize,
    pub max_bytes: usize,
    pub max_results: usize,
}

/// What is searched at the moment.
#[derive(Clone, Copy, PartialEq, Eq, Structural, Debug)]
pub enum TextPhase {
    /// The file that is edited.
    File,
    /// The module of that file.
    Module,
    /// The plugin of that file.
    Plugin,
    /// Everything.
    All,
    Done,
}

/// What the store is asked for: lines of one file, or of all.
pub struct TextScanRequest {
    pub path: Option<String>,
    pub limit: usize,
}

/// A search under way.
pub struct LiveTextSearch {
    pub pattern: String,
    /// Where the lines come from.
    pub source: String,
    /// How many lines are found at most.
    pub limit: usize,
    pub results: Vec<Item>,
    /// The lines that were found, by path and number.
    pub lines: Vec<String>,
    pub seen: TextMap<bool>,
    pub phase: TextPhase,
    pub budget: TextScanBudget,
    pub current_file: Option<String>,
    pub current_module: Option<String>,
    /// The search goes beyond the module.
    pub expand: bool,
}

#[verifier::ext_equal]
pub struct LiveTextView {
    pub pattern: Seq<char>,
    pub source: Seq<char>,
    pub limit: usize,
    pub results: Seq<ItemView>,
    pub lines: Seq<Seq<char>>,
    pub phase: TextPhase,
    pub budget: TextScanBudget,
    pub current_file: Option<Seq<char>>,
    pub current_module: Option<Seq<char>>,
    pub expand: bool,
}

pub open spec fn is_full(v: LiveTextView) -> bool {
    v.results.len() >= v.limit
}

pub open spec fn results_left(v: LiveTextView) -> usize {
    if is_full(v) {
        0
    } else {
        (v.limit - v.results.len()) as usize
    }
}

pub open spec fn lesser(a: usize, b: usize) -> usize {
    if a < b {
        a
    } else {
        b
    }
}

/// What tells one line from another.
pub open spec fn line_id(m: LineView) -> Seq<char> {
    unix_path(m.path) + "\t"@ + text::decimal(m.line_number as int)
}

/// The item of a line.
pub open spec fn line_item(pattern: Seq<char>, source: Seq<char>, m: LineView) -> ItemView {
    seq![
        ("name"@, FieldView::Text(pattern)),
        ("type"@, FieldView::Text("text"@)),
        ("path"@, FieldView::Text(unix_path(m.path))),
        ("line"@, FieldView::Int(m.line_number)),
        ("text"@, FieldView::Text(text::trimmed(m.line_text))),
        ("source"@, FieldView::Text(source)),
    ]
}

/// The search with one more line, unless it was found before.
pub open spec fn with_line(v: LiveTextView, m: LineView) -> LiveTextView {
    if v.lines.contains(line_id(m)) {
        v
    } else {
        LiveTextView {
            results: v.results.push(line_item(v.pattern, v.source, m)),
            lines: v.lines.push(line_id(m)),
            ..v
        }
    }
}

/// The lines of the file that is edited, from position `k` on, after so many bytes.
pub open spec fn file_scanned(v: LiveTextView, list: Seq<LineView>, k: int, bytes: usize) -> LiveTextView
    decreases list.len() - k,
{
    if k < 0 || k >= list.len() {
        v
    } else {
        let more = sum_or_max(bytes, text::byte_len(list[k].line_text) as usize);
        let w = with_line(v, list[k]);
        if !v.lines.contains(line_id(list[k])) && (more >= v.budget.max_bytes || is_full(w)
            || w.results.len() >= v.budget.max_results) {
            w
        } else {
            file_scanned(w, list, k + 1, more)
        }
    }
}

/// The line lies in what is searched.
pub open spec fn in_phase(v: LiveTextView, m: LineView) -> bool {
    match v.phase {
        TextPhase::Module => m.module_name is Some && v.current_module is Some
            && text::same_caseless(m.module_name->0, v.current_module->0),
        TextPhase::Plugin => v.current_file is Some && plugin_root(v.current_file->0) is Some
            && text::starts(
            text::lower(unix_path(m.path)),
            text::lower(plugin_root(v.current_file->0)->0),
        ),
        _ => true,
    }
}

pub open spec fn with_path(paths: Seq<Seq<char>>, path: Seq<char>) -> Seq<Seq<char>> {
    if paths.contains(path) {
        paths
    } else {
        paths.push(path)
    }
}

/// The lines of all files, from position `k` on, after so many bytes of these paths.
pub open spec fn index_scanned(
    v: LiveTextView,
    list: Seq<LineView>,
    k: int,
    paths: Seq<Seq<char>>,
    bytes: usize,
) -> LiveTextView
    decreases list.len() - k,
{
    if k < 0 || k >= list.len() {
        v
    } else {
        let path = unix_path(list[k].path);
        let seen = with_path(paths, path);
        let more = sum_or_max(bytes, text::byte_len(list[k].line_text) as usize);
        let w = with_line(v, list[k]);
        if !in_phase(v, list[k]) || !searchable(path) {
            index_scanned(v, list, k + 1, paths, bytes)
        } else if seen.len() > v.budget.max_files || bytes >= v.budget.max_bytes || is_full(v) {
            v
        } else if more >= v.budget.max_bytes || is_full(w) || w.results.len()
            >= v.budget.max_results {
            w
        } else {
            index_scanned(w, list, k + 1, seen, more)
        }
    }
}

pub open spec fn can_scan(v: LiveTextView) -> bool {
    !is_full(v) && v.budget.max_results > 0
}

pub open spec fn from_all(v: LiveTextView) -> LiveTextView {
    LiveTextView {
        phase: if can_scan(v) {
            TextPhase::All
        } else {
            TextPhase::Done
        },
        ..v
    }
}

pub open spec fn from_plugin(v: LiveTextView) -> LiveTextView {
    if v.current_file is Some && plugin_root(v.current_file->0) is Some && can_scan(v) {
        LiveTextView { phase: TextPhase::Plugin, ..v }
    } else {
        from_all(v)
    }
}

pub open spec fn wide_budget(v: LiveTextView) -> TextScanBudget {
    TextScanBudget {
        max_files: 200,
        max_bytes: 33_554_432,
        max_results: lesser(results_left(v), 30),
    }
}

pub open spec fn from_module_on(v: LiveTextView) -> LiveTextView {
    if is_full(v) || !v.expand {
        LiveTextView { phase: TextPhase::Done, ..v }
    } else {
        from_plugin(LiveTextView { budget: wide_budget(v), ..v })
    }
}

pub open spec fn from_module(v: LiveTextView) -> LiveTextView {
    if v.current_module is Some && text::trimmed(v.current_module->0).len() > 0 && can_scan(v) {
        LiveTextView { phase: TextPhase::Module, ..v }
    } else {
        from_module_on(v)
    }
}

pub open spec fn from_file(v: LiveTextView) -> LiveTextView {
    if v.current_file is Some && searchable(v.current_file->0) && can_scan(v) {
        LiveTextView { phase: TextPhase::File, ..v }
    } else {
        from_module(v)
    }
}

/// The search of a project before anything was asked.
pub open spec fn project_search(
    pattern: Seq<char>,
    limit: usize,
    current_file: Option<Seq<char>>,
    current_module: Option<Seq<char>>,
    repeated_query: bool,
) -> LiveTextView {
    from_file(
        LiveTextView {
            pattern,
            source: "project"@,
            limit,
            results: Seq::empty(),
            lines: Seq::empty(),
            phase: TextPhase::File,
            budget: TextScanBudget {
                max_files: 50,
                max_bytes: 8_388_608,
                max_results: lesser(limit, 10),
            },
            current_file,
            current_module,
            expand: text_like(pattern) || literal_code(pattern) || repeated_query,
        },
    )
}

/// The search of the engine before anything was asked.
pub open spec fn engine_search(pattern: Seq<char>, limit: usize) -> LiveTextView {
    from_all(
        LiveTextView {
            pattern,
            source: "engine"@,
            limit,
            results: Seq::empty(),
            lines: Seq::empty(),
            phase: TextPhase::All,
            budget: TextScanBudget {
                max_files: 1000,
                max_bytes: 67_108_864,
                max_results: lesser(limit, 50),
            },
            current_file: None,
            current_module: None,
            expand: true,
        },
    )
}

/// The search after an answer.
pub open spec fn text_answered(v: LiveTextView, list: Seq<LineView>) -> LiveTextView {
    match v.phase {
        TextPhase::File => from_module(file_scanned(v, list, 0, 0)),
        TextPhase::Module => from_module_on(index_scanned(v, list, 0, Seq::empty(), 0)),
        TextPhase::Plugin => from_all(index_scanned(v, list, 0, Seq::empty(), 0)),
        TextPhase::All => LiveTextView {
            phase: TextPhase::Done,
            ..index_scanned(v, list, 0, Seq::empty(), 0)
        },
        TextPhase::Done => v,
    }
}

pub open spec fn times_24(n: usize) -> usize {
    if n * 24 > usize::MAX {
        usize::MAX
    } else {
        (n * 24) as usize
    }
}

/// How many lines the store is asked for, where all files are searched.
pub open spec fn candidate_limit(budget: TextScanBudget) -> usize {
    let files = times_24(budget.max_files);
    let results = times_24(budget.max_results);
    within(
        if files > results {
            files
        } else {
            results
        },
        256,
        8192,
    )
}

fn times_24_of(n: usize) -> (r: usize)
    ensures
        r == times_24(n),
{
    if n > usize::MAX / 24 {
        usize::MAX
    } else {
        n * 24
    }
}

impl LiveTextSearch {
    pub open spec fn view(&self) -> LiveTextView {
        LiveTextView {
            pattern: self.pattern@,
            source: self.source@,
            limit: self.limit,
            results: items(self.results@),
            lines: text::texts(self.lines@),
            phase: self.phase,
            budget: self.budget,
            current_file: text::opt_text(self.current_file),
            current_module: text::opt_text(self.current_module),
            expand: self.expand,
        }
    }

    /// The lines that were found are remembered.
    pub open spec fn well_formed(self) -> bool {
        forall|s: Seq<char>|
            (#[trigger] self.seen.spec_get(s)) is Some <==> text::texts(self.lines@).contains(s)
    }

    /// Begins to search a project.
    pub fn run_project_live_text_search(
        pattern: &str,
        limit: usize,
        current_file: Option<&str>,
        current_module: Option<&str>,
        repeated_query: bool,
    ) -> (r: Self)
        ensures
            r.well_formed(),
            r@ == project_search(
                pattern@,
                limit,
                text::opt_str(current_file),
                text::opt_str(current_module),
                repeated_query,
            ),
    {
        let expand = live_find_is_text_like_query(pattern) || live_find_is_literal_code_query(
            pattern,
        ) || repeated_query;
        let max_results: usize = if limit < 10 {
            limit
        } else {
            10
        };
        let r = LiveTextSearch {
            pattern: text::copy_of(pattern),
            source: text::copy_of("project"),
            limit,
            results: Vec::new(),
            lines: Vec::new(),
            seen: TextMap::new(),
            phase: TextPhase::File,
            budget: TextScanBudget { max_files: 50, max_bytes: 8_388_608, max_results },
            current_file: text::copy_opt_str(current_file),
            current_module: text::copy_opt_str(current_module),
            expand,
        };
        assert(r@.results =~= Seq::<ItemView>::empty());
        assert(r@.lines =~= Seq::<Seq<char>>::empty());
        r.to_file()
    }

    /// Begins to search the engine.
    pub fn run_engine_live_text_search(pattern: &str, limit: usize) -> (r: Self)
        ensures
            r.well_formed(),
            r@ == engine_search(pattern@, limit),
    {
        let max_results: usize = if limit < 50 {
            limit
        } else {
            50
        };
        let r = LiveTextSearch {
            pattern: text::copy_of(pattern),
            source: text::copy_of("engine"),
            limit,
            results: Vec::new(),
            lines: Vec::new(),
            seen: TextMap::new(),
            phase: TextPhase::All,
            budget: TextScanBudget { max_files: 1000, max_bytes: 67_108_864, max_results },
            current_file: None,
            current_module: None,
            expand: true,
        };
        assert(r@.results =~= Seq::<ItemView>::empty());
        assert(r@.lines =~= Seq::<Seq<char>>::empty());
        r.to_all()
    }

    pub fn remaining_results(&self) -> (r: usize)
        ensures
            r == results_left(self@),
    {
        assert(self@.results.len() == self.results@.len());
        if self.results.len() >= self.limit {
            0
        } else {
            self.limit - self.results.len()
        }
    }

    pub fn is_done(&self) -> (r: bool)
        ensures
            r == is_full(self@),
    {
        assert(self@.results.len() == self.results@.len());
        self.results.len() >= self.limit
    }

    fn may_scan(&self) -> (r: bool)
        ensures
            r == can_scan(self@),
    {
        !self.is_done() && self.budget.max_results > 0
    }

    fn to_all(self) -> (r: Self)
        requires
            self.well_formed(),
        ensures
            r.well_formed(),
            r@ == from_all(self@),
    {
        let phase = if self.may_scan() {
            TextPhase::All
        } else {
            TextPhase::Done
        };
        LiveTextSearch { phase, ..self }
    }

    fn plugin(&self) -> (r: Option<String>)
        ensures
            text::opt_text(r) == match self@.current_file {
                Some(f) => plugin_root(f),
                None => None,
            },
    {
        match &self.current_file {
            Some(f) => live_find_plugin_root(f),
            None => None,
        }
    }

    fn to_plugin(self) -> (r: Self)
        requires
            self.well_formed(),
        ensures
            r.well_formed(),
            r@ == from_plugin(self@),
    {
        if self.plugin().is_some() && self.may_scan() {
            LiveTextSearch { phase: TextPhase::Plugin, ..self }
        } else {
            self.to_all()
        }
    }

    fn beyond_module(self) -> (r: Self)
        requires
            self.well_formed(),
        ensures
            r.well_formed(),
            r@ == from_module_on(self@),
    {
        if self.is_done() || !self.expand {
            return LiveTextSearch { phase: TextPhase::Done, ..self };
        }
        let left = self.remaining_results();
        let max_results: usize = if left < 30 {
            left
        } else {
            30
        };
        let budget = TextScanBudget { max_files: 200, max_bytes: 33_554_432, max_results };
        let w = LiveTextSearch { budget, ..self };
        w.to_plugin()
    }

    fn to_module(self) -> (r: Self)
        requires
            self.well_formed(),
        ensures
            r.well_formed(),
            r@ == from_module(self@),
    {
        let named = match &self.current_module {
            Some(m) => !text::trim(m).is_empty(),
            None => false,
        };
        if named && self.may_scan() {
            LiveTextSearch { phase: TextPhase::Module, ..self }
        } else {
            self.beyond_module()
        }
    }

    fn to_file(self) -> (r: Self)
        requires
            self.well_formed(),
        ensures
            r.well_formed(),
            r@ == from_file(self@),
    {
        let found = match &self.current_file {
            Some(f) => is_live_text_searchable_path(f),
            None => false,
        };
        if found && self.may_scan() {
            LiveTextSearch { phase: TextPhase::File, ..self }
        } else {
            self.to_module()
        }
    }

    /// What the store is asked for next; nothing where the search has ended.
    pub fn next_request(&self) -> (r: Option<TextScanRequest>)
        ensures
            match r {
                None => self.phase == TextPhase::Done,
                Some(q) => if self.phase == TextPhase::File {
                    text::opt_text(q.path) == self@.current_file && q.limit == if self.budget.max_results
                        < 8 {
                        8
                    } else {
                        self.budget.max_results
                    }
                } else {
                    self.phase != TextPhase::Done && q.path is None && q.limit == candidate_limit(
                        self.budget,
                    )
                },
            },
    {
        match self.phase {
            TextPhase::Done => None,
            TextPhase::File => Some(
                TextScanRequest {
                    path: text::copy_opt(&self.current_file),
                    limit: if self.budget.max_results < 8 {
                        8
                    } else {
                        self.budget.max_results
                    },
                },
            ),
            _ => {
                let files = times_24_of(self.budget.max_files);
                let results = times_24_of(self.budget.max_results);
                let most: usize = if files > results {
                    files
                } else {
                    results
                };
                Some(TextScanRequest { path: None, limit: clamped(most, 256, 8192) })
            },
        }
    }

    /// Adds a line, unless it was found before.
    pub fn push_live_text_match(&mut self, m: &TextLineMatch) -> (r: bool)
        requires
            old(self).well_formed(),
        ensures
            final(self).well_formed(),
            final(self)@ == with_line(old(self)@, m@),
            r == !old(self)@.lines.contains(line_id(m@)),
    {
        let path = normalize_to_unix(&m.path);
        let id = text::concat3(&path, "\t", &text::decimal_i64(m.line_number));
        assert(id@ == line_id(m@));
        let ghost before = *self;
        assert(self.seen.spec_get(id@) is Some <==> text::texts(self.lines@).contains(id@));
        if self.seen.contains(&id) {
            return false;
        }
        let item = Item::new().and("name", Field::text(&self.pattern)).and(
            "type",
            Field::text("text"),
        ).and("path", Field::text(&path)).and("line", Field::Int(m.line_number)).and(
            "text",
            Field::text(text::trim(&m.line_text)),
        ).and("source", Field::text(&self.source));
        assert(item@ =~= line_item(self.pattern@, self.source@, m@));
        self.seen.insert(&id, true);
        self.results.push(item);
        self.lines.push(id);
        proof {
            assert(items(self.results@) =~= items(before.results@).push(item@));
            assert(text::texts(self.lines@) =~= text::texts(before.lines@).push(id@));
            crate::textmap::lemma_get_with(before.seen, self.seen, id@, true);
            assert forall|s: Seq<char>|
                (#[trigger] self.seen.spec_get(s)) is Some <==> text::texts(
                    self.lines@,
                ).contains(s) by {
                let a = text::texts(before.lines@);
                let b = text::texts(self.lines@);
                assert(before.seen.spec_get(s) is Some <==> a.contains(s));
                if a.contains(s) {
                    let i = a.index_of(s);
                    assert(b[i] == s);
                }
                if s == id@ {
                    assert(b[a.len() as int] == s);
                }
                if b.contains(s) && s != id@ {
                    let i = b.index_of(s);
                    assert(a[i] == s);
                }
            }
        }
        true
    }

    fn scan_single_text_path(&mut self, list: &Vec<TextLineMatch>)
        requires
            old(self).well_formed(),
        ensures
            final(self).well_formed(),
            final(self)@ == file_scanned(old(self)@, line_views(list@), 0, 0),
    {
        let ghost all = line_views(list@);
        let ghost whole = file_scanned(self@, all, 0, 0);
        let max_bytes = self.budget.max_bytes;
        let max_results = self.budget.max_results;
        let mut bytes: usize = 0;
        let n: usize = list.len();
        let mut i: usize = 0;
        while i < n
            invariant
                self.well_formed(),
                all == line_views(list@),
                n == list@.len(),
                i <= n,
                self.budget.max_bytes == max_bytes,
                self.budget.max_results == max_results,
                whole == file_scanned(old(self)@, line_views(list@), 0, 0),
                whole == file_scanned(self@, all, i as int, bytes),
            decreases n - i,
        {
            let m = &list[i];
            assert(all[i as int] == m@);
            bytes = saturated_sum(bytes, text::bytes_in(&m.line_text));
            let fresh = self.push_live_text_match(m);
            if fresh {
                assert(self@.results.len() == self.results@.len());
                if bytes >= max_bytes || self.is_done() || self.results.len() >= max_results {
                    return ;
                }
            }
            i = i + 1;
        }
    }

    fn allows(&self, m: &TextLineMatch, path: &str) -> (r: bool)
        requires
            path@ == unix_path(m@.path),
        ensures
            r == in_phase(self@, m@),
    {
        match self.phase {
            TextPhase::Module => match (&m.module_name, &self.current_module) {
                (Some(a), Some(b)) => text::eq_caseless(a, b),
                _ => false,
            },
            TextPhase::Plugin => match self.plugin() {
                Some(root) => text::starts_with(&text::to_lower(path), &text::to_lower(&root)),
                None => false,
            },
            _ => true,
        }
    }

    fn scan_text_index_matches(&mut self, list: &Vec<TextLineMatch>)
        requires
            old(self).well_formed(),
        ensures
            final(self).well_formed(),
            final(self)@ == index_scanned(old(self)@, line_views(list@), 0, Seq::empty(), 0),
    {
        let ghost all = line_views(list@);
        let ghost whole = index_scanned(self@, all, 0, Seq::empty(), 0);
        let ghost mut paths: Seq<Seq<char>> = Seq::empty();
        let max_files = self.budget.max_files;
        let max_bytes = self.budget.max_bytes;
        let max_results = self.budget.max_results;
        let mut seen_paths: TextMap<bool> = TextMap::new();
        let mut files: usize = 0;
        let mut bytes: usize = 0;
        let n: usize = list.len();
        let mut i: usize = 0;
        while i < n
            invariant
                self.well_formed(),
                all == line_views(list@),
                n == list@.len(),
                i <= n,
                files == paths.len(),
                files <= i,
                forall|p: Seq<char>|
                    (#[trigger] seen_paths.spec_get(p)) is Some <==> paths.contains(p),
                self.budget.max_files == max_files,
                self.budget.max_bytes == max_bytes,
                self.budget.max_results == max_results,
                whole == index_scanned(old(self)@, line_views(list@), 0, Seq::empty(), 0),
                whole == index_scanned(self@, all, i as int, paths, bytes),
            decreases n - i,
        {
            let m = &list[i];
            assert(all[i as int] == m@);
            let path = normalize_to_unix(&m.path);
            if self.allows(m, &path) && is_live_text_searchable_path(&path) {
                let ghost before = seen_paths;
                let ghost old_paths = paths;
                assert(seen_paths.spec_get(path@) is Some <==> paths.contains(path@));
                if !seen_paths.contains(&path) {
                    seen_paths.insert(&path, true);
                    files = files + 1;
                    proof {
                        paths = paths.push(path@);
                        crate::textmap::lemma_get_with(before, seen_paths, path@, true);
                        assert forall|p: Seq<char>|
                            (#[trigger] seen_paths.spec_get(p)) is Some <==> paths.contains(p) by {
                            assert(before.spec_get(p) is Some <==> old_paths.contains(p));
                            if old_paths.contains(p) {
                                let j = old_paths.index_of(p);
                                assert(paths[j] == p);
                            }
                            if p == path@ {
                                assert(paths[old_paths.len() as int] == p);
                            }
                            if paths.contains(p) && p != path@ {
                                let j = paths.index_of(p);
                                assert(old_paths[j] == p);
                            }
                        }
                    }
                }
                assert(paths == with_path(old_paths, path@));
                if files > max_files || bytes >= max_bytes || self.is_done() {
                    return ;
                }
                bytes = saturated_sum(bytes, text::bytes_in(&m.line_text));
                let _ = self.push_live_text_match(m);
                assert(self@.results.len() == self.results@.len());
                if bytes >= max_bytes || self.is_done() || self.results.len() >= max_results {
                    return ;
                }
            }
            i = i + 1;
        }
    }

    /// Takes the lines that the store answered with, and goes on to what is searched next.
    pub fn take(self, list: Vec<TextLineMatch>) -> (r: Self)
        requires
            self.well_formed(),
        ensures
            r.well_formed(),
            r@ == text_answered(self@, line_views(list@)),
    {
        let mut s = self;
        match s.phase {
            TextPhase::File => {
                s.scan_single_text_path(&list);
                s.to_module()
            },
            TextPhase::Module => {
                s.scan_text_index_matches(&list);
                s.beyond_module()
            },
            TextPhase::Plugin => {
                s.scan_text_index_matches(&list);
                s.to_all()
            },
            TextPhase::All => {
                s.scan_text_index_matches(&list);
                LiveTextSearch { phase: TextPhase::Done, ..s }
            },
            TextPhase::Done => s,
        }
    }
}

// ---------------------------------------------------------------------------
// What holds of every search
// ---------------------------------------------------------------------------
/// No line is found twice, and each result is that of a line.
pub open spec fn sound(v: LiveTextView) -> bool {
    &&& v.lines.no_duplicates()
    &&& v.results.len() == v.lines.len()
    &&& v.results.len() <= v.limit
}

proof fn lemma_with_line_sound(v: LiveTextView, m: LineView)
    requires
        sound(v),
        !is_full(v),
    ensures
        sound(with_line(v, m)),
{
    if !v.lines.contains(line_id(m)) {
        let w = with_line(v, m);
        assert forall|i: int, j: int|
            0 <= i < w.lines.len() && 0 <= j < w.lines.len() && i != j implies w.lines[i]
            != w.lines[j] by {
            if i < v.lines.len() && j == v.lines.len() {
                assert(v.lines.contains(w.lines[i]));
            }
            if j < v.lines.len() && i == v.lines.len() {
                assert(v.lines.contains(w.lines[j]));
            }
        }
    }
}

proof fn lemma_file_scan_sound(v: LiveTextView, list: Seq<LineView>, k: int, bytes: usize)
    requires
        sound(v),
        !is_full(v),
    ensures
        sound(file_scanned(v, list, k, bytes)),
    decreases list.len() - k,
{
    if 0 <= k < list.len() {
        lemma_with_line_sound(v, list[k]);
        let more = sum_or_max(bytes, text::byte_len(list[k].line_text) as usize);
        let w = with_line(v, list[k]);
        if !(!v.lines.contains(line_id(list[k])) && (more >= v.budget.max_bytes || is_full(w)
            || w.results.len() >= v.budget.max_results)) {
            lemma_file_scan_sound(w, list, k + 1, more);
        }
    }
}

proof fn lemma_index_scan_sound(
    v: LiveTextView,
    list: Seq<LineView>,
    k: int,
    paths: Seq<Seq<char>>,
    bytes: usize,
)
    requires
        sound(v),
    ensures
        sound(index_scanned(v, list, k, paths, bytes)),
    decreases list.len() - k,
{
    if 0 <= k < list.len() {
        let path = unix_path(list[k].path);
        let seen = with_path(paths, path);
        let more = sum_or_max(bytes, text::byte_len(list[k].line_text) as usize);
        let w = with_line(v, list[k]);
        if !in_phase(v, list[k]) || !searchable(path) {
            lemma_index_scan_sound(v, list, k + 1, paths, bytes);
        } else if seen.len() > v.budget.max_files || bytes >= v.budget.max_bytes || is_full(v) {
        } else {
            lemma_with_line_sound(v, list[k]);
            if more >= v.budget.max_bytes || is_full(w) || w.results.len()
                >= v.budget.max_results {
            } else {
                lemma_index_scan_sound(w, list, k + 1, seen, more);
            }
        }
    }
}

/// A search of a project begins sound.
pub proof fn project_search_begins_sound(
    pattern: Seq<char>,
    limit: usize,
    current_file: Option<Seq<char>>,
    current_module: Option<Seq<char>>,
    repeated_query: bool,
)
    ensures
        sound(project_search(pattern, limit, current_file, current_module, repeated_query)),
        sound(engine_search(pattern, limit)),
{
}

/// Whatever the store answers, no line is found twice and the limit is kept; a search that has
/// not ended and can still scan stays so.
pub proof fn answers_keep_search_sound(v: LiveTextView, list: Seq<LineView>)
    requires
        sound(v),
        v.phase != TextPhase::Done ==> !is_full(v),
    ensures
        sound(text_answered(v, list)),
        text_answered(v, list).phase != TextPhase::Done ==> !is_full(text_answered(v, list)),
{
    match v.phase {
        TextPhase::File => lemma_file_scan_sound(v, list, 0, 0),
        TextPhase::Done => {},
        _ => lemma_index_scan_sound(v, list, 0, Seq::empty(), 0),
    }
}

/// The phase's number, counted from the end.
pub open spec fn phases_left(p: TextPhase) -> nat {
    match p {
        TextPhase::File => 4,
        TextPhase::Module => 3,
        TextPhase::Plugin => 2,
        TextPhase::All => 1,
        TextPhase::Done => 0,
    }
}

/// Every answer brings the search nearer to its end.
pub proof fn answers_end_the_search(v: LiveTextView, list: Seq<LineView>)
    requires
        v.phase != TextPhase::Done,
    ensures
        phases_left(text_answered(v, list).phase) < phases_left(v.phase),
{
}

} // verus!
