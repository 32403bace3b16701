//! Live find: symbols, files and lines of the project and of the engine, while the user types.
//!
//! The search goes through stages, each of which asks one source. It says what is asked for next,
//! and takes the answer; what the project gave can be shown before the engine is asked.
use vstd::prelude::*;

use super::path::{normalize_to_unix, unix_path};
use super::profile::{
    literal_code, live_find_is_literal_code_query, live_find_is_text_like_query,
    live_find_text_limit, profile_of, text_like, text_limit, SearchQueryProfile,
};
use super::rank::{
    good_matches, live_find_append_delta, live_find_hqh_count, live_ranked, merge_query_results,
    paths_from, rank_live_find_results, result_path_count, unsent_from,
};
use crate::query::item::{
    all_tagged, append_items, copy_items, has_like, identity, items, merged, page, page_of, tag_source, Item,
    ItemView, Likeness,
};
use crate::query::pattern::{clamped, saturated_sum, sum_or_max, within};
use crate::query::search::{offset_kept, MAX_OFFSET};
use crate::text;

verus! {

/// The stages of a live search.
#[derive(Clone, Copy, PartialEq, Eq, Structural, Debug)]
pub enum LiveStep {
    /// Lines of the project, for a query that only text can answer.
    TextOnly,
    /// Lines of the engine, for such a query.
    TextOnlyEngine,
    /// Symbols and files of the project.
    Project,
    /// Lines of the project, in place of symbols and files.
    ReliableText,
    /// Lines of the project, besides symbols and files.
    ProjectLines,
    /// Symbols and files of the engine.
    Engine,
    /// Lines of the engine.
    EngineLines,
    Done,
}

/// A live search under way.
pub struct LiveFind {
    pub pattern: String,
    pub limit: usize,
    pub offset: usize,
    /// How many results are looked for.
    pub target: usize,
    pub current_file: Option<String>,
    pub current_module: Option<String>,
    pub current_file_in_project: bool,
    pub repeated_query: bool,
    pub step: LiveStep,
    pub results: Vec<Item>,
    /// The page that the project gave.
    pub sent: Vec<Item>,
    /// That page was made by the last answer.
    pub announce: bool,
    pub text_count: usize,
    /// The engine is not asked for symbols and files.
    pub skip_engine: bool,
    /// Lines are looked at.
    pub run_text: bool,
}

#[verifier::ext_equal]
pub struct LiveView {
    pub pattern: Seq<char>,
    pub limit: usize,
    pub offset: usize,
    pub target: usize,
    pub current_file: Option<Seq<char>>,
    pub current_module: Option<Seq<char>>,
    pub current_file_in_project: bool,
    pub repeated_query: bool,
    pub step: LiveStep,
    pub results: Seq<ItemView>,
    pub sent: Seq<ItemView>,
    pub announce: bool,
    pub text_count: usize,
    pub skip_engine: bool,
    pub run_text: bool,
}

/// The file that is edited; a blank path is none.
pub open spec fn edited_file(path: Option<Seq<char>>) -> Option<Seq<char>> {
    match path {
        Some(p) => if text::trimmed(p).len() > 0 {
            Some(unix_path(p))
        } else {
            None
        },
        None => None,
    }
}

pub open spec fn ranked(v: LiveView, list: Seq<ItemView>) -> LiveView {
    LiveView { results: live_ranked(list, v.pattern, v.current_file, v.current_module), ..v }
}

/// The page of what was found so far is ready to be shown.
pub open spec fn announced(v: LiveView) -> LiveView {
    LiveView { sent: page(v.results, v.offset as nat, v.limit as nat), announce: true, ..v }
}

pub open spec fn joined_with(v: LiveView, more: Seq<ItemView>) -> LiveView {
    ranked(v, merged(Likeness::Result, v.results, more, 0, v.target as nat))
}

pub open spec fn wants_engine_lines(v: LiveView) -> bool {
    v.run_text && v.repeated_query && v.results.len() < v.target && (text_like(v.pattern)
        || literal_code(v.pattern)) && v.text_count < text_limit(
        v.pattern,
        v.limit,
        v.repeated_query,
    )
}

pub open spec fn to_engine_lines(v: LiveView) -> LiveView {
    LiveView {
        step: if wants_engine_lines(v) {
            LiveStep::EngineLines
        } else {
            LiveStep::Done
        },
        ..v
    }
}

pub open spec fn to_engine(v: LiveView) -> LiveView {
    if !v.skip_engine && v.results.len() < v.target {
        LiveView { step: LiveStep::Engine, ..v }
    } else {
        to_engine_lines(v)
    }
}

/// The search once the project has answered all it is asked for.
pub open spec fn project_done(v: LiveView, list: Seq<ItemView>) -> LiveView {
    to_engine(announced(ranked(v, list)))
}

/// What the first answer decides: whether the engine is asked, and whether lines are looked at.
pub open spec fn decided(v: LiveView) -> LiveView {
    let profile = profile_of(v.pattern);
    let count = v.results.len();
    let hqh = good_matches(v.results, count as int) as usize;
    LiveView {
        skip_engine: profile.live_skip(
            v.target,
            count as usize,
            paths_from(v.results, 0).to_set().len() as usize,
            hqh,
            v.current_file_in_project,
        ) is Some,
        run_text: profile.forces_text(hqh) || profile.runs_text_stage(hqh, v.repeated_query),
        step: if profile.forces_text(hqh) {
            LiveStep::ReliableText
        } else {
            LiveStep::ProjectLines
        },
        ..v
    }
}

/// The search after an answer; there is none where a source could not be opened.
pub open spec fn live_answered(u: LiveView, answer: Option<Seq<ItemView>>) -> LiveView {
    let v = LiveView { announce: false, ..u };
    let rows = match answer {
        Some(r) => r,
        None => Seq::empty(),
    };
    match v.step {
        LiveStep::TextOnly => {
            let w = announced(ranked(v, all_tagged(rows, "project"@)));
            LiveView {
                step: if w.repeated_query && w.results.len() < w.target {
                    LiveStep::TextOnlyEngine
                } else {
                    LiveStep::Done
                },
                ..w
            }
        },
        LiveStep::TextOnlyEngine => {
            let w = LiveView { step: LiveStep::Done, ..v };
            if answer is Some {
                joined_with(w, all_tagged(rows, "engine"@))
            } else {
                w
            }
        },
        LiveStep::Project => {
            let w = decided(ranked(v, all_tagged(rows, "project"@)));
            if w.run_text {
                w
            } else {
                project_done(w, w.results)
            }
        },
        LiveStep::ReliableText => project_done(
            LiveView { text_count: rows.len() as usize, ..v },
            if rows.len() > 0 {
                all_tagged(rows, "project"@)
            } else {
                v.results
            },
        ),
        LiveStep::ProjectLines => project_done(
            LiveView { text_count: rows.len() as usize, ..v },
            v.results + rows,
        ),
        LiveStep::Engine => if answer is Some {
            to_engine_lines(joined_with(v, all_tagged(rows, "engine"@)))
        } else {
            to_engine_lines(v)
        },
        LiveStep::EngineLines => {
            let w = LiveView { step: LiveStep::Done, ..v };
            if answer is Some {
                joined_with(w, rows)
            } else {
                w
            }
        },
        LiveStep::Done => v,
    }
}

/// The search before anything was asked.
pub open spec fn live_begun(
    pattern: Seq<char>,
    limit: usize,
    offset: usize,
    current_file: Option<Seq<char>>,
    current_module: Option<Seq<char>>,
    current_file_in_project: bool,
    repeated_query: bool,
) -> LiveView {
    let q = text::trimmed(pattern);
    let kept = within(limit, 1, 500);
    LiveView {
        pattern: q,
        limit: kept,
        offset: offset_kept(offset),
        target: within(sum_or_max(offset_kept(offset), kept), 1, 500),
        current_file: edited_file(current_file),
        current_module,
        current_file_in_project,
        repeated_query,
        step: if q.len() == 0 {
            LiveStep::Done
        } else if profile_of(q).text_only(q) {
            LiveStep::TextOnly
        } else {
            LiveStep::Project
        },
        results: Seq::empty(),
        sent: Seq::empty(),
        announce: false,
        text_count: 0,
        skip_engine: false,
        run_text: false,
    }
}

/// How many results a stage asks for.
pub open spec fn asked_for(v: LiveView) -> usize {
    match v.step {
        LiveStep::Engine => {
            let left = (v.target - v.results.len()) as usize;
            let some: usize = if v.limit < 64 {
                v.limit
            } else {
                64
            };
            within(
                if left > some {
                    left
                } else {
                    some
                },
                1,
                v.target,
            )
        },
        LiveStep::ProjectLines => text_limit(v.pattern, v.limit, v.repeated_query),
        LiveStep::EngineLines => (text_limit(v.pattern, v.limit, v.repeated_query)
            - v.text_count) as usize,
        _ => v.target,
    }
}

/// The answer to the request. Where the page of the project was sent, only what is new.
pub open spec fn live_shown(v: LiveView, streaming: bool) -> Seq<ItemView> {
    let last = page(v.results, v.offset as nat, v.limit as nat);
    if streaming {
        unsent_from(last, v.sent, 0)
    } else {
        last
    }
}

impl LiveFind {
    pub open spec fn view(&self) -> LiveView {
        LiveView {
            pattern: self.pattern@,
            limit: self.limit,
            offset: self.offset,
            target: self.target,
            current_file: text::opt_text(self.current_file),
            current_module: text::opt_text(self.current_module),
            current_file_in_project: self.current_file_in_project,
            repeated_query: self.repeated_query,
            step: self.step,
            results: items(self.results@),
            sent: items(self.sent@),
            announce: self.announce,
            text_count: self.text_count,
            skip_engine: self.skip_engine,
            run_text: self.run_text,
        }
    }

    /// Begins a live search. The module of the edited file, and whether the file belongs to the
    /// project, are known to the store of the project.
    pub fn unified_live_find_with_engine(
        pattern: &str,
        limit: usize,
        offset: usize,
        current_file: Option<&str>,
        current_module: Option<&str>,
        current_file_in_project: bool,
        repeated_query: bool,
    ) -> (r: Self)
        ensures
            r@ == live_begun(
                pattern@,
                limit,
                offset,
                text::opt_str(current_file),
                text::opt_str(current_module),
                current_file_in_project,
                repeated_query,
            ),
            stage_is_due(r@),
    {
        let q = text::trim(pattern);
        let kept = clamped(limit, 1, 500);
        let from: usize = if offset > MAX_OFFSET {
            MAX_OFFSET
        } else {
            offset
        };
        let step = if q.is_empty() {
            LiveStep::Done
        } else if SearchQueryProfile::classify(q).should_use_text_only_path(q) {
            LiveStep::TextOnly
        } else {
            LiveStep::Project
        };
        let r = LiveFind {
            pattern: text::copy_of(q),
            limit: kept,
            offset: from,
            target: clamped(saturated_sum(from, kept), 1, 500),
            current_file: match current_file {
                Some(p) => if text::trim(p).is_empty() {
                    None
                } else {
                    Some(normalize_to_unix(p))
                },
                None => None,
            },
            current_module: text::copy_opt_str(current_module),
            current_file_in_project,
            repeated_query,
            step,
            results: Vec::new(),
            sent: Vec::new(),
            announce: false,
            text_count: 0,
            skip_engine: false,
            run_text: false,
        };
        assert(r@.results =~= Seq::<ItemView>::empty());
        assert(r@.sent =~= Seq::<ItemView>::empty());
        r
    }

    fn rank(self, list: &[Item]) -> (r: Self)
        ensures
            r@ == ranked(self@, items(list@)),
    {
        let results = rank_live_find_results(
            list,
            &self.pattern,
            text::opt_str_of(&self.current_file),
            text::opt_str_of(&self.current_module),
        );
        LiveFind { results, ..self }
    }

    fn make_page(self) -> (r: Self)
        ensures
            r@ == announced(self@),
    {
        let sent = page_of(self.results.as_slice(), self.offset, self.limit);
        LiveFind { sent, announce: true, ..self }
    }

    fn join(self, more: &[Item]) -> (r: Self)
        ensures
            r@ == joined_with(self@, items(more@)),
    {
        let target = self.target;
        let current = copy_items(self.results.as_slice());
        let list = merge_query_results(current, more, target);
        self.rank(list.as_slice())
    }

    fn go_on_with_lines(self) -> (r: Self)
        ensures
            r@ == to_engine_lines(self@),
    {
        assert(self@.results.len() == self.results@.len());
        let wanted = self.run_text && self.repeated_query && self.results.len() < self.target && (
        live_find_is_text_like_query(&self.pattern) || live_find_is_literal_code_query(
            &self.pattern,
        )) && self.text_count < live_find_text_limit(
            &self.pattern,
            self.limit,
            self.repeated_query,
        );
        let step = if wanted {
            LiveStep::EngineLines
        } else {
            LiveStep::Done
        };
        LiveFind { step, ..self }
    }

    fn go_on_with_engine(self) -> (r: Self)
        ensures
            r@ == to_engine(self@),
    {
        assert(self@.results.len() == self.results@.len());
        if !self.skip_engine && self.results.len() < self.target {
            LiveFind { step: LiveStep::Engine, ..self }
        } else {
            self.go_on_with_lines()
        }
    }

    fn end_project(self, list: &[Item]) -> (r: Self)
        ensures
            r@ == project_done(self@, items(list@)),
    {
        self.rank(list).make_page().go_on_with_engine()
    }

    fn decide(self) -> (r: Self)
        ensures
            r@ == decided(self@),
    {
        assert(self@.results.len() == self.results@.len());
        let profile = SearchQueryProfile::classify(&self.pattern);
        let count: usize = self.results.len();
        let paths = result_path_count(self.results.as_slice());
        let hqh = live_find_hqh_count(self.results.as_slice());
        let reason = profile.live_find_engine_skip_reason(
            self.target,
            count,
            paths,
            hqh,
            self.current_file_in_project,
        );
        let forced = profile.should_force_reliable_text_search(hqh);
        let run_text = forced || profile.should_run_live_find_text_stage(hqh, self.repeated_query);
        let step = if forced {
            LiveStep::ReliableText
        } else {
            LiveStep::ProjectLines
        };
        LiveFind { skip_engine: reason.is_some(), run_text, step, ..self }
    }

    fn go_on(self, answer: Option<Vec<Item>>) -> (r: Self)
        ensures
            r@ == live_answered(self@, opt_items(answer)),
    {
        let v = LiveFind { announce: false, ..self };
        let open = answer.is_some();
        let rows: Vec<Item> = match answer {
            Some(rows) => rows,
            None => Vec::new(),
        };
        assert(!open ==> items(rows@) =~= Seq::<ItemView>::empty());
        assert(items(rows@).len() == rows@.len());
        match v.step {
            LiveStep::TextOnly => {
                let w = v.rank(tag_source(rows, "project").as_slice()).make_page();
                assert(w@.results.len() == w.results@.len());
                let step = if w.repeated_query && w.results.len() < w.target {
                    LiveStep::TextOnlyEngine
                } else {
                    LiveStep::Done
                };
                LiveFind { step, ..w }
            },
            LiveStep::TextOnlyEngine => {
                let w = LiveFind { step: LiveStep::Done, ..v };
                if open {
                    w.join(tag_source(rows, "engine").as_slice())
                } else {
                    w
                }
            },
            LiveStep::Project => {
                let w = v.rank(tag_source(rows, "project").as_slice()).decide();
                if w.run_text {
                    w
                } else {
                    let list = copy_items(w.results.as_slice());
                    w.end_project(list.as_slice())
                }
            },
            LiveStep::ReliableText => {
                let text_count: usize = rows.len();
                let list = if text_count > 0 {
                    tag_source(rows, "project")
                } else {
                    copy_items(v.results.as_slice())
                };
                let w = LiveFind { text_count, ..v };
                w.end_project(list.as_slice())
            },
            LiveStep::ProjectLines => {
                let text_count: usize = rows.len();
                let list = append_items(copy_items(v.results.as_slice()), rows.as_slice());
                let w = LiveFind { text_count, ..v };
                w.end_project(list.as_slice())
            },
            LiveStep::Engine => {
                if open {
                    v.join(tag_source(rows, "engine").as_slice()).go_on_with_lines()
                } else {
                    v.go_on_with_lines()
                }
            },
            LiveStep::EngineLines => {
                let w = LiveFind { step: LiveStep::Done, ..v };
                if open {
                    w.join(rows.as_slice())
                } else {
                    w
                }
            },
            LiveStep::Done => v,
        }
    }

    /// Takes the answer to what was asked for; none where the source could not be opened.
    pub fn take(self, answer: Option<Vec<Item>>) -> (r: Self)
        ensures
            r@ == live_answered(self@, opt_items(answer)),
            self.step != LiveStep::Done ==> stage_is_due(r@),
    {
        let ghost rows = opt_items(answer);
        let ghost before = self@;
        let r = self.go_on(answer);
        proof {
            lemma_due(before, rows);
        }
        r
    }

    /// How many results the next stage asks for.
    pub fn next_limit(&self) -> (r: usize)
        requires
            stage_is_due(self@),
        ensures
            r == asked_for(self@),
    {
        match self.step {
            LiveStep::Engine => {
                assert(self@.results.len() == self.results@.len());
                let left: usize = self.target - self.results.len();
                let some: usize = if self.limit < 64 {
                    self.limit
                } else {
                    64
                };
                clamped(
                    if left > some {
                        left
                    } else {
                        some
                    },
                    1,
                    self.target,
                )
            },
            LiveStep::ProjectLines => live_find_text_limit(
                &self.pattern,
                self.limit,
                self.repeated_query,
            ),
            LiveStep::EngineLines => live_find_text_limit(
                &self.pattern,
                self.limit,
                self.repeated_query,
            ) - self.text_count,
            _ => self.target,
        }
    }

    /// The answer to the request.
    pub fn page(&self, streaming: bool) -> (r: Vec<Item>)
        ensures
            items(r@) == live_shown(self@, streaming),
    {
        let last = page_of(self.results.as_slice(), self.offset, self.limit);
        if streaming {
            live_find_append_delta(last.as_slice(), copy_items(self.sent.as_slice()))
        } else {
            last
        }
    }
}

// ---------------------------------------------------------------------------
// What holds of every search
// ---------------------------------------------------------------------------
/// The stage's number, counted from the end.
pub open spec fn steps_left(step: LiveStep) -> nat {
    match step {
        LiveStep::Project => 4,
        LiveStep::ReliableText => 3,
        LiveStep::ProjectLines => 3,
        LiveStep::TextOnly => 3,
        LiveStep::Engine => 2,
        LiveStep::EngineLines => 1,
        LiveStep::TextOnlyEngine => 1,
        LiveStep::Done => 0,
    }
}

/// Every answer brings a live search nearer to its end, so it asks four sources at most.
pub proof fn answers_end_live_search(v: LiveView, answer: Option<Seq<ItemView>>)
    requires
        v.step != LiveStep::Done,
    ensures
        steps_left(live_answered(v, answer).step) < steps_left(v.step),
{
}

pub open spec fn opt_items(answer: Option<Vec<Item>>) -> Option<Seq<ItemView>> {
    match answer {
        Some(rows) => Some(items(rows@)),
        None => None,
    }
}

/// What a stage relies on holds wherever the search has gone on by itself.
pub open spec fn stage_is_due(v: LiveView) -> bool {
    &&& v.step == LiveStep::Engine ==> !v.skip_engine && v.results.len() < v.target
    &&& v.step == LiveStep::EngineLines ==> wants_engine_lines(v)
}

proof fn lemma_due(v: LiveView, answer: Option<Seq<ItemView>>)
    ensures
        v.step != LiveStep::Done ==> stage_is_due(live_answered(v, answer)),
{
}

/// A stage is only asked for where it is due.
pub proof fn stages_are_due(
    pattern: Seq<char>,
    limit: usize,
    offset: usize,
    current_file: Option<Seq<char>>,
    current_module: Option<Seq<char>>,
    in_project: bool,
    repeated_query: bool,
    v: LiveView,
    answer: Option<Seq<ItemView>>,
)
    ensures
        stage_is_due(
            live_begun(
                pattern,
                limit,
                offset,
                current_file,
                current_module,
                in_project,
                repeated_query,
            ),
        ),
        v.step != LiveStep::Done ==> stage_is_due(live_answered(v, answer)),
{
}

/// A page never holds more than was asked for.
pub proof fn pages_keep_the_limit(v: LiveView, streaming: bool)
    ensures
        live_shown(v, streaming).len() <= v.limit,
        announced(v).sent.len() <= v.limit,
{
    let last = page(v.results, v.offset as nat, v.limit as nat);
    lemma_unsent_len(last, v.sent, 0);
}

proof fn lemma_unsent_len(list: Seq<ItemView>, sent: Seq<ItemView>, k: int)
    requires
        0 <= k <= list.len(),
    ensures
        unsent_from(list, sent, k).len() <= list.len() - k,
    decreases list.len() - k,
{
    if k < list.len() {
        lemma_unsent_len(list, sent, k + 1);
    }
}

/// What was sent is not sent again.
pub proof fn nothing_is_sent_twice(list: Seq<ItemView>, sent: Seq<ItemView>, k: int, i: int)
    requires
        0 <= i < unsent_from(list, sent, k).len(),
    ensures
        !has_like(
            Likeness::Result,
            sent,
            identity(Likeness::Result, unsent_from(list, sent, k)[i]),
        ),
    decreases list.len() - k,
{
    if 0 <= k < list.len() {
        if has_like(Likeness::Result, sent, identity(Likeness::Result, list[k])) {
            nothing_is_sent_twice(list, sent, k + 1, i);
        } else if i > 0 {
            nothing_is_sent_twice(list, sent, k + 1, i - 1);
        }
    }
}

/// What is not sent again was sent before: nothing of the page is lost.
pub proof fn nothing_is_lost(list: Seq<ItemView>, sent: Seq<ItemView>, k: int, j: int)
    requires
        0 <= k <= j < list.len(),
    ensures
        has_like(Likeness::Result, sent, identity(Likeness::Result, list[j])) || unsent_from(
            list,
            sent,
            k,
        ).contains(list[j]),
    decreases list.len() - k,
{
    let all = unsent_from(list, sent, k);
    let rest = unsent_from(list, sent, k + 1);
    if j == k {
        if !has_like(Likeness::Result, sent, identity(Likeness::Result, list[k])) {
            assert(all[0] == list[k]);
        }
    } else {
        nothing_is_lost(list, sent, k + 1, j);
        if rest.contains(list[j]) && all != rest {
            let i = rest.index_of(list[j]);
            assert(all[i + 1] == list[j]);
        }
    }
}

} // verus!
