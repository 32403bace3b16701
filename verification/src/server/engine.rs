//! Questions that the project answers first and the engine, which projects share, after it.
//!
//! Each question says what is asked next, and takes the answer. A source that cannot be opened or
//! fails gives no answer.
use vstd::prelude::*;

use super::profile::{profile_of, SearchQueryProfile};
use super::rank::{
    class_ranked, dedupe_and_rank_class_symbol_results, merge_query_results, paths_from,
    result_path_count,
};
use crate::query::item::{
    all_tagged, append_items, items, merged, merging_adds_new_items_only, page, page_of, tag_source,
    tagged, Item, ItemView, Likeness,
};
use crate::query::pattern::{clamped, within};
use crate::text;

verus! {

// ---------------------------------------------------------------------------
// Searches
// ---------------------------------------------------------------------------
#[derive(Clone, Copy, PartialEq, Eq, Structural, Debug)]
pub enum EngineSearchKind {
    Symbols,
    Global,
    Fast,
    Classes,
    CodeText,
}

/// Where is searched.
#[derive(Clone, Copy, PartialEq, Eq, Structural, Debug)]
pub enum SearchScope {
    Project,
    Engine,
    Both,
}

/// The scope by its name; a name that is not known stands for what is searched without one.
pub open spec fn scope_named(name: Option<Seq<char>>, other: SearchScope) -> SearchScope {
    match name {
        Some(s) => if s == "engine"@ {
            SearchScope::Engine
        } else if s == "project"@ {
            SearchScope::Project
        } else {
            other
        },
        None => other,
    }
}

fn scope_of(name: Option<&str>, other: SearchScope) -> (r: SearchScope)
    ensures
        r == scope_named(text::opt_str(name), other),
{
    match name {
        Some(s) => if text::same(s, "engine") {
            SearchScope::Engine
        } else if text::same(s, "project") {
            SearchScope::Project
        } else {
            other
        },
        None => other,
    }
}

#[derive(Clone, Copy, PartialEq, Eq, Structural, Debug)]
pub enum EngineStep {
    Project,
    Engine,
    Done,
}

/// A search of the project and the engine under way.
pub struct EngineSearch {
    pub kind: EngineSearchKind,
    pub scope: SearchScope,
    pub pattern: String,
    pub limit: usize,
    pub offset: usize,
    pub step: EngineStep,
    pub results: Vec<Item>,
}

#[verifier::ext_equal]
pub struct EngineSearchView {
    pub kind: EngineSearchKind,
    pub scope: SearchScope,
    pub pattern: Seq<char>,
    pub limit: usize,
    pub offset: usize,
    pub step: EngineStep,
    pub results: Seq<ItemView>,
}

pub open spec fn kept_limit(kind: EngineSearchKind, limit: usize) -> usize {
    match kind {
        EngineSearchKind::Fast | EngineSearchKind::CodeText => limit,
        _ => within(limit, 1, 10_000),
    }
}

/// The search before anything was asked.
pub open spec fn engine_begun(
    kind: EngineSearchKind,
    scope: SearchScope,
    pattern: Seq<char>,
    limit: usize,
    offset: usize,
) -> EngineSearchView {
    EngineSearchView {
        kind,
        scope,
        pattern,
        limit: kept_limit(kind, limit),
        offset,
        step: if scope == SearchScope::Engine {
            EngineStep::Engine
        } else {
            EngineStep::Project
        },
        results: Seq::empty(),
    }
}

pub open spec fn truncated(list: Seq<ItemView>, limit: usize) -> Seq<ItemView> {
    page(list, 0, limit as nat)
}

/// The search at its end.
pub open spec fn engine_ended(v: EngineSearchView) -> EngineSearchView {
    EngineSearchView {
        step: EngineStep::Done,
        results: if v.kind == EngineSearchKind::Classes {
            page(class_ranked(v.results, v.pattern), v.offset as nat, v.limit as nat)
        } else {
            v.results
        },
        ..v
    }
}

pub open spec fn rows_or_none(answer: Option<Seq<ItemView>>) -> Seq<ItemView> {
    match answer {
        Some(rows) => rows,
        None => Seq::empty(),
    }
}

/// The search after the project's answer.
pub open spec fn project_answered(v: EngineSearchView, rows: Seq<ItemView>) -> EngineSearchView {
    let found = all_tagged(rows, "project"@);
    let full = found.len() >= v.limit;
    let w = EngineSearchView { results: found, ..v };
    match v.kind {
        EngineSearchKind::Classes => EngineSearchView { step: EngineStep::Engine, ..w },
        EngineSearchKind::CodeText => engine_ended(w),
        EngineSearchKind::Global => if full {
            engine_ended(w)
        } else {
            EngineSearchView { step: EngineStep::Engine, ..w }
        },
        _ => if full || v.scope == SearchScope::Project {
            engine_ended(EngineSearchView { results: truncated(found, v.limit), ..w })
        } else {
            EngineSearchView { step: EngineStep::Engine, ..w }
        },
    }
}

/// The search after the engine's answer.
pub open spec fn engine_search_answered(v: EngineSearchView, rows: Seq<ItemView>) -> EngineSearchView {
    let more = all_tagged(rows, "engine"@);
    engine_ended(
        EngineSearchView {
            results: if v.scope == SearchScope::Engine {
                more
            } else {
                match v.kind {
                    EngineSearchKind::Classes => v.results + more,
                    EngineSearchKind::Global => truncated(v.results + more, v.limit),
                    _ => merged(Likeness::Result, v.results, more, 0, v.limit as nat),
                }
            },
            ..v
        },
    )
}

/// The search after an answer.
pub open spec fn engine_taken(v: EngineSearchView, answer: Option<Seq<ItemView>>) -> EngineSearchView {
    match v.step {
        EngineStep::Project => project_answered(v, rows_or_none(answer)),
        EngineStep::Engine => match answer {
            Some(rows) => engine_search_answered(v, rows),
            None => engine_ended(v),
        },
        EngineStep::Done => v,
    }
}

/// How many results are asked for next, and from which on.
pub open spec fn engine_asks(v: EngineSearchView) -> (usize, usize) {
    if v.kind == EngineSearchKind::Classes {
        (v.limit, 0)
    } else if v.step == EngineStep::Engine && v.scope != SearchScope::Engine {
        (
            if v.results.len() < v.limit {
                (v.limit - v.results.len()) as usize
            } else {
                1
            },
            0,
        )
    } else {
        (v.limit, v.offset)
    }
}

impl EngineSearch {
    pub open spec fn view(&self) -> EngineSearchView {
        EngineSearchView {
            kind: self.kind,
            scope: self.scope,
            pattern: self.pattern@,
            limit: self.limit,
            offset: self.offset,
            step: self.step,
            results: items(self.results@),
        }
    }

    fn begin(kind: EngineSearchKind, scope: SearchScope, pattern: &str, limit: usize, offset: usize) -> (r:
        Self)
        ensures
            r@ == engine_begun(kind, scope, pattern@, limit, offset),
    {
        let r = EngineSearch {
            kind,
            scope,
            pattern: text::copy_of(pattern),
            limit: match kind {
                EngineSearchKind::Fast | EngineSearchKind::CodeText => limit,
                _ => clamped(limit, 1, 10_000),
            },
            offset,
            step: match scope {
                SearchScope::Engine => EngineStep::Engine,
                _ => EngineStep::Project,
            },
            results: Vec::new(),
        };
        assert(r@.results =~= Seq::<ItemView>::empty());
        r
    }

    fn end(self) -> (r: Self)
        ensures
            r@ == engine_ended(self@),
    {
        let results = match self.kind {
            EngineSearchKind::Classes => {
                let all = dedupe_and_rank_class_symbol_results(
                    self.results.as_slice(),
                    &self.pattern,
                );
                page_of(all.as_slice(), self.offset, self.limit)
            },
            _ => self.results,
        };
        EngineSearch { step: EngineStep::Done, results, ..self }
    }

    fn take_project(self, rows: Vec<Item>) -> (r: Self)
        ensures
            r@ == project_answered(self@, items(rows@)),
    {
        let found = tag_source(rows, "project");
        assert(items(found@).len() == found@.len());
        let full = found.len() >= self.limit;
        match self.kind {
            EngineSearchKind::Classes => EngineSearch {
                step: EngineStep::Engine,
                results: found,
                ..self
            },
            EngineSearchKind::CodeText => {
                let w = EngineSearch { results: found, ..self };
                w.end()
            },
            EngineSearchKind::Global => {
                if full {
                    let w = EngineSearch { results: found, ..self };
                    w.end()
                } else {
                    EngineSearch { step: EngineStep::Engine, results: found, ..self }
                }
            },
            _ => {
                if full || self.scope == SearchScope::Project {
                    let results = page_of(found.as_slice(), 0, self.limit);
                    let w = EngineSearch { results, ..self };
                    w.end()
                } else {
                    EngineSearch { step: EngineStep::Engine, results: found, ..self }
                }
            },
        }
    }

    fn take_engine(self, rows: Vec<Item>) -> (r: Self)
        ensures
            r@ == engine_search_answered(self@, items(rows@)),
    {
        let more = tag_source(rows, "engine");
        let results = if self.scope == SearchScope::Engine {
            more
        } else {
            match self.kind {
                EngineSearchKind::Classes => append_items(self.results, more.as_slice()),
                EngineSearchKind::Global => {
                    let all = append_items(self.results, more.as_slice());
                    page_of(all.as_slice(), 0, self.limit)
                },
                _ => merge_query_results(self.results, more.as_slice(), self.limit),
            }
        };
        let w = EngineSearch { results, ..self };
        w.end()
    }

    /// Takes an answer; none where the source could not be opened or failed.
    pub fn take(self, answer: Option<Vec<Item>>) -> (r: Self)
        ensures
            r@ == engine_taken(
                self@,
                match answer {
                    Some(rows) => Some(items(rows@)),
                    None => None,
                },
            ),
    {
        match self.step {
            EngineStep::Project => match answer {
                Some(rows) => self.take_project(rows),
                None => {
                    let rows: Vec<Item> = Vec::new();
                    assert(items(rows@) =~= Seq::<ItemView>::empty());
                    self.take_project(rows)
                },
            },
            EngineStep::Engine => match answer {
                Some(rows) => self.take_engine(rows),
                None => self.end(),
            },
            EngineStep::Done => self,
        }
    }

    /// How many results are asked for next, and from which on.
    pub fn asks(&self) -> (r: (usize, usize))
        ensures
            r == engine_asks(self@),
    {
        assert(self@.results.len() == self.results@.len());
        if self.kind == EngineSearchKind::Classes {
            (self.limit, 0)
        } else if self.step == EngineStep::Engine && self.scope != SearchScope::Engine {
            if self.results.len() < self.limit {
                (self.limit - self.results.len(), 0)
            } else {
                (1, 0)
            }
        } else {
            (self.limit, self.offset)
        }
    }
}

/// Searches symbols of the project, then of the engine.
pub fn search_symbols_with_engine(pattern: &str, limit: usize, offset: usize) -> (r: EngineSearch)
    ensures
        r@ == engine_begun(
            EngineSearchKind::Symbols,
            SearchScope::Both,
            pattern@,
            limit,
            offset,
        ),
{
    EngineSearch::begin(EngineSearchKind::Symbols, SearchScope::Both, pattern, limit, offset)
}

/// Searches everything in the project, then in the engine.
pub fn global_find_with_engine(pattern: &str, limit: usize, offset: usize) -> (r: EngineSearch)
    ensures
        r@ == engine_begun(EngineSearchKind::Global, SearchScope::Both, pattern@, limit, offset),
{
    EngineSearch::begin(EngineSearchKind::Global, SearchScope::Both, pattern, limit, offset)
}

/// Searches symbols and files where the scope says; without one, in the project and the engine.
pub fn fast_find_with_scope(pattern: &str, limit: usize, offset: usize, scope: Option<&str>) -> (r:
    EngineSearch)
    ensures
        r@ == engine_begun(
            EngineSearchKind::Fast,
            scope_named(text::opt_str(scope), SearchScope::Both),
            pattern@,
            limit,
            offset,
        ),
{
    EngineSearch::begin(
        EngineSearchKind::Fast,
        scope_of(scope, SearchScope::Both),
        pattern,
        limit,
        offset,
    )
}

/// Searches types of the project and of the engine.
pub fn search_class_symbols_with_engine(pattern: &str, limit: usize, offset: usize) -> (r: EngineSearch)
    ensures
        r@ == engine_begun(
            EngineSearchKind::Classes,
            SearchScope::Both,
            pattern@,
            limit,
            offset,
        ),
{
    EngineSearch::begin(EngineSearchKind::Classes, SearchScope::Both, pattern, limit, offset)
}

/// Searches lines of code where the scope says; without one, in the project.
pub fn search_code_text_with_scope(pattern: &str, limit: usize, offset: usize, scope: Option<&str>) -> (r:
    EngineSearch)
    ensures
        r@ == engine_begun(
            EngineSearchKind::CodeText,
            scope_named(text::opt_str(scope), SearchScope::Project),
            pattern@,
            limit,
            offset,
        ),
{
    EngineSearch::begin(
        EngineSearchKind::CodeText,
        scope_of(scope, SearchScope::Project),
        pattern,
        limit,
        offset,
    )
}

/// What the project found comes first: the engine never displaces it.
pub proof fn engine_keeps_project_results(v: EngineSearchView, rows: Seq<ItemView>, i: int)
    requires
        v.step == EngineStep::Engine,
        v.scope != SearchScope::Engine,
        v.kind != EngineSearchKind::Classes,
        v.results.len() < v.limit,
        0 <= i < v.results.len(),
    ensures
        engine_taken(v, Some(rows)).results.len() > i,
        engine_taken(v, Some(rows)).results[i] == v.results[i],
        engine_taken(v, None).results == v.results,
{
    let more = all_tagged(rows, "engine"@);
    merging_adds_new_items_only(Likeness::Result, v.results, more, 0, v.limit as nat);
    let r = merged(Likeness::Result, v.results, more, 0, v.limit as nat);
    assert(r.take(v.results.len() as int)[i] == r[i]);
}

// ---------------------------------------------------------------------------
// Going to a definition, an implementation, and hovering
// ---------------------------------------------------------------------------
/// What a question about a place in the code is answered with. Whatever is neither nothing nor an
/// object is held by the caller under a number.
pub enum Place {
    Null,
    Object(Item),
    Held(u64),
}

#[verifier::ext_equal]
pub enum PlaceView {
    Null,
    Object(ItemView),
    Held(u64),
}

impl View for Place {
    type V = PlaceView;

    open spec fn view(&self) -> PlaceView {
        match self {
            Place::Null => PlaceView::Null,
            Place::Object(i) => PlaceView::Object(i@),
            Place::Held(n) => PlaceView::Held(*n),
        }
    }
}

pub open spec fn place_tagged(p: PlaceView, source: Seq<char>) -> PlaceView {
    match p {
        PlaceView::Object(i) => PlaceView::Object(tagged(i, source)),
        other => other,
    }
}

impl Place {
    pub fn is_null(&self) -> (r: bool)
        ensures
            r == (self@ is Null),
    {
        matches!(self, Place::Null)
    }

    fn tag(self, source: &str) -> (r: Place)
        ensures
            r@ == place_tagged(self@, source@),
    {
        match self {
            Place::Object(item) => {
                let mut item = item;
                item.tag_value_source(source);
                Place::Object(item)
            },
            other => other,
        }
    }
}

/// What stands at the cursor.
pub struct CursorContext {
    pub symbol: String,
    pub qualifier: Option<String>,
    pub qualifier_op: Option<String>,
}

/// The symbol at the cursor may be looked up by its name alone: it is qualified by a scope, or it
/// is no member and begins with a capital, or nothing qualifies it.
pub open spec fn direct_lookup(ctx: Option<CursorContext>, prefer_impl: bool) -> bool {
    match ctx {
        None => false,
        Some(c) => {
            let op = text::opt_text(c.qualifier_op);
            let symbol = text::trimmed(c.symbol@);
            if op == Some("::"@) {
                true
            } else if op == Some("."@) || op == Some("->"@) || symbol.len() == 0 {
                false
            } else {
                text::ascii_upper(symbol[0]) || !prefer_impl && c.qualifier is None
            }
        },
    }
}

fn same_as(s: &Option<String>, t: &str) -> (r: bool)
    ensures
        r == (text::opt_text(*s) == Some(t@)),
{
    match s {
        Some(x) => text::same(x, t),
        None => false,
    }
}

pub fn should_try_direct_engine_navigation_lookup(ctx: &Option<CursorContext>, prefer_impl: bool) -> (r: bool)
    ensures
        r == direct_lookup(*ctx, prefer_impl),
{
    match ctx {
        None => false,
        Some(c) => {
            if same_as(&c.qualifier_op, "::") {
                return true;
            }
            if same_as(&c.qualifier_op, ".") || same_as(&c.qualifier_op, "->") {
                return false;
            }
            let symbol = text::trim(&c.symbol);
            if symbol.is_empty() {
                return false;
            }
            text::is_ascii_upper(symbol.get_char(0)) || !prefer_impl && c.qualifier.is_none()
        },
    }
}

#[derive(Clone, Copy, PartialEq, Eq, Structural, Debug)]
pub enum NavigationKind {
    Definition,
    Implementation,
    Hover,
}

#[derive(Clone, Copy, PartialEq, Eq, Structural, Debug)]
pub enum NavigationStep {
    /// Whether the question was answered before.
    Cache,
    /// The project.
    Project,
    /// The engine.
    Engine,
    /// The engine, by the name alone.
    Direct,
    Done,
}

/// A question about a place under way.
pub struct Navigation {
    pub kind: NavigationKind,
    /// The symbol may be looked up by its name alone.
    pub direct: bool,
    pub step: NavigationStep,
    pub result: Place,
    /// The answer is to be remembered.
    pub keep: bool,
}

#[verifier::ext_equal]
pub struct NavigationView {
    pub kind: NavigationKind,
    pub direct: bool,
    pub step: NavigationStep,
    pub result: PlaceView,
    pub keep: bool,
}

pub open spec fn navigation_begun(kind: NavigationKind, ctx: Option<CursorContext>) -> NavigationView {
    NavigationView {
        kind,
        direct: kind != NavigationKind::Hover && direct_lookup(
            ctx,
            kind == NavigationKind::Implementation,
        ),
        step: NavigationStep::Cache,
        result: PlaceView::Null,
        keep: false,
    }
}

/// The question after an answer; there is none where the source could not be opened or failed, or
/// nothing was remembered.
pub open spec fn navigation_answered(v: NavigationView, answer: Option<PlaceView>) -> NavigationView {
    match v.step {
        NavigationStep::Cache => match answer {
            Some(p) => NavigationView { step: NavigationStep::Done, result: p, ..v },
            None => NavigationView { step: NavigationStep::Project, ..v },
        },
        NavigationStep::Project => match answer {
            Some(PlaceView::Null) | None => NavigationView { step: NavigationStep::Engine, ..v },
            Some(p) => NavigationView {
                step: NavigationStep::Done,
                result: place_tagged(p, "project"@),
                keep: true,
                ..v
            },
        },
        NavigationStep::Engine => match answer {
            None => NavigationView { step: NavigationStep::Done, ..v },
            Some(p) => if p is Null && v.direct {
                NavigationView { step: NavigationStep::Direct, ..v }
            } else {
                NavigationView {
                    step: NavigationStep::Done,
                    result: place_tagged(p, "engine"@),
                    keep: true,
                    ..v
                }
            },
        },
        NavigationStep::Direct => NavigationView {
            step: NavigationStep::Done,
            result: match answer {
                Some(p) => place_tagged(p, "engine"@),
                None => PlaceView::Null,
            },
            keep: true,
            ..v
        },
        NavigationStep::Done => v,
    }
}

impl Navigation {
    pub open spec fn view(&self) -> NavigationView {
        NavigationView {
            kind: self.kind,
            direct: self.direct,
            step: self.step,
            result: self.result@,
            keep: self.keep,
        }
    }

    fn begin(kind: NavigationKind, ctx: &Option<CursorContext>) -> (r: Self)
        ensures
            r@ == navigation_begun(kind, *ctx),
    {
        let direct = match kind {
            NavigationKind::Hover => false,
            NavigationKind::Definition => should_try_direct_engine_navigation_lookup(ctx, false),
            NavigationKind::Implementation => should_try_direct_engine_navigation_lookup(
                ctx,
                true,
            ),
        };
        Navigation {
            kind,
            direct,
            step: NavigationStep::Cache,
            result: Place::Null,
            keep: false,
        }
    }

    /// Takes an answer.
    pub fn take(self, answer: Option<Place>) -> (r: Self)
        ensures
            r@ == navigation_answered(
                self@,
                match answer {
                    Some(p) => Some(p@),
                    None => None,
                },
            ),
    {
        match self.step {
            NavigationStep::Cache => match answer {
                Some(p) => Navigation { step: NavigationStep::Done, result: p, ..self },
                None => Navigation { step: NavigationStep::Project, ..self },
            },
            NavigationStep::Project => match answer {
                None => Navigation { step: NavigationStep::Engine, ..self },
                Some(p) => {
                    if p.is_null() {
                        Navigation { step: NavigationStep::Engine, ..self }
                    } else {
                        Navigation {
                            step: NavigationStep::Done,
                            result: p.tag("project"),
                            keep: true,
                            ..self
                        }
                    }
                },
            },
            NavigationStep::Engine => match answer {
                None => Navigation { step: NavigationStep::Done, ..self },
                Some(p) => {
                    if p.is_null() && self.direct {
                        Navigation { step: NavigationStep::Direct, ..self }
                    } else {
                        Navigation {
                            step: NavigationStep::Done,
                            result: p.tag("engine"),
                            keep: true,
                            ..self
                        }
                    }
                },
            },
            NavigationStep::Direct => Navigation {
                step: NavigationStep::Done,
                result: match answer {
                    Some(p) => p.tag("engine"),
                    None => Place::Null,
                },
                keep: true,
                ..self
            },
            NavigationStep::Done => self,
        }
    }
}

pub fn goto_definition_with_engine(ctx: &Option<CursorContext>) -> (r: Navigation)
    ensures
        r@ == navigation_begun(NavigationKind::Definition, *ctx),
{
    Navigation::begin(NavigationKind::Definition, ctx)
}

pub fn goto_implementation_with_engine(ctx: &Option<CursorContext>) -> (r: Navigation)
    ensures
        r@ == navigation_begun(NavigationKind::Implementation, *ctx),
{
    Navigation::begin(NavigationKind::Implementation, ctx)
}

pub fn hover_with_engine() -> (r: Navigation)
    ensures
        r@ == navigation_begun(NavigationKind::Hover, None),
{
    Navigation::begin(NavigationKind::Hover, &None)
}

/// Where the project knows an answer, the engine is not asked, and the answer is remembered.
pub proof fn project_answers_first(v: NavigationView, answer: PlaceView)
    requires
        v.step == NavigationStep::Project,
        !(answer is Null),
    ensures
        navigation_answered(v, Some(answer)).step == NavigationStep::Done,
        navigation_answered(v, Some(answer)).keep,
        navigation_answered(v, Some(answer)).result == place_tagged(answer, "project"@),
{
}

// ---------------------------------------------------------------------------
// Signatures
// ---------------------------------------------------------------------------
/// The signatures of a call, with the other fields of the answer.
pub struct SignatureHelp {
    pub fields: Item,
    pub signatures: Option<Vec<Item>>,
}

#[verifier::ext_equal]
pub struct SignatureView {
    pub fields: ItemView,
    pub signatures: Option<Seq<ItemView>>,
}

impl View for SignatureHelp {
    type V = SignatureView;

    open spec fn view(&self) -> SignatureView {
        SignatureView {
            fields: self.fields@,
            signatures: match self.signatures {
                Some(v) => Some(items(v@)),
                None => None,
            },
        }
    }
}

pub open spec fn opt_help(h: Option<SignatureHelp>) -> Option<SignatureView> {
    match h {
        Some(s) => Some(s@),
        None => None,
    }
}

/// How many signatures are shown at most.
pub const MAX_SIGNATURES: usize = 16;

/// The signatures that the project and the engine know: those of the project first, and where it
/// knows none at all, the engine's answer.
pub open spec fn signature_help(project: Option<SignatureView>, engine: Option<SignatureView>) -> Option<
    SignatureView,
> {
    match project {
        None => match engine {
            Some(e) => Some(SignatureView { fields: tagged(e.fields, "engine"@), ..e }),
            None => None,
        },
        Some(p) => Some(
            SignatureView {
                signatures: match p.signatures {
                    None => None,
                    Some(list) => {
                        let own = all_tagged(list, "project"@);
                        match engine {
                            None => Some(own),
                            Some(e) => Some(
                                merged(
                                    Likeness::Result,
                                    own,
                                    all_tagged(
                                        match e.signatures {
                                            Some(more) => more,
                                            None => Seq::empty(),
                                        },
                                        "engine"@,
                                    ),
                                    0,
                                    MAX_SIGNATURES as nat,
                                ),
                            ),
                        }
                    },
                },
                ..p
            },
        ),
    }
}

/// The signatures, from the answers of the project and of the engine; none of the engine where it
/// could not be asked.
pub fn signature_help_with_engine(project: Option<SignatureHelp>, engine: Option<SignatureHelp>) -> (r: Option<
    SignatureHelp,
>)
    ensures
        opt_help(r) == signature_help(opt_help(project), opt_help(engine)),
{
    match project {
        None => match engine {
            Some(e) => {
                let mut e = e;
                e.fields.tag_value_source("engine");
                Some(e)
            },
            None => None,
        },
        Some(p) => {
            let signatures = match p.signatures {
                None => None,
                Some(list) => {
                    let own = tag_source(list, "project");
                    match engine {
                        None => Some(own),
                        Some(e) => {
                            let more = match e.signatures {
                                Some(more) => more,
                                None => {
                                    let none: Vec<Item> = Vec::new();
                                    assert(items(none@) =~= Seq::<ItemView>::empty());
                                    none
                                },
                            };
                            let more = tag_source(more, "engine");
                            Some(merge_query_results(own, more.as_slice(), MAX_SIGNATURES))
                        },
                    }
                },
            };
            Some(SignatureHelp { fields: p.fields, signatures })
        },
    }
}

// ---------------------------------------------------------------------------
// References
// ---------------------------------------------------------------------------
/// The references to a symbol that a source knows.
pub struct References {
    pub results: Vec<Item>,
    pub searched_files: u64,
    pub found_definition: bool,
    pub scope: String,
}

#[verifier::ext_equal]
pub struct ReferencesView {
    pub results: Seq<ItemView>,
    pub searched_files: u64,
    pub found_definition: bool,
    pub scope: Seq<char>,
}

impl View for References {
    type V = ReferencesView;

    open spec fn view(&self) -> ReferencesView {
        ReferencesView {
            results: items(self.results@),
            searched_files: self.searched_files,
            found_definition: self.found_definition,
            scope: self.scope@,
        }
    }
}

/// How many references are shown at most, once those of the engine are joined.
pub const MAX_REFERENCES: usize = 300;

pub open spec fn project_references(project: ReferencesView) -> ReferencesView {
    ReferencesView { results: all_tagged(project.results, "project"@), ..project }
}

/// The engine is asked for references besides the project.
pub open spec fn asks_engine_for_references(
    symbol: Seq<char>,
    project: ReferencesView,
    cursor_in_project: bool,
) -> bool {
    let found = all_tagged(project.results, "project"@);
    profile_of(symbol).reference_skip(
        project.scope,
        found.len() as usize,
        paths_from(found, 0).to_set().len() as usize,
        project.found_definition,
        cursor_in_project,
    ) is None
}

/// The references of the project, and whether the engine is to be asked for more.
pub fn find_references_with_engine(symbol_name: &str, project: References, cursor_in_project: bool) -> (r: (
    References,
    bool,
))
    ensures
        r.0@ == project_references(project@),
        r.1 == asks_engine_for_references(symbol_name@, project@, cursor_in_project),
{
    let results = tag_source(project.results, "project");
    assert(items(results@).len() == results@.len());
    let profile = SearchQueryProfile::classify(symbol_name);
    let count: usize = results.len();
    let paths = result_path_count(results.as_slice());
    let reason = profile.reference_engine_skip_reason(
        &project.scope,
        count,
        paths,
        project.found_definition,
        cursor_in_project,
    );
    let ask = reason.is_none();
    (References { results, ..project }, ask)
}

/// The references of the project, with those of the engine that are not among them.
pub fn merge_engine_references(found: References, engine: References) -> (r: References)
    requires
        found.searched_files + engine.searched_files <= u64::MAX,
    ensures
        r@ == (ReferencesView {
            results: merged(
                Likeness::Result,
                found@.results,
                all_tagged(engine@.results, "engine"@),
                0,
                MAX_REFERENCES as nat,
            ),
            searched_files: (found.searched_files + engine.searched_files) as u64,
            found_definition: found.found_definition || engine.found_definition,
            scope: found@.scope,
        }),
{
    let more = tag_source(engine.results, "engine");
    let results = merge_query_results(found.results, more.as_slice(), MAX_REFERENCES);
    References {
        results,
        searched_files: found.searched_files + engine.searched_files,
        found_definition: found.found_definition || engine.found_definition,
        scope: found.scope,
    }
}

/// References of a local variable or a member are never looked for in the engine.
pub proof fn local_references_stay_in_project(
    symbol: Seq<char>,
    project: ReferencesView,
    cursor_in_project: bool,
)
    requires
        project.scope == "local"@ || project.scope == "member"@,
    ensures
        !asks_engine_for_references(symbol, project, cursor_in_project),
{
}

} // verus!
