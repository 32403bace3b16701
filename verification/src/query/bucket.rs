//! Searches in a store by stages: exact names first, then beginnings of names, then full text, of
//! which names that hold the text come before owners, modules and paths.
use vstd::prelude::*;

use super::item::{
    all_differ, items, merged, merging_adds_new_items_only, Item, ItemView, Likeness, Merged,
};
use super::pattern::{
    build_file_fts_query, build_symbol_fts_query, candidate_places, candidate_values_clause,
    clamped, compact, compact_identifier, escape_like, file_fts_query, identifier,
    is_explicit_type_query, is_identifier_query, like_escaped, search_tokens, should_use_file_fts,
    should_use_symbol_fts, symbol_fts_query, tokens, type_query, within,
};
use crate::text;

verus! {

/// A value that stands for a place in a query.
#[derive(Debug)]
pub enum SqlParam {
    Text(String),
    Integer(i64),
}

pub enum ParamView {
    Text(Seq<char>),
    Integer(i64),
}

impl View for SqlParam {
    type V = ParamView;

    open spec fn view(&self) -> ParamView {
        match self {
            SqlParam::Text(s) => ParamView::Text(s@),
            SqlParam::Integer(n) => ParamView::Integer(*n),
        }
    }
}

/// A query with the values for its places, in their order.
#[derive(Debug)]
pub struct SqlQuery {
    pub sql: String,
    pub params: Vec<SqlParam>,
}

pub struct SqlView {
    pub sql: Seq<char>,
    pub params: Seq<ParamView>,
}

pub open spec fn param_views(v: Seq<SqlParam>) -> Seq<ParamView> {
    v.map_values(|p: SqlParam| p@)
}

impl View for SqlQuery {
    type V = SqlView;

    open spec fn view(&self) -> SqlView {
        SqlView { sql: self.sql@, params: param_views(self.params@) }
    }
}

pub open spec fn opt_sql(q: Option<SqlQuery>) -> Option<SqlView> {
    match q {
        Some(q) => Some(q@),
        None => None,
    }
}

pub const SYMBOLS: &'static str =
    "SELECT name, kind, owner_name, path, line_number, module_name FROM search_symbols";

pub const SYMBOL_RANK: &'static str =
    " ORDER BY kind_rank ASC, name_lc ASC, path_lc ASC LIMIT ?";

pub const CLASS_FILTER: &'static str = " AND is_class_like = 1";

pub const NAME_IS: &'static str = " WHERE name_lc = ?";

pub const NAME_BEGINS: &'static str = " WHERE name_lc LIKE ? ESCAPE '\\' AND name_lc <> ?";

pub const NAME_OR_COMPACT_BEGINS: &'static str =
    " WHERE (name_lc LIKE ? ESCAPE '\\' OR compact_name LIKE ? ESCAPE '\\') AND name_lc <> ?";

pub const NAME_THEN_COMPACT_RANK: &'static str =
    " ORDER BY CASE WHEN name_lc LIKE ? ESCAPE '\\' THEN 0 WHEN compact_name = ? THEN 1 ELSE 2 END, kind_rank ASC, name_lc ASC, path_lc ASC LIMIT ?";

pub const SYMBOL_CANDIDATES: &'static str =
    "SELECT rowid FROM search_symbols_fts WHERE search_symbols_fts MATCH ?1 ORDER BY bm25(search_symbols_fts), rowid LIMIT ?2";

pub const FILE_CANDIDATES: &'static str =
    "SELECT rowid FROM search_files_fts WHERE search_files_fts MATCH ?1 ORDER BY bm25(search_files_fts), rowid LIMIT ?2";

pub const CANDIDATES: &'static str = "WITH candidates(id, ord) AS (VALUES ";

pub const CANDIDATE_SYMBOLS: &'static str =
    ") SELECT s.name, s.kind, s.owner_name, s.path, s.line_number, s.module_name FROM candidates c JOIN search_symbols s ON s.id = c.id WHERE 1 = 1";

pub const CANDIDATE_NAME_RANK: &'static str =
    " ORDER BY CASE WHEN s.name_lc = ? THEN 0 WHEN s.name_lc LIKE ? ESCAPE '\\' THEN 1 WHEN s.compact_name = ? THEN 2 WHEN s.compact_name LIKE ? ESCAPE '\\' THEN 3 WHEN s.name_lc LIKE ? ESCAPE '\\' THEN 4 WHEN s.compact_name LIKE ? ESCAPE '\\' THEN 5 ELSE 6 END, s.kind_rank ASC, c.ord ASC, s.name_lc ASC, s.path_lc ASC LIMIT ?";

pub const CANDIDATE_OWNER_RANK: &'static str =
    " ORDER BY CASE WHEN s.name_lc = ? THEN 0 WHEN s.name_lc LIKE ? ESCAPE '\\' THEN 1 WHEN s.name_lc LIKE ? ESCAPE '\\' THEN 2 WHEN s.owner_name_lc = ? THEN 3 WHEN s.owner_name_lc LIKE ? ESCAPE '\\' THEN 4 WHEN s.module_name_lc = ? THEN 5 WHEN s.module_name_lc LIKE ? ESCAPE '\\' THEN 6 ELSE 7 END, s.kind_rank ASC, c.ord ASC, s.name_lc ASC, s.path_lc ASC LIMIT ?";

pub const FILES: &'static str =
    " SELECT sf.basename, sf.path, sf.module_name, rd.full_path AS module_root FROM search_files sf LEFT JOIN modules m ON sf.module_id = m.id LEFT JOIN dir_paths rd ON m.root_directory_id = rd.id WHERE ";

pub const NO_ASSETS: &'static str = "lower(COALESCE(sf.ext, '')) NOT IN ('uasset', 'umap')";

pub const FILE_IS: &'static str = "(sf.basename_lc = ? OR sf.path_lc = ?) AND ";

pub const FILE_RANK: &'static str = " ORDER BY sf.basename_lc ASC, sf.path_lc ASC LIMIT ?";

pub const FILE_BEGINS: &'static str =
    "((sf.basename_lc LIKE ? ESCAPE '\\' AND sf.basename_lc <> ?) OR (sf.path_lc LIKE ? ESCAPE '\\' AND sf.path_lc <> ?)) AND ";

pub const BASENAME_THEN_PATH_RANK: &'static str =
    " ORDER BY CASE WHEN sf.basename_lc LIKE ? ESCAPE '\\' THEN 0 WHEN sf.path_lc LIKE ? ESCAPE '\\' THEN 1 ELSE 2 END, sf.basename_lc ASC, sf.path_lc ASC LIMIT ?";

pub const MORE_CANDIDATES: &'static str = " WITH candidates(id, ord) AS (VALUES ";

pub const CANDIDATE_FILES: &'static str =
    ") SELECT sf.basename, sf.path, sf.module_name, rd.full_path AS module_root FROM candidates c JOIN search_files sf ON sf.file_id = c.id LEFT JOIN modules m ON sf.module_id = m.id LEFT JOIN dir_paths rd ON m.root_directory_id = rd.id WHERE ";

pub const CANDIDATE_FILE_RANK: &'static str =
    " ORDER BY CASE WHEN sf.basename_lc = ? THEN 0 WHEN sf.basename_lc LIKE ? ESCAPE '\\' THEN 1 WHEN sf.path_lc = ? THEN 2 WHEN sf.path_lc LIKE ? ESCAPE '\\' THEN 3 ELSE 4 END, c.ord ASC, sf.basename_lc ASC, sf.path_lc ASC LIMIT ?";

pub const FUZZY_SYMBOL_RANK: &'static str =
    " ORDER BY kind_rank ASC, length(compact_name) ASC, name_lc ASC, path_lc ASC LIMIT ?";

pub const FUZZY_COMPACT: &'static str =
    "(compact_name LIKE ? ESCAPE '\\' OR compact_name LIKE ? ESCAPE '\\')";

pub const FUZZY_COMPACT_OR_OWNER: &'static str =
    "((compact_name LIKE ? ESCAPE '\\' OR compact_name LIKE ? ESCAPE '\\') OR owner_name_lc LIKE ? ESCAPE '\\')";

pub const FUZZY_FILE: &'static str =
    "(basename_lc LIKE ? ESCAPE '\\' OR path_lc LIKE ? ESCAPE '\\')";

pub const FUZZY_FILE_RANK: &'static str =
    " ORDER BY length(sf.basename_lc) ASC, sf.basename_lc ASC, sf.path_lc ASC LIMIT ?";

/// The forms in which a pattern is searched for.
pub struct SearchText {
    pub query_text: String,
    pub query: String,
    pub prefix_query: String,
    pub identifier_query: bool,
    pub compact_query: String,
    pub compact_prefix_query: String,
}

#[verifier::ext_equal]
pub struct SearchTextView {
    pub query_text: Seq<char>,
    pub query: Seq<char>,
    pub prefix_query: Seq<char>,
    pub identifier_query: bool,
    pub compact_query: Seq<char>,
    pub compact_prefix_query: Seq<char>,
}

impl View for SearchText {
    type V = SearchTextView;

    open spec fn view(&self) -> SearchTextView {
        SearchTextView {
            query_text: self.query_text@,
            query: self.query@,
            prefix_query: self.prefix_query@,
            identifier_query: self.identifier_query,
            compact_query: self.compact_query@,
            compact_prefix_query: self.compact_prefix_query@,
        }
    }
}

pub open spec fn search_text(pattern: Seq<char>) -> SearchTextView {
    let s = text::trimmed(pattern);
    let c = if identifier(s) {
        compact(s)
    } else {
        Seq::empty()
    };
    SearchTextView {
        query_text: s,
        query: text::lower(s),
        prefix_query: like_escaped(text::lower(s)) + "%"@,
        identifier_query: identifier(s),
        compact_query: c,
        compact_prefix_query: if c.len() == 0 {
            Seq::empty()
        } else {
            like_escaped(c) + "%"@
        },
    }
}

fn make_search_text(pattern: &str) -> (r: SearchText)
    ensures
        r@ == search_text(pattern@),
{
    let query_text = text::trim(pattern);
    let query = text::to_lower(query_text);
    let prefix_query = text::concat2(&escape_like(&query), "%");
    let identifier_query = is_identifier_query(query_text);
    let compact_query = if identifier_query {
        compact_identifier(query_text)
    } else {
        String::new()
    };
    let compact_prefix_query = if compact_query.as_str().is_empty() {
        String::new()
    } else {
        text::concat2(&escape_like(&compact_query), "%")
    };
    SearchText {
        query_text: text::copy_of(query_text),
        query,
        prefix_query,
        identifier_query,
        compact_query,
        compact_prefix_query,
    }
}

/// How far a search has come.
#[derive(Clone, Copy, PartialEq, Eq, Structural, Debug)]
pub enum Stage {
    Exact,
    Prefix,
    Candidates,
    Ranked,
    Done,
}

/// A search of symbols or of files in a store. The store is asked one query after the other, and
/// what it answers decides on the next.
pub struct BucketSearch {
    pub of_files: bool,
    pub class_only: bool,
    pub path_cte: String,
    pub limit: usize,
    pub text: SearchText,
    pub stage: Stage,
    pub ids: Vec<i64>,
    pub found: Merged,
}

pub struct BucketView {
    pub of_files: bool,
    pub class_only: bool,
    pub path_cte: Seq<char>,
    pub limit: usize,
    pub text: SearchTextView,
    pub stage: Stage,
    pub ids: Seq<i64>,
    pub found: Seq<ItemView>,
}

/// The full-text query with which a search goes on, if the pattern is fit for one.
pub open spec fn candidate_query(v: BucketView) -> Option<Seq<char>> {
    let s = v.text.query_text;
    if v.of_files {
        if text::trimmed(s).len() >= 3 {
            file_fts_query(s)
        } else {
            None
        }
    } else {
        if compact(text::trimmed(s)).len() >= 3 {
            symbol_fts_query(s)
        } else {
            None
        }
    }
}

pub open spec fn class_filter(class_only: bool) -> Seq<char> {
    if class_only {
        CLASS_FILTER@
    } else {
        ""@
    }
}

pub open spec fn text_param(s: Seq<char>) -> ParamView {
    ParamView::Text(s)
}

pub open spec fn remaining(v: BucketView) -> i64 {
    (v.limit - v.found.len()) as i64
}

pub open spec fn id_params(ids: Seq<i64>) -> Seq<ParamView> {
    ids.map_values(|n: i64| ParamView::Integer(n))
}

pub open spec fn exact_query(v: BucketView) -> SqlView {
    let t = v.text;
    let limit = ParamView::Integer(v.limit as i64);
    if v.of_files {
        SqlView {
            sql: v.path_cte + FILES@ + FILE_IS@ + NO_ASSETS@ + FILE_RANK@,
            params: seq![text_param(t.query), text_param(t.query), limit],
        }
    } else {
        SqlView {
            sql: SYMBOLS@ + NAME_IS@ + class_filter(v.class_only) + SYMBOL_RANK@,
            params: seq![text_param(t.query), limit],
        }
    }
}

pub open spec fn prefix_query(v: BucketView) -> SqlView {
    let t = v.text;
    let limit = ParamView::Integer(remaining(v));
    if v.of_files {
        SqlView {
            sql: v.path_cte + FILES@ + FILE_BEGINS@ + NO_ASSETS@ + BASENAME_THEN_PATH_RANK@,
            params: seq![
                text_param(t.prefix_query),
                text_param(t.query),
                text_param(t.prefix_query),
                text_param(t.query),
                text_param(t.prefix_query),
                text_param(t.prefix_query),
                limit,
            ],
        }
    } else if t.identifier_query {
        SqlView {
            sql: SYMBOLS@ + NAME_OR_COMPACT_BEGINS@ + class_filter(v.class_only)
                + NAME_THEN_COMPACT_RANK@,
            params: seq![
                text_param(t.prefix_query),
                text_param(t.compact_prefix_query),
                text_param(t.query),
                text_param(t.prefix_query),
                text_param(t.compact_query),
                limit,
            ],
        }
    } else {
        SqlView {
            sql: SYMBOLS@ + NAME_BEGINS@ + class_filter(v.class_only) + SYMBOL_RANK@,
            params: seq![text_param(t.prefix_query), text_param(t.query), limit],
        }
    }
}

/// How many candidates the full-text search may name.
pub open spec fn candidate_limit(limit: usize) -> i64 {
    within((limit * 12) as usize, 64, 8192) as i64
}

pub open spec fn candidates_query(v: BucketView) -> Option<SqlView> {
    match candidate_query(v) {
        Some(q) => Some(
            SqlView {
                sql: if v.of_files {
                    FILE_CANDIDATES@
                } else {
                    SYMBOL_CANDIDATES@
                },
                params: seq![text_param(q), ParamView::Integer(candidate_limit(v.limit))],
            },
        ),
        None => None,
    }
}

pub open spec fn ranked_query(v: BucketView) -> SqlView {
    let t = v.text;
    let limit = ParamView::Integer(remaining(v));
    let values = text::joined(candidate_places(v.ids.len()), ", "@);
    if v.of_files {
        SqlView {
            sql: v.path_cte + MORE_CANDIDATES@ + values + CANDIDATE_FILES@ + NO_ASSETS@
                + CANDIDATE_FILE_RANK@,
            params: id_params(v.ids) + seq![
                text_param(t.query),
                text_param(t.prefix_query),
                text_param(t.query),
                text_param(t.prefix_query),
                limit,
            ],
        }
    } else if t.identifier_query {
        SqlView {
            sql: CANDIDATES@ + values + CANDIDATE_SYMBOLS@ + class_filter(v.class_only)
                + CANDIDATE_NAME_RANK@,
            params: id_params(v.ids) + seq![
                text_param(t.query),
                text_param(t.prefix_query),
                text_param(t.compact_query),
                text_param(t.compact_prefix_query),
                text_param(anywhere(t.query)),
                text_param(anywhere(t.compact_query)),
                limit,
            ],
        }
    } else {
        SqlView {
            sql: CANDIDATES@ + values + CANDIDATE_SYMBOLS@ + class_filter(v.class_only)
                + CANDIDATE_OWNER_RANK@,
            params: id_params(v.ids) + seq![
                text_param(t.query),
                text_param(t.prefix_query),
                text_param(anywhere(t.query)),
                text_param(t.query),
                text_param(t.prefix_query),
                text_param(t.query),
                text_param(t.prefix_query),
                limit,
            ],
        }
    }
}

/// The query that the store is to be asked next.
pub open spec fn next_sql(v: BucketView) -> Option<SqlView> {
    match v.stage {
        Stage::Exact => Some(exact_query(v)),
        Stage::Prefix => Some(prefix_query(v)),
        Stage::Candidates => candidates_query(v),
        Stage::Ranked => Some(ranked_query(v)),
        Stage::Done => None,
    }
}

/// The search before the store was asked anything.
pub open spec fn begun(
    of_files: bool,
    class_only: bool,
    path_cte: Seq<char>,
    pattern: Seq<char>,
    limit: usize,
) -> BucketView {
    BucketView {
        of_files,
        class_only,
        path_cte,
        limit: within(limit, 1, 10_000),
        text: search_text(pattern),
        stage: if text::trimmed(pattern).len() == 0 {
            Stage::Done
        } else {
            Stage::Exact
        },
        ids: Seq::empty(),
        found: Seq::empty(),
    }
}

/// The stage behind one whose rows were taken.
pub open spec fn stage_behind(v: BucketView) -> Stage {
    if v.found.len() >= v.limit {
        Stage::Done
    } else {
        match v.stage {
            Stage::Exact => Stage::Prefix,
            Stage::Prefix => if candidate_query(v) is Some {
                Stage::Candidates
            } else {
                Stage::Done
            },
            _ => Stage::Done,
        }
    }
}

/// The search after the store answered with rows.
pub open spec fn with_rows(v: BucketView, rows: Seq<ItemView>) -> BucketView {
    let w = BucketView {
        found: merged(Likeness::Find, v.found, rows, 0, v.limit as nat),
        ..v
    };
    BucketView { stage: stage_behind(w), ..w }
}

/// The search after the store named candidates.
pub open spec fn with_ids(v: BucketView, ids: Seq<i64>) -> BucketView {
    BucketView {
        ids,
        stage: if ids.len() == 0 {
            Stage::Done
        } else {
            Stage::Ranked
        },
        ..v
    }
}

fn params_of(v: Vec<SqlParam>, n: usize) -> (r: Vec<SqlParam>)
    requires
        n <= i64::MAX,
    ensures
        param_views(r@) == param_views(v@).push(ParamView::Integer(n as i64)),
{
    let mut r = v;
    r.push(SqlParam::Integer(n as i64));
    assert(param_views(r@) =~= param_views(v@).push(ParamView::Integer(n as i64)));
    r
}

fn and_text(v: Vec<SqlParam>, s: &str) -> (r: Vec<SqlParam>)
    ensures
        param_views(r@) == param_views(v@).push(ParamView::Text(s@)),
{
    let mut r = v;
    r.push(SqlParam::Text(text::copy_of(s)));
    assert(param_views(r@) =~= param_views(v@).push(ParamView::Text(s@)));
    r
}

fn no_params() -> (r: Vec<SqlParam>)
    ensures
        param_views(r@) == Seq::<ParamView>::empty(),
{
    let r: Vec<SqlParam> = Vec::new();
    assert(param_views(r@) =~= Seq::<ParamView>::empty());
    r
}

fn ids_as_params(ids: &Vec<i64>) -> (r: Vec<SqlParam>)
    ensures
        param_views(r@) == id_params(ids@),
{
    let mut r: Vec<SqlParam> = Vec::new();
    let n: usize = ids.len();
    let mut i: usize = 0;
    while i < n
        invariant
            n == ids@.len(),
            i <= n,
            r@.len() == i,
            forall|j: int| 0 <= j < i ==> (#[trigger] r@[j])@ == ParamView::Integer(ids@[j]),
        decreases n - i,
    {
        r.push(SqlParam::Integer(ids[i]));
        i = i + 1;
    }
    assert(param_views(r@) =~= id_params(ids@));
    r
}

impl BucketSearch {
    pub open spec fn view(&self) -> BucketView {
        BucketView {
            of_files: self.of_files,
            class_only: self.class_only,
            path_cte: self.path_cte@,
            limit: self.limit,
            text: self.text@,
            stage: self.stage,
            ids: self.ids@,
            found: self.found@,
        }
    }

    pub open spec fn well_formed(&self) -> bool {
        &&& self.found.known()
        &&& self.found.kind == Likeness::Find
        &&& 1 <= self.limit <= 10_000
        &&& self.stage is Prefix || self.stage is Candidates || self.stage is Ranked
            ==> self.found@.len() < self.limit
        &&& self.stage is Candidates ==> candidate_query(self@) is Some
    }

    fn filter(&self) -> (r: &str)
        ensures
            r@ == class_filter(self.class_only),
    {
        if self.class_only {
            CLASS_FILTER
        } else {
            ""
        }
    }

    fn exact_sql(&self) -> (r: SqlQuery)
        requires
            self.well_formed(),
        ensures
            r@ == exact_query(self@),
    {
        let t = &self.text;
        if self.of_files {
            let head = text::concat3(&self.path_cte, FILES, FILE_IS);
            let sql = text::concat3(&head, NO_ASSETS, FILE_RANK);
            let params = params_of(
                and_text(and_text(no_params(), &t.query), &t.query),
                self.limit,
            );
            let r = SqlQuery { sql, params };
            assert(r@.params =~= exact_query(self@).params);
            r
        } else {
            let head = text::concat3(SYMBOLS, NAME_IS, self.filter());
            let sql = text::concat2(&head, SYMBOL_RANK);
            let params = params_of(and_text(no_params(), &t.query), self.limit);
            let r = SqlQuery { sql, params };
            assert(r@.params =~= exact_query(self@).params);
            r
        }
    }

    fn prefix_sql(&self) -> (r: SqlQuery)
        requires
            self.well_formed(),
            self.stage is Prefix,
        ensures
            r@ == prefix_query(self@),
    {
        let t = &self.text;
        assert(self.found@.len() == self.found.items@.len());
        let rest: usize = self.limit - self.found.items.len();
        if self.of_files {
            let head = text::concat3(&self.path_cte, FILES, FILE_BEGINS);
            let sql = text::concat3(&head, NO_ASSETS, BASENAME_THEN_PATH_RANK);
            let pair = and_text(and_text(no_params(), &t.prefix_query), &t.query);
            let four = and_text(and_text(pair, &t.prefix_query), &t.query);
            let six = and_text(and_text(four, &t.prefix_query), &t.prefix_query);
            let params = params_of(six, rest);
            let r = SqlQuery { sql, params };
            assert(r@.params =~= prefix_query(self@).params);
            r
        } else if t.identifier_query {
            let head = text::concat3(SYMBOLS, NAME_OR_COMPACT_BEGINS, self.filter());
            let sql = text::concat2(&head, NAME_THEN_COMPACT_RANK);
            let pair = and_text(and_text(no_params(), &t.prefix_query), &t.compact_prefix_query);
            let three = and_text(pair, &t.query);
            let five = and_text(and_text(three, &t.prefix_query), &t.compact_query);
            let params = params_of(five, rest);
            let r = SqlQuery { sql, params };
            assert(r@.params =~= prefix_query(self@).params);
            r
        } else {
            let head = text::concat3(SYMBOLS, NAME_BEGINS, self.filter());
            let sql = text::concat2(&head, SYMBOL_RANK);
            let pair = and_text(and_text(no_params(), &t.prefix_query), &t.query);
            let params = params_of(pair, rest);
            let r = SqlQuery { sql, params };
            assert(r@.params =~= prefix_query(self@).params);
            r
        }
    }

    fn full_text_query(&self) -> (r: Option<String>)
        ensures
            text::opt_text(r) == candidate_query(self@),
    {
        if self.of_files {
            if should_use_file_fts(&self.text.query_text) {
                build_file_fts_query(&self.text.query_text)
            } else {
                None
            }
        } else {
            if should_use_symbol_fts(&self.text.query_text) {
                build_symbol_fts_query(&self.text.query_text)
            } else {
                None
            }
        }
    }

    fn candidates_sql(&self) -> (r: Option<SqlQuery>)
        requires
            self.well_formed(),
        ensures
            opt_sql(r) == candidates_query(self@),
    {
        match self.full_text_query() {
            Some(q) => {
                let sql = if self.of_files {
                    text::copy_of(FILE_CANDIDATES)
                } else {
                    text::copy_of(SYMBOL_CANDIDATES)
                };
                let most: usize = clamped(self.limit * 12, 64, 8192);
                let params = params_of(and_text(no_params(), &q), most);
                let r = SqlQuery { sql, params };
                assert(r@.params =~= candidates_query(self@)->0.params);
                Some(r)
            },
            None => None,
        }
    }

    fn ranked_sql(&self) -> (r: SqlQuery)
        requires
            self.well_formed(),
            self.stage is Ranked,
        ensures
            r@ == ranked_query(self@),
    {
        let t = &self.text;
        assert(self.found@.len() == self.found.items@.len());
        let rest: usize = self.limit - self.found.items.len();
        let values = candidate_values_clause(self.ids.len());
        let ids = ids_as_params(&self.ids);
        let pair = and_text(and_text(ids, &t.query), &t.prefix_query);
        if self.of_files {
            let head = text::concat3(&self.path_cte, MORE_CANDIDATES, &values);
            let sql = text::concat2(
                &text::concat3(&head, CANDIDATE_FILES, NO_ASSETS),
                CANDIDATE_FILE_RANK,
            );
            let four = and_text(and_text(pair, &t.query), &t.prefix_query);
            let params = params_of(four, rest);
            let r = SqlQuery { sql, params };
            assert(r@.params =~= ranked_query(self@).params);
            r
        } else if t.identifier_query {
            let head = text::concat3(CANDIDATES, &values, CANDIDATE_SYMBOLS);
            let sql = text::concat3(&head, self.filter(), CANDIDATE_NAME_RANK);
            let four = and_text(and_text(pair, &t.compact_query), &t.compact_prefix_query);
            let six = and_text(
                and_text(four, &like_anywhere(&t.query)),
                &like_anywhere(&t.compact_query),
            );
            let params = params_of(six, rest);
            let r = SqlQuery { sql, params };
            assert(r@.params =~= ranked_query(self@).params);
            r
        } else {
            let head = text::concat3(CANDIDATES, &values, CANDIDATE_SYMBOLS);
            let sql = text::concat3(&head, self.filter(), CANDIDATE_OWNER_RANK);
            let three = and_text(pair, &like_anywhere(&t.query));
            let five = and_text(and_text(three, &t.query), &t.prefix_query);
            let seven = and_text(and_text(five, &t.query), &t.prefix_query);
            let params = params_of(seven, rest);
            let r = SqlQuery { sql, params };
            assert(r@.params =~= ranked_query(self@).params);
            r
        }
    }

    /// The query that the store is to be asked next; none once the search is over.
    pub fn next_query(&self) -> (r: Option<SqlQuery>)
        requires
            self.well_formed(),
        ensures
            opt_sql(r) == next_sql(self@),
            r is None <==> self.stage is Done,
    {
        match self.stage {
            Stage::Exact => Some(self.exact_sql()),
            Stage::Prefix => Some(self.prefix_sql()),
            Stage::Candidates => self.candidates_sql(),
            Stage::Ranked => Some(self.ranked_sql()),
            Stage::Done => None,
        }
    }

    /// The next query asks for the numbers of candidates, not for rows.
    pub fn wants_ids(&self) -> (r: bool)
        ensures
            r == self.stage is Candidates,
    {
        match self.stage {
            Stage::Candidates => true,
            _ => false,
        }
    }

    /// Takes the rows that the store answered with.
    pub fn take_rows(&mut self, rows: &[Item])
        requires
            old(self).well_formed(),
            !(old(self).stage is Candidates || old(self).stage is Done),
        ensures
            final(self).well_formed(),
            final(self)@ == with_rows(old(self)@, items(rows@)),
    {
        self.found.merge(rows, self.limit);
        assert(self.found@.len() == self.found.items@.len());
        let stage = if self.found.items.len() >= self.limit {
            Stage::Done
        } else {
            match self.stage {
                Stage::Exact => Stage::Prefix,
                Stage::Prefix => if self.full_text_query().is_some() {
                    Stage::Candidates
                } else {
                    Stage::Done
                },
                _ => Stage::Done,
            }
        };
        self.stage = stage;
    }

    /// Takes the candidates that the store named.
    pub fn take_ids(&mut self, ids: Vec<i64>)
        requires
            old(self).well_formed(),
            old(self).stage is Candidates,
        ensures
            final(self).well_formed(),
            final(self)@ == with_ids(old(self)@, ids@),
    {
        self.stage = if ids.len() == 0 {
            Stage::Done
        } else {
            Stage::Ranked
        };
        self.ids = ids;
    }

    fn begin(of_files: bool, class_only: bool, path_cte: &str, pattern: &str, limit: usize) -> (r: Self)
        ensures
            r.well_formed(),
            r@ == begun(of_files, class_only, path_cte@, pattern@, limit),
    {
        let text = make_search_text(pattern);
        let stage = if text.query_text.as_str().is_empty() {
            Stage::Done
        } else {
            Stage::Exact
        };
        BucketSearch {
            of_files,
            class_only,
            path_cte: text::copy_of(path_cte),
            limit: clamped(limit, 1, 10_000),
            text,
            stage,
            ids: Vec::new(),
            found: Merged::new(Likeness::Find),
        }
    }
}

/// Begins the search of symbols that match a pattern.
pub fn bucketed_symbol_results(pattern: &str, limit: usize, class_only: bool) -> (r: BucketSearch)
    ensures
        r.well_formed(),
        r@ == begun(false, class_only, ""@, pattern@, limit),
{
    BucketSearch::begin(false, class_only, "", pattern, limit)
}

/// Begins the search of files that match a pattern; `path_cte` names the table of paths.
pub fn bucketed_file_results(path_cte: &str, pattern: &str, limit: usize) -> (r: BucketSearch)
    ensures
        r.well_formed(),
        r@ == begun(true, false, path_cte@, pattern@, limit),
{
    BucketSearch::begin(true, false, path_cte, pattern, limit)
}

/// The same condition for every word.
pub open spec fn conditions(n: nat, condition: Seq<char>) -> Seq<Seq<char>> {
    Seq::new(n, |i: int| condition)
}

/// The first five characters of a text.
pub open spec fn beginning_of(s: Seq<char>) -> Seq<char> {
    if s.len() <= 5 {
        s
    } else {
        s.take(5)
    }
}

pub open spec fn anywhere(s: Seq<char>) -> Seq<char> {
    "%"@ + like_escaped(s) + "%"@
}

/// The values for the words from position `k` on of a loose search of symbols.
pub open spec fn fuzzy_symbol_params(list: Seq<Seq<char>>, owners: bool, k: int) -> Seq<ParamView>
    decreases list.len() - k,
{
    if k < 0 || k >= list.len() {
        Seq::empty()
    } else {
        let c = compact(list[k]);
        let two = seq![
            text_param(anywhere(c)),
            text_param(like_escaped(beginning_of(c)) + "%"@),
        ];
        let first = if owners {
            two.push(text_param(anywhere(list[k])))
        } else {
            two
        };
        first + fuzzy_symbol_params(list, owners, k + 1)
    }
}

/// The loose search of symbols: every word stands somewhere in the name, or its beginning at the
/// name's; unless the pattern asks for a type, a word may stand in the name of the owner.
pub open spec fn fuzzy_symbols(pattern: Seq<char>, limit: usize) -> Option<SqlView> {
    let list = tokens(pattern);
    let owners = !type_query(text::trimmed(pattern));
    let condition = if owners {
        FUZZY_COMPACT_OR_OWNER@
    } else {
        FUZZY_COMPACT@
    };
    if list.len() == 0 {
        None
    } else {
        Some(
            SqlView {
                sql: SYMBOLS@ + " WHERE "@ + text::joined(
                    conditions(list.len(), condition),
                    " AND "@,
                ) + FUZZY_SYMBOL_RANK@,
                params: fuzzy_symbol_params(list, owners, 0).push(
                    ParamView::Integer(within(limit, 1, 1000) as i64),
                ),
            },
        )
    }
}

pub open spec fn fuzzy_file_params(list: Seq<Seq<char>>, k: int) -> Seq<ParamView>
    decreases list.len() - k,
{
    if k < 0 || k >= list.len() {
        Seq::empty()
    } else {
        seq![text_param(anywhere(list[k])), text_param(anywhere(list[k]))] + fuzzy_file_params(
            list,
            k + 1,
        )
    }
}

/// The loose search of files: every word stands somewhere in the name or the path.
pub open spec fn fuzzy_files(path_cte: Seq<char>, pattern: Seq<char>, limit: usize) -> Option<SqlView> {
    let list = tokens(pattern);
    if list.len() == 0 {
        None
    } else {
        Some(
            SqlView {
                sql: path_cte + FILES@ + text::joined(
                    conditions(list.len(), FUZZY_FILE@),
                    " AND "@,
                ) + " AND "@ + NO_ASSETS@ + FUZZY_FILE_RANK@,
                params: fuzzy_file_params(list, 0).push(
                    ParamView::Integer(within(limit, 1, 1000) as i64),
                ),
            },
        )
    }
}

fn repeated(condition: &str, n: usize) -> (r: String)
    ensures
        r@ == text::joined(conditions(n as nat, condition@), " AND "@),
{
    let mut parts: Vec<String> = Vec::new();
    let mut i: usize = 0;
    while i < n
        invariant
            i <= n,
            parts@.len() == i,
            forall|j: int| 0 <= j < i ==> (#[trigger] parts@[j])@ == condition@,
        decreases n - i,
    {
        parts.push(text::copy_of(condition));
        i = i + 1;
    }
    assert(text::texts(parts@) =~= conditions(n as nat, condition@));
    text::join(&parts, " AND ")
}

fn like_anywhere(s: &str) -> (r: String)
    ensures
        r@ == anywhere(s@),
{
    text::concat3("%", &escape_like(s), "%")
}

fn first_five(s: &str) -> (r: &str)
    ensures
        r@ == beginning_of(s@),
{
    if s.unicode_len() <= 5 {
        s
    } else {
        let r = s.substring_char(0, 5);
        assert(r@ =~= s@.take(5));
        r
    }
}

pub fn search_symbols_fuzzy_fallback(pattern: &str, limit: usize) -> (r: Option<SqlQuery>)
    ensures
        opt_sql(r) == fuzzy_symbols(pattern@, limit),
{
    let words = search_tokens(pattern);
    let ghost list = tokens(pattern@);
    let n: usize = words.len();
    assert(n == list.len());
    if n == 0 {
        return None;
    }
    let allow_owner_match = !is_explicit_type_query(text::trim(pattern));
    let filter = if allow_owner_match {
        repeated(FUZZY_COMPACT_OR_OWNER, n)
    } else {
        repeated(FUZZY_COMPACT, n)
    };
    let sql = text::concat2(&text::concat3(SYMBOLS, " WHERE ", &filter), FUZZY_SYMBOL_RANK);
    let mut params = no_params();
    let mut i: usize = 0;
    let ghost all = fuzzy_symbol_params(list, allow_owner_match, 0);
    while i < n
        invariant
            text::texts(words@) == list,
            n == words@.len(),
            n == list.len(),
            i <= n,
            all =~= param_views(params@) + fuzzy_symbol_params(
                list,
                allow_owner_match,
                i as int,
            ),
        decreases n - i,
    {
        assert(list[i as int] == words@[i as int]@);
        let c = compact_identifier(&words[i]);
        let like = like_anywhere(&c);
        let start = text::concat2(&escape_like(first_five(&c)), "%");
        params = and_text(and_text(params, &like), &start);
        if allow_owner_match {
            params = and_text(params, &like_anywhere(&words[i]));
        }
        i = i + 1;
    }
    assert(param_views(params@) =~= all);
    let params = params_of(params, clamped(limit, 1, 1000));
    Some(SqlQuery { sql, params })
}

pub fn search_files_fuzzy_fallback(path_cte: &str, pattern: &str, limit: usize) -> (r: Option<SqlQuery>)
    ensures
        opt_sql(r) == fuzzy_files(path_cte@, pattern@, limit),
{
    let words = search_tokens(pattern);
    let ghost list = tokens(pattern@);
    let n: usize = words.len();
    assert(n == list.len());
    if n == 0 {
        return None;
    }
    let filter = repeated(FUZZY_FILE, n);
    let head = text::concat3(path_cte, FILES, &filter);
    let sql = text::concat2(&text::concat3(&head, " AND ", NO_ASSETS), FUZZY_FILE_RANK);
    let mut params = no_params();
    let mut i: usize = 0;
    let ghost all = fuzzy_file_params(list, 0);
    while i < n
        invariant
            text::texts(words@) == list,
            n == words@.len(),
            n == list.len(),
            i <= n,
            all =~= param_views(params@) + fuzzy_file_params(list, i as int),
        decreases n - i,
    {
        assert(list[i as int] == words@[i as int]@);
        let like = like_anywhere(&words[i]);
        params = and_text(and_text(params, &like), &like);
        i = i + 1;
    }
    assert(param_views(params@) =~= all);
    let params = params_of(params, clamped(limit, 1, 1000));
    Some(SqlQuery { sql, params })
}

// ---------------------------------------------------------------------------
// What holds of every search
// ---------------------------------------------------------------------------
/// The results hold no two alike, and are no more than asked for.
pub open spec fn bucket_sound(v: BucketView) -> bool {
    all_differ(Likeness::Find, v.found) && v.found.len() <= v.limit
}

/// How many answers of the store may still come.
pub open spec fn answers_left(v: BucketView) -> nat {
    match v.stage {
        Stage::Exact => 4,
        Stage::Prefix => 3,
        Stage::Candidates => 2,
        Stage::Ranked => 1,
        Stage::Done => 0,
    }
}

/// A search begins without results, and asks for nothing where the pattern is blank.
pub proof fn bucket_search_begins_sound(
    of_files: bool,
    class_only: bool,
    path_cte: Seq<char>,
    pattern: Seq<char>,
    limit: usize,
)
    ensures
        bucket_sound(begun(of_files, class_only, path_cte, pattern, limit)),
        text::trimmed(pattern).len() == 0 <==> begun(
            of_files,
            class_only,
            path_cte,
            pattern,
            limit,
        ).stage == Stage::Done,
{
}

/// What was found stays found, in its place; no result comes twice; the limit is kept.
pub proof fn rows_keep_search_sound(v: BucketView, rows: Seq<ItemView>)
    requires
        bucket_sound(v),
    ensures
        bucket_sound(with_rows(v, rows)),
        v.found.len() <= with_rows(v, rows).found.len(),
        with_rows(v, rows).found.take(v.found.len() as int) == v.found,
{
    merging_adds_new_items_only(Likeness::Find, v.found, rows, 0, v.limit as nat);
}

/// Each answer brings the search nearer to its end, and full results end it.
pub proof fn rows_end_the_search(v: BucketView, rows: Seq<ItemView>, ids: Seq<i64>)
    requires
        v.stage != Stage::Done,
    ensures
        answers_left(with_rows(v, rows)) < answers_left(v),
        v.stage == Stage::Candidates ==> answers_left(with_ids(v, ids)) < answers_left(v),
        with_rows(v, rows).found.len() >= v.limit ==> next_sql(with_rows(v, rows)) is None,
{
}

} // verus!
