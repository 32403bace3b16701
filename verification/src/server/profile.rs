//! What a query of the user looks like, and which searches it is worth.
use vstd::prelude::*;

use crate::query::pattern::{
    identifier, is_identifier_query, looks_like_unreal_type_query, unreal_type,
};
use crate::text;

verus! {

pub open spec fn short_query(query: Seq<char>) -> bool {
    text::trimmed(query).len() < 4
}

/// The query names a symbol.
pub open spec fn sym_strong(query: Seq<char>) -> bool {
    let s = text::trimmed(query);
    identifier(s) && (text::has(s, "::"@) || text::ascii_upper(s[0]) || unreal_type(s))
}

pub open spec fn path_like(query: Seq<char>) -> bool {
    let s = text::lower(text::trimmed(query));
    text::has_char(s, '/') || text::has_char(s, '\\') || text::ends(s, ".h"@) || text::ends(
        s,
        ".cpp"@,
    ) || text::ends(s, ".hpp"@) || text::ends(s, ".inl"@)
}

pub open spec fn literal_code(query: Seq<char>) -> bool {
    let s = text::trimmed(query);
    text::has(s, "->"@) || text::has_char(s, '.') || text::has_char(s, '(') || text::has_char(
        s,
        ')',
    ) || text::has_char(s, '=') || text::has(s, "::"@)
}

/// No letter of the text is an upper-case one.
pub open spec fn no_upper(s: Seq<char>) -> bool {
    forall|i: int|
        0 <= i < s.len() ==> !text::ascii_alpha(#[trigger] s[i]) || text::ascii_lower(s[i])
}

pub open spec fn text_like(query: Seq<char>) -> bool {
    let s = text::trimmed(query);
    &&& s.len() > 0
    &&& !path_like(s)
    &&& !sym_strong(s)
    &&& !identifier(s) || text::has_char(s, '_')
    &&& text::has_char(s, ' ') || text::has_char(s, '_') || no_upper(s)
}

pub fn live_find_is_short_query(query: &str) -> (r: bool)
    ensures
        r == short_query(query@),
{
    text::trim(query).unicode_len() < 4
}

pub fn live_find_is_sym_strong_query(query: &str) -> (r: bool)
    ensures
        r == sym_strong(query@),
{
    let s = text::trim(query);
    if !is_identifier_query(s) {
        return false;
    }
    text::contains_text(s, "::") || text::is_ascii_upper(s.get_char(0))
        || looks_like_unreal_type_query(s)
}

pub fn live_find_is_path_like_query(query: &str) -> (r: bool)
    ensures
        r == path_like(query@),
{
    let s = text::to_lower(text::trim(query));
    text::contains_char(&s, '/') || text::contains_char(&s, '\\') || text::ends_with(&s, ".h")
        || text::ends_with(&s, ".cpp") || text::ends_with(&s, ".hpp") || text::ends_with(&s, ".inl")
}

pub fn live_find_is_literal_code_query(query: &str) -> (r: bool)
    ensures
        r == literal_code(query@),
{
    let s = text::trim(query);
    text::contains_text(s, "->") || text::contains_char(s, '.') || text::contains_char(s, '(')
        || text::contains_char(s, ')') || text::contains_char(s, '=') || text::contains_text(
        s,
        "::",
    )
}

fn has_no_upper(s: &str) -> (r: bool)
    ensures
        r == no_upper(s@),
{
    let v = text::chars_of(s);
    let n: usize = v.len();
    let mut i: usize = 0;
    while i < n
        invariant
            v@ == s@,
            n == v@.len(),
            i <= n,
            forall|j: int|
                0 <= j < i ==> !text::ascii_alpha(#[trigger] s@[j]) || text::ascii_lower(s@[j]),
        decreases n - i,
    {
        if text::is_ascii_alpha(v[i]) && !text::is_ascii_lower(v[i]) {
            assert(!(!text::ascii_alpha(s@[i as int]) || text::ascii_lower(s@[i as int])));
            return false;
        }
        i = i + 1;
    }
    true
}

pub fn live_find_is_text_like_query(query: &str) -> (r: bool)
    ensures
        r == text_like(query@),
{
    let s = text::trim(query);
    if s.is_empty() || live_find_is_path_like_query(s) || live_find_is_sym_strong_query(s) {
        return false;
    }
    if is_identifier_query(s) && !text::contains_char(s, '_') {
        return false;
    }
    text::contains_char(s, ' ') || text::contains_char(s, '_') || has_no_upper(s)
}

/// What a query looks like.
#[derive(Clone, Copy, PartialEq, Eq, Structural, Debug)]
pub struct SearchQueryProfile {
    pub is_identifier: bool,
    pub is_short: bool,
    pub is_sym_strong: bool,
    pub is_path_like: bool,
    pub is_literal_code: bool,
    pub is_text_like: bool,
    pub looks_like_unreal_type: bool,
}

pub open spec fn profile_of(query: Seq<char>) -> SearchQueryProfile {
    SearchQueryProfile {
        is_identifier: identifier(query),
        is_short: short_query(query),
        is_sym_strong: sym_strong(query),
        is_path_like: path_like(query),
        is_literal_code: literal_code(query),
        is_text_like: text_like(query),
        looks_like_unreal_type: unreal_type(query),
    }
}

pub open spec fn tag_if(condition: bool, tag: Seq<char>) -> Seq<Seq<char>> {
    if condition {
        seq![tag]
    } else {
        Seq::empty()
    }
}

fn push_tag(list: Vec<String>, condition: bool, tag: &str) -> (r: Vec<String>)
    ensures
        text::texts(r@) == text::texts(list@) + tag_if(condition, tag@),
{
    let mut r = list;
    if condition {
        r.push(text::copy_of(tag));
    }
    assert(text::texts(r@) =~= text::texts(list@) + tag_if(condition, tag@));
    r
}

/// Half of the target, and 8 at least.
pub open spec fn half_target(target: usize) -> usize {
    if target / 2 > 8 {
        target / 2
    } else {
        8
    }
}

impl SearchQueryProfile {
    pub fn classify(query: &str) -> (r: Self)
        ensures
            r == profile_of(query@),
    {
        SearchQueryProfile {
            is_identifier: is_identifier_query(query),
            is_short: live_find_is_short_query(query),
            is_sym_strong: live_find_is_sym_strong_query(query),
            is_path_like: live_find_is_path_like_query(query),
            is_literal_code: live_find_is_literal_code_query(query),
            is_text_like: live_find_is_text_like_query(query),
            looks_like_unreal_type: looks_like_unreal_type_query(query),
        }
    }

    pub open spec fn tags(self) -> Seq<Seq<char>> {
        tag_if(self.is_short, "SHORT"@) + tag_if(self.is_sym_strong, "SYM_STRONG"@) + tag_if(
            self.is_path_like,
            "PATH_LIKE"@,
        ) + tag_if(self.is_literal_code, "LITERAL_CODE"@) + tag_if(self.is_text_like, "TEXT_LIKE"@)
    }

    /// The tags of the query in one line.
    pub fn tag_summary(&self) -> (r: String)
        ensures
            r@ == if self.tags().len() == 0 {
                "GENERIC"@
            } else {
                text::joined(self.tags(), "|"@)
            },
    {
        let mut tags: Vec<String> = Vec::new();
        assert(text::texts(tags@) =~= Seq::<Seq<char>>::empty());
        tags = push_tag(tags, self.is_short, "SHORT");
        tags = push_tag(tags, self.is_sym_strong, "SYM_STRONG");
        tags = push_tag(tags, self.is_path_like, "PATH_LIKE");
        tags = push_tag(tags, self.is_literal_code, "LITERAL_CODE");
        tags = push_tag(tags, self.is_text_like, "TEXT_LIKE");
        assert(text::texts(tags@) =~= self.tags());
        assert(text::texts(tags@).len() == tags@.len());
        if tags.len() == 0 {
            return text::copy_of("GENERIC");
        }
        text::join(&tags, "|")
    }

    /// Lines of code are searched: never for short queries and paths, nor where there are enough
    /// good matches; for symbols only where the query is repeated in vain.
    pub open spec fn runs_text_stage(self, hqh: usize, repeated_query: bool) -> bool {
        &&& !self.is_short
        &&& !self.is_path_like
        &&& hqh < 10
        &&& if self.is_sym_strong {
            repeated_query && hqh == 0
        } else {
            self.is_literal_code || self.is_text_like || hqh < 4
        }
    }

    pub fn should_run_live_find_text_stage(&self, hqh: usize, repeated_query: bool) -> (r: bool)
        ensures
            r == self.runs_text_stage(hqh, repeated_query),
    {
        if self.is_short || self.is_path_like {
            return false;
        }
        if hqh >= 10 {
            return false;
        }
        if self.is_sym_strong {
            return repeated_query && hqh == 0;
        }
        if self.is_literal_code || self.is_text_like {
            return true;
        }
        hqh < 4
    }

    /// Nothing but the text of the code can answer.
    pub open spec fn forces_text(self, hqh: usize) -> bool {
        !self.is_short && !self.is_path_like && !self.is_sym_strong && hqh == 0 && (
        self.is_literal_code || self.is_text_like)
    }

    pub fn should_force_reliable_text_search(&self, hqh: usize) -> (r: bool)
        ensures
            r == self.forces_text(hqh),
    {
        if self.is_short || self.is_path_like || self.is_sym_strong {
            return false;
        }
        hqh == 0 && (self.is_literal_code || self.is_text_like)
    }

    /// Symbols and files are not searched at all.
    pub open spec fn text_only(self, query: Seq<char>) -> bool {
        let s = text::trimmed(query);
        !self.is_short && !self.is_path_like && !self.is_sym_strong && (self.is_literal_code
            || text::has_char(s, ' ') || text::has_char(s, ';') || text::has_char(s, '"')
            || text::has_char(s, '#'))
    }

    pub fn should_use_text_only_path(&self, query: &str) -> (r: bool)
        ensures
            r == self.text_only(query@),
    {
        if self.is_short || self.is_path_like || self.is_sym_strong {
            return false;
        }
        let s = text::trim(query);
        self.is_literal_code || text::contains_char(s, ' ') || text::contains_char(s, ';')
            || text::contains_char(s, '"') || text::contains_char(s, '#')
    }

    /// Why the engine is not searched besides the project; it is where there is no reason.
    pub open spec fn live_skip(
        self,
        target: usize,
        count: usize,
        paths: usize,
        hqh: usize,
        current_file_in_project: bool,
    ) -> Option<Seq<char>> {
        if count == 0 {
            None
        } else if count >= target && hqh >= half_target(target) {
            Some("project_saturated_hqh"@)
        } else if self.is_sym_strong && count >= 24 {
            Some("sym_strong_project_dense"@)
        } else if self.is_identifier && !self.is_text_like && count >= 48 {
            Some("identifier_project_dense"@)
        } else if self.is_text_like && hqh >= 24 {
            Some("text_like_project_hqh"@)
        } else if current_file_in_project && count >= 24 && paths >= 4 {
            Some("current_project_dense"@)
        } else if count >= 80 || paths >= 12 {
            Some("project_dense"@)
        } else {
            None
        }
    }

    pub fn live_find_engine_skip_reason(
        &self,
        target: usize,
        project_result_count: usize,
        project_path_count: usize,
        project_hqh: usize,
        current_file_in_project: bool,
    ) -> (r: Option<&'static str>)
        ensures
            text::opt_str(r) == self.live_skip(
                target,
                project_result_count,
                project_path_count,
                project_hqh,
                current_file_in_project,
            ),
    {
        if project_result_count == 0 {
            return None;
        }
        let half: usize = if target / 2 > 8 {
            target / 2
        } else {
            8
        };
        if project_result_count >= target && project_hqh >= half {
            return Some("project_saturated_hqh");
        }
        if self.is_sym_strong && project_result_count >= 24 {
            return Some("sym_strong_project_dense");
        }
        if self.is_identifier && !self.is_text_like && project_result_count >= 48 {
            return Some("identifier_project_dense");
        }
        if self.is_text_like && project_hqh >= 24 {
            return Some("text_like_project_hqh");
        }
        if current_file_in_project && project_result_count >= 24 && project_path_count >= 4 {
            return Some("current_project_dense");
        }
        if project_result_count >= 80 || project_path_count >= 12 {
            return Some("project_dense");
        }
        None
    }

    /// Why references are not searched for in the engine; they are where there is no reason.
    pub open spec fn reference_skip(
        self,
        scope: Seq<char>,
        count: usize,
        paths: usize,
        found_definition: bool,
        cursor_in_project: bool,
    ) -> Option<Seq<char>> {
        if scope == "local"@ || scope == "member"@ {
            Some("scope_local"@)
        } else if !cursor_in_project || count == 0 {
            None
        } else if found_definition && count >= 24 {
            Some("project_definition_dense"@)
        } else if self.is_sym_strong && self.looks_like_unreal_type && count >= 4 && paths >= 2 {
            Some("unreal_type_project_hits"@)
        } else if self.is_sym_strong && count >= 8 {
            Some("sym_strong_project_hits"@)
        } else if self.is_identifier && !self.is_text_like && count >= 16 {
            Some("identifier_project_hits"@)
        } else if count >= 40 || paths >= 8 {
            Some("project_hits_dense"@)
        } else {
            None
        }
    }

    pub fn reference_engine_skip_reason(
        &self,
        scope: &str,
        project_result_count: usize,
        project_path_count: usize,
        found_definition: bool,
        cursor_in_project: bool,
    ) -> (r: Option<&'static str>)
        ensures
            text::opt_str(r) == self.reference_skip(
                scope@,
                project_result_count,
                project_path_count,
                found_definition,
                cursor_in_project,
            ),
    {
        if text::same(scope, "local") || text::same(scope, "member") {
            return Some("scope_local");
        }
        if !cursor_in_project || project_result_count == 0 {
            return None;
        }
        if found_definition && project_result_count >= 24 {
            return Some("project_definition_dense");
        }
        if self.is_sym_strong {
            if self.looks_like_unreal_type && project_result_count >= 4 && project_path_count
                >= 2 {
                return Some("unreal_type_project_hits");
            }
            if project_result_count >= 8 {
                return Some("sym_strong_project_hits");
            }
        }
        if self.is_identifier && !self.is_text_like && project_result_count >= 16 {
            return Some("identifier_project_hits");
        }
        if project_result_count >= 40 || project_path_count >= 8 {
            return Some("project_hits_dense");
        }
        None
    }
}

pub fn live_find_tag_summary(pattern: &str) -> (r: String)
    ensures
        r@ == if profile_of(pattern@).tags().len() == 0 {
            "GENERIC"@
        } else {
            text::joined(profile_of(pattern@).tags(), "|"@)
        },
{
    SearchQueryProfile::classify(pattern).tag_summary()
}

pub fn should_run_live_find_text_stage(pattern: &str, hqh: usize, repeated_query: bool) -> (r: bool)
    ensures
        r == profile_of(pattern@).runs_text_stage(hqh, repeated_query),
{
    SearchQueryProfile::classify(pattern).should_run_live_find_text_stage(hqh, repeated_query)
}

/// How many lines of code a live search shows at most.
pub open spec fn text_limit(pattern: Seq<char>, limit: usize, repeated_query: bool) -> usize {
    let wide = repeated_query && (text_like(pattern) || literal_code(pattern));
    let low: usize = if wide {
        40
    } else {
        20
    };
    let high: usize = if wide {
        60
    } else {
        30
    };
    if limit > high {
        high
    } else if limit < low {
        low
    } else {
        limit
    }
}

pub fn live_find_text_limit(pattern: &str, limit: usize, repeated_query: bool) -> (r: usize)
    ensures
        r == text_limit(pattern@, limit, repeated_query),
{
    let wide = repeated_query && (live_find_is_text_like_query(pattern)
        || live_find_is_literal_code_query(pattern));
    if wide {
        crate::query::pattern::clamped(limit, 40, 60)
    } else {
        crate::query::pattern::clamped(limit, 20, 30)
    }
}

/// A query reads as text or as the name of a symbol, never as both, and never as text and a path.
pub proof fn kinds_of_query_differ(query: Seq<char>)
    ensures
        text_like(query) ==> !sym_strong(query) && !path_like(query),
{
    text::lemma_trimmed_again(query);
}

/// Where text is forced, lines of code are searched also without force.
pub proof fn forced_text_is_searched_anyway(query: Seq<char>, hqh: usize, repeated_query: bool)
    ensures
        profile_of(query).forces_text(hqh) ==> profile_of(query).runs_text_stage(
            hqh,
            repeated_query,
        ),
{
}

/// A repeated query is worth no less than the first one.
pub proof fn repetition_widens_the_search(query: Seq<char>, hqh: usize, limit: usize)
    ensures
        profile_of(query).runs_text_stage(hqh, false) ==> profile_of(query).runs_text_stage(
            hqh,
            true,
        ),
        text_limit(query, limit, false) <= text_limit(query, limit, true),
{
}

/// More good matches never bring lines of code back.
pub proof fn good_matches_end_the_text_stage(
    profile: SearchQueryProfile,
    few: usize,
    many: usize,
    repeated_query: bool,
)
    requires
        few <= many,
    ensures
        profile.runs_text_stage(many, repeated_query) ==> profile.runs_text_stage(
            few,
            repeated_query,
        ),
{
}

} // verus!
