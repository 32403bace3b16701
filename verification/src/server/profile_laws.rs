//! What a query is taken for, and how far it is searched.
use vstd::prelude::*;

use super::path::{plugin_root, searchable, unix_path};
use super::profile::{
    literal_code, path_like, profile_of, short_query, sym_strong, text_like, text_limit,
    SearchQueryProfile,
};
use crate::query::pattern::identifier;
use crate::text;
use crate::text_laws::{capitals_become_small, lower_case_stays};

verus! {

// ---------------------------------------------------------------------------
// Kinds of queries
// ---------------------------------------------------------------------------
/// A query with a slash of either kind is taken for a path, and so is one that ends like the name of
/// a source file; a name that a capital begins is taken for a symbol's.
pub proof fn queries_are_told_by_their_signs(q: Seq<char>)
    requires
        text::trimmed(q) == q,
    ensures
        q.contains('/') || q.contains('\\') ==> path_like(q),
        text::ends(q, ".h"@) || text::ends(q, ".cpp"@) || text::ends(q, ".hpp"@) || text::ends(
            q,
            ".inl"@,
        ) ==> path_like(q),
        identifier(q) && 'A' <= q[0] <= 'Z' ==> sym_strong(q),
        identifier(q) && text::has(q, "::"@) ==> sym_strong(q),
        !identifier(q) ==> !sym_strong(q),
        q.contains('(') || q.contains(')') || q.contains('=') || q.contains('.') ==> literal_code(q),
        text::has(q, "->"@) || text::has(q, "::"@) ==> literal_code(q),
        short_query(q) <==> q.len() <= 3,
{
    let s = text::lower(q);
    lower_case_stays(q);
    reveal_strlit(".h");
    reveal_strlit(".cpp");
    reveal_strlit(".hpp");
    reveal_strlit(".inl");
    if q.contains('/') {
        let k = choose|k: int| 0 <= k < q.len() && q[k] == '/';
        assert(s[k] == '/');
    }
    if q.contains('\\') {
        let k = choose|k: int| 0 <= k < q.len() && q[k] == '\\';
        assert(s[k] == '\\');
    }
    lemma_lower_ends(q, ".h"@);
    lemma_lower_ends(q, ".cpp"@);
    lemma_lower_ends(q, ".hpp"@);
    lemma_lower_ends(q, ".inl"@);
}

proof fn lemma_lower_ends(q: Seq<char>, p: Seq<char>)
    requires
        forall|i: int| 0 <= i < p.len() ==> !text::ascii_upper(#[trigger] p[i]),
    ensures
        text::ends(q, p) ==> text::ends(text::lower(q), p),
{
    if text::ends(q, p) {
        let s = text::lower(q);
        let n = q.len() - p.len();
        assert forall|i: int| 0 <= i < p.len() implies #[trigger] s.subrange(n, s.len() as int)[i]
            == p[i] by {
            assert(q.subrange(n, q.len() as int)[i] == p[i]);
            assert(q[n + i] == p[i]);
            capitals_become_small(q[n + i]);
        }
        assert(s.subrange(n, s.len() as int) =~= p);
    }
}

/// Words with spaces between them are taken for text unless they are for a path; a single name
/// without an underscore never is.
pub proof fn words_are_taken_for_text(q: Seq<char>)
    requires
        text::trimmed(q) == q,
    ensures
        q.contains(' ') && !path_like(q) ==> text_like(q),
        identifier(q) && !q.contains('_') ==> !text_like(q),
        q.contains('/') ==> !text_like(q),
{
    if q.contains(' ') {
        let k = choose|k: int| 0 <= k < q.len() && q[k] == ' ';
        if identifier(q) {
            assert(k >= 1);
            assert(crate::query::pattern::identifier_char(q[k]));
        }
        assert(!identifier(q));
    }
    queries_are_told_by_their_signs(q);
}

// ---------------------------------------------------------------------------
// Lines of code
// ---------------------------------------------------------------------------
/// Lines of code are never searched for a short query or a path, nor where ten good matches were
/// found; for a symbol they are where the query is repeated and nothing good was found.
pub proof fn paths_are_not_searched_in_lines(p: SearchQueryProfile, hqh: usize, repeated: bool)
    ensures
        p.is_short || p.is_path_like || hqh >= 10 ==> !p.runs_text_stage(hqh, repeated),
        p.is_short || p.is_path_like || p.is_sym_strong || hqh > 0 ==> !p.forces_text(hqh),
        p.is_sym_strong && (!repeated || hqh > 0) ==> !p.runs_text_stage(hqh, repeated),
        !p.is_short && !p.is_path_like && p.is_sym_strong && repeated ==> p.runs_text_stage(
            0,
            repeated,
        ),
        !p.is_short && !p.is_path_like && !p.is_sym_strong && hqh < 4 ==> p.runs_text_stage(
            hqh,
            repeated,
        ),
        !p.is_short && !p.is_path_like && !p.is_sym_strong && (p.is_literal_code || p.is_text_like)
            ==> p.forces_text(0),
{
}

/// Only lines are searched for code and for words; never for short queries, paths and symbols.
pub proof fn code_is_searched_in_lines_only(q: Seq<char>)
    requires
        text::trimmed(q) == q,
    ensures
        q.len() <= 3 || path_like(q) || sym_strong(q) ==> !profile_of(q).text_only(q),
        q.len() > 3 && !path_like(q) && !sym_strong(q) && (q.contains(' ') || q.contains(';')
            || q.contains('"') || q.contains('#') || literal_code(q)) ==> profile_of(q).text_only(q),
        q.len() > 3 && !literal_code(q) && identifier(q) ==> !profile_of(q).text_only(q),
{
    if identifier(q) && q.len() > 3 {
        assert forall|c: char|
            #![trigger q.contains(c)]
            c == ' ' || c == ';' || c == '"' || c == '#' implies !q.contains(c) by {
            if q.contains(c) {
                let k = choose|k: int| 0 <= k < q.len() && q[k] == c;
                if k >= 1 {
                    assert(crate::query::pattern::identifier_char(q[k]));
                }
            }
        }
    }
}

/// A live search shows twenty to thirty lines, or forty to sixty where a text or code is searched
/// again; within these it shows as many as asked for, and never fewer for a higher limit.
pub proof fn lines_are_limited(q: Seq<char>, few: usize, many: usize, repeated: bool)
    requires
        few <= many,
    ensures
        ({
            let wide = repeated && (text_like(q) || literal_code(q));
            &&& wide ==> 40 <= text_limit(q, few, repeated) <= 60
            &&& !wide ==> 20 <= text_limit(q, few, repeated) <= 30
            &&& wide && 40 <= few <= 60 ==> text_limit(q, few, repeated) == few
            &&& !wide && 20 <= few <= 30 ==> text_limit(q, few, repeated) == few
            &&& text_limit(q, few, repeated) <= text_limit(q, many, repeated)
        }),
{
}

// ---------------------------------------------------------------------------
// The engine
// ---------------------------------------------------------------------------
/// The engine is searched where the project found nothing or little. What keeps a search from the
/// engine does so, too, where the project finds more.
pub proof fn rich_projects_spare_the_engine(
    p: SearchQueryProfile,
    target: usize,
    count: usize,
    more: usize,
    paths: usize,
    more_paths: usize,
    hqh: usize,
    more_hqh: usize,
    in_project: bool,
)
    requires
        count <= more,
        paths <= more_paths,
        hqh <= more_hqh,
    ensures
        p.live_skip(target, 0, paths, hqh, in_project) is None,
        count < 24 && paths < 12 && hqh < 8 ==> p.live_skip(target, count, paths, hqh, in_project)
            is None,
        count >= 80 ==> p.live_skip(target, count, paths, hqh, in_project) is Some,
        count > 0 && paths >= 12 ==> p.live_skip(target, count, paths, hqh, in_project) is Some,
        in_project && count >= 24 && paths >= 4 ==> p.live_skip(
            target,
            count,
            paths,
            hqh,
            in_project,
        ) is Some,
        p.is_sym_strong && count >= 24 ==> p.live_skip(target, count, paths, hqh, in_project) is Some,
        p.live_skip(target, count, paths, hqh, in_project) is Some ==> p.live_skip(
            target,
            more,
            more_paths,
            more_hqh,
            in_project,
        ) is Some,
{
}

/// References are searched for in the engine, too, unless they are local or the cursor stands in the
/// project and enough were found there; what keeps them from the engine does so, too, where more are
/// found.
pub proof fn found_references_spare_the_engine(
    p: SearchQueryProfile,
    scope: Seq<char>,
    count: usize,
    more: usize,
    paths: usize,
    more_paths: usize,
    defined: bool,
)
    requires
        count <= more,
        paths <= more_paths,
    ensures
        ({
            let local = scope == "local"@ || scope == "member"@;
            &&& local ==> p.reference_skip(scope, count, paths, defined, true) is Some
                && p.reference_skip(scope, count, paths, defined, false) is Some
            &&& !local ==> p.reference_skip(scope, count, paths, defined, false) is None
            &&& !local ==> p.reference_skip(scope, 0, paths, defined, true) is None
            &&& !local && count < 4 && paths < 8 ==> p.reference_skip(
                scope,
                count,
                paths,
                defined,
                true,
            ) is None
            &&& count >= 40 ==> p.reference_skip(scope, count, paths, defined, true) is Some
            &&& defined && count >= 24 ==> p.reference_skip(scope, count, paths, defined, true) is Some
            &&& p.is_sym_strong && count >= 8 ==> p.reference_skip(scope, count, paths, defined, true)
                is Some
            &&& p.reference_skip(scope, count, paths, false, true) is Some ==> p.reference_skip(
                scope,
                more,
                more_paths,
                defined,
                true,
            ) is Some
        }),
{
}

// ---------------------------------------------------------------------------
// Plugins
// ---------------------------------------------------------------------------
proof fn lemma_nothing_to_replace(s: Seq<char>, x: char, with: Seq<char>)
    requires
        !s.contains(x),
    ensures
        text::replaced_char(s, x, with) == s,
    decreases s.len(),
{
    if s.len() > 0 {
        assert(s.contains(s.last()));
        let t = s.drop_last();
        assert(!t.contains(x)) by {
            if t.contains(x) {
                let k = choose|k: int| 0 <= k < t.len() && t[k] == x;
                assert(s[k] == x);
            }
        }
        lemma_nothing_to_replace(t, x, with);
        assert(t.push(s.last()) =~= s);
    }
}

/// A file in a directory below `Plugins` belongs to the plugin in that directory.
pub proof fn plugins_are_found_by_their_directory(
    root: Seq<char>,
    name: Seq<char>,
    rest: Seq<char>,
)
    requires
        !(root + "/Plugins/"@ + name + "/"@ + rest).contains('\\'),
        !name.contains('/'),
        forall|j: int|
            0 <= j < root.len() ==> !text::occurs_at(
                text::lower(root + "/Plugins/"@ + name + "/"@ + rest),
                "/plugins/"@,
                j,
            ),
    ensures
        plugin_root(root + "/Plugins/"@ + name + "/"@ + rest) == Some(root + "/Plugins/"@ + name),
{
    let big = "/Plugins/"@;
    let p = "/plugins/"@;
    let s = root + big + name + "/"@ + rest;
    reveal_strlit("/Plugins/");
    reveal_strlit("/plugins/");
    reveal_strlit("/");
    lemma_nothing_to_replace(s, '\\', "/"@);
    assert(unix_path(s) == s);
    lower_case_stays(s);
    let low = text::lower(s);
    let at = root.len() as int;
    assert forall|i: int| 0 <= i < p.len() implies #[trigger] low.subrange(at, at + p.len())[i]
        == p[i] by {
        assert(s[at + i] == big[i]);
        capitals_become_small(big[i]);
        if i == 1 {
            assert(text::lower_char('P') as u32 == 'p' as u32);
        }
    }
    assert(low.subrange(at, at + p.len()) =~= p);
    assert(text::occurs_at(low, p, at));
    text::lemma_find_from(low, p, 0);
    assert(text::find(low, p) == Some(at));
    let inside = at + p.len();
    text::lemma_char_from(s, '/', inside);
    let end = text::char_from(s, '/', inside);
    let stop = inside + name.len();
    assert(s[stop] == '/');
    if end < stop {
        assert(s[end] == name[end - inside]);
    }
    assert(end == stop);
    assert(s.take(end) =~= root + big + name);
}

/// The ending is that of a file of source code or of settings.
pub open spec fn source_ending(e: Seq<char>) -> bool {
    e == ".h"@ || e == ".hpp"@ || e == ".cpp"@ || e == ".c"@ || e == ".cc"@ || e == ".inl"@ || e
        == ".cs"@ || e == ".ini"@ || e == ".json"@ || e == ".uproject"@ || e == ".uplugin"@
}

/// Files of source code and of settings may be searched for text, in whatever case their ending is
/// written; files without an ending, and assets, may not.
pub proof fn source_files_are_searched(name: Seq<char>, e: Seq<char>)
    ensures
        source_ending(text::lower(e)) ==> searchable(name + e),
        !name.contains('.') ==> !searchable(name),
        !searchable(name + ".uasset"@),
{
    lower_case_stays(name);
    lower_case_stays(e);
    lower_case_stays(name + e);
    let s = text::lower(name + e);
    let low = text::lower(e);
    assert(s =~= text::lower(name) + low);
    assert(s.subrange(s.len() - low.len(), s.len() as int) =~= low);
    let all = seq![
        ".h"@, ".hh"@, ".hpp"@, ".hxx"@, ".c"@, ".cc"@, ".cpp"@, ".cxx"@, ".inl"@, ".ipp"@, ".cs"@,
        ".ini"@, ".json"@, ".uproject"@, ".uplugin"@,
    ];
    reveal_strlit(".h");
    reveal_strlit(".hh");
    reveal_strlit(".hpp");
    reveal_strlit(".hxx");
    reveal_strlit(".c");
    reveal_strlit(".cc");
    reveal_strlit(".cpp");
    reveal_strlit(".cxx");
    reveal_strlit(".inl");
    reveal_strlit(".ipp");
    reveal_strlit(".cs");
    reveal_strlit(".ini");
    reveal_strlit(".json");
    reveal_strlit(".uproject");
    reveal_strlit(".uplugin");
    reveal_strlit(".uasset");
    let plain = text::lower(name);
    let asset = name + ".uasset"@;
    lower_case_stays(asset);
    let w = text::lower(asset);
    capitals_become_small('t');
    capitals_become_small('e');
    assert(asset.last() == 't');
    assert(w.last() == 't');
    assert(w[w.len() - 2] == 'e') by {
        assert(asset[asset.len() - 2] == 'e');
    }
    assert forall|p: Seq<char>| #[trigger] all.contains(p) implies !text::ends(w, p) && (
    !name.contains('.') ==> !text::ends(plain, p)) by {
        let i = choose|i: int| 0 <= i < all.len() && all[i] == p;
        assert(p.len() >= 2 && p[0] == '.');
        if text::ends(w, p) {
            assert(w.subrange(w.len() - p.len(), w.len() as int)[p.len() - 1] == w.last());
            assert(p.last() == 't');
            if i == 13 {
                assert(w.subrange(w.len() - p.len(), w.len() as int)[p.len() - 2] == w[w.len() - 2]);
                assert(w.subrange(w.len() - p.len(), w.len() as int)[p.len() - 3] == w[w.len() - 3]);
                assert(asset[asset.len() - 3] == 's');
                capitals_become_small('s');
                assert(w[w.len() - 3] == 's');
            }
        }
        if text::ends(plain, p) {
            let k = plain.len() - p.len();
            assert(plain.subrange(k, plain.len() as int)[0] == plain[k]);
            assert(plain[k] == '.');
            capitals_become_small(name[k]);
            assert(name[k] == '.');
        }
    }
    assert(all[0] == ".h"@ && all[1] == ".hh"@ && all[2] == ".hpp"@ && all[3] == ".hxx"@ && all[4]
        == ".c"@ && all[5] == ".cc"@ && all[6] == ".cpp"@ && all[7] == ".cxx"@ && all[8] == ".inl"@
        && all[9] == ".ipp"@ && all[10] == ".cs"@ && all[11] == ".ini"@ && all[12] == ".json"@
        && all[13] == ".uproject"@ && all[14] == ".uplugin"@);
    assert forall|i: int| 0 <= i < all.len() implies all.contains(#[trigger] all[i]) by {}
    assert(!searchable(asset));
    assert(!name.contains('.') ==> !searchable(name));
}

} // verus!
