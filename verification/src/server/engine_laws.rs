//! What is asked of the project and of the engine, and where the answers come from.
use vstd::prelude::*;

use super::engine::{
    direct_lookup, engine_asks, engine_begun, engine_taken, navigation_answered, navigation_begun,
    scope_named, signature_help, CursorContext, EngineSearchKind, EngineStep, NavigationKind,
    NavigationStep, NavigationView, PlaceView, SearchScope, SignatureView,
};
use super::livefind::{asked_for, live_answered, live_begun, live_shown, LiveStep, LiveView};
use super::profile::text_limit;
use super::rank::{live_ranked, unsent_from};
use crate::query::item::{
    all_tagged, class_identity, field_of, find_identity, live_identity, merged,
    merging_adds_new_items_only, page, result_identity_of, set_field_is_read_back, tagged, FieldView,
    ItemView, Likeness,
};
use crate::text;

verus! {

// ---------------------------------------------------------------------------
// Marks
// ---------------------------------------------------------------------------
/// The item is the row with its source marked: what the row says it says, and where the row says
/// nothing of its source, this one.
pub open spec fn marked(x: ItemView, row: ItemView, source: Seq<char>) -> bool {
    &&& forall|key: Seq<char>|
        key != "source"@ ==> #[trigger] field_of(x, key) == field_of(row, key)
    &&& field_of(row, "source"@) is None ==> field_of(x, "source"@) == Some(FieldView::Text(source))
    &&& field_of(row, "source"@) is Some ==> field_of(x, "source"@) == field_of(row, "source"@)
}

/// Marking an item sets its source, unless it has one, and changes nothing else; so it stays like
/// the items that it was like.
pub proof fn marking_sets_the_source_only(row: ItemView, source: Seq<char>)
    ensures
        marked(tagged(row, source), row, source),
        find_identity(tagged(row, source)) == find_identity(row),
        result_identity_of(tagged(row, source)) == result_identity_of(row),
        live_identity(tagged(row, source)) == live_identity(row),
        class_identity(tagged(row, source)) == class_identity(row),
{
    let x = tagged(row, source);
    assert forall|key: Seq<char>| key != "source"@ implies #[trigger] field_of(x, key) == field_of(
        row,
        key,
    ) by {
        set_field_is_read_back(row, "source"@, FieldView::Text(source), key);
    }
    set_field_is_read_back(row, "source"@, FieldView::Text(source), "source"@);
    reveal_strlit("source");
    reveal_strlit("type");
    reveal_strlit("symbol_type");
    reveal_strlit("name");
    reveal_strlit("symbol_name");
    reveal_strlit("path");
    reveal_strlit("file_path");
    reveal_strlit("line");
    reveal_strlit("line_number");
    assert("source"@[0] == 's');
    assert("symbol_type"@.len() == 11 && "symbol_name"@.len() == 11 && "source"@.len() == 6);
    assert("type"@ != "source"@ && "symbol_type"@ != "source"@ && "name"@ != "source"@
        && "symbol_name"@ != "source"@ && "path"@ != "source"@ && "file_path"@ != "source"@
        && "line"@ != "source"@ && "line_number"@ != "source"@);
}

/// The item is one of the rows, marked.
pub open spec fn from_rows(x: ItemView, rows: Seq<ItemView>, source: Seq<char>) -> bool {
    exists|i: int| 0 <= i < rows.len() && marked(x, #[trigger] rows[i], source)
}

proof fn lemma_tagged_rows(rows: Seq<ItemView>, source: Seq<char>)
    ensures
        forall|k: int|
            0 <= k < rows.len() ==> from_rows(#[trigger] all_tagged(rows, source)[k], rows, source),
{
    assert forall|k: int| 0 <= k < rows.len() implies from_rows(
        #[trigger] all_tagged(rows, source)[k],
        rows,
        source,
    ) by {
        marking_sets_the_source_only(rows[k], source);
        assert(marked(all_tagged(rows, source)[k], rows[k], source));
    }
}

proof fn lemma_merged_from(
    kind: Likeness,
    list: Seq<ItemView>,
    more: Seq<ItemView>,
    k: int,
    limit: nat,
    i: int,
)
    requires
        0 <= i < merged(kind, list, more, k, limit).len(),
    ensures
        list.contains(merged(kind, list, more, k, limit)[i]) || more.contains(
            merged(kind, list, more, k, limit)[i],
        ),
    decreases more.len() - k,
{
    if 0 <= k < more.len() && list.len() < limit {
        if crate::query::item::has_like(kind, list, crate::query::item::identity(kind, more[k])) {
            lemma_merged_from(kind, list, more, k + 1, limit, i);
        } else {
            let next = list.push(more[k]);
            lemma_merged_from(kind, next, more, k + 1, limit, i);
            let x = merged(kind, list, more, k, limit)[i];
            if next.contains(x) {
                let j = choose|j: int| 0 <= j < next.len() && next[j] == x;
                if j < list.len() {
                    assert(list[j] == x);
                } else {
                    assert(more[k] == x);
                }
            }
        }
    }
}

// ---------------------------------------------------------------------------
// Searches
// ---------------------------------------------------------------------------
/// A search goes to the engine only where its scope is called so, and to the project only where that
/// is; every other name is no restriction.
pub proof fn scopes_go_by_their_names(name: Seq<char>, other: SearchScope)
    ensures
        scope_named(Some("engine"@), other) == SearchScope::Engine,
        scope_named(Some("project"@), other) == SearchScope::Project,
        scope_named(None, other) == other,
        name != "engine"@ && name != "project"@ ==> scope_named(Some(name), other) == other,
{
    reveal_strlit("engine");
    reveal_strlit("project");
    assert("engine"@.len() == 6 && "project"@.len() == 7);
}

/// A search of the engine alone asks the engine, and every other one the project first. Both are
/// asked for what the caller wants; types are asked for from the first on.
pub proof fn the_project_is_asked_first(
    kind: EngineSearchKind,
    scope: SearchScope,
    pattern: Seq<char>,
    limit: usize,
    offset: usize,
)
    requires
        1 <= limit <= 10_000,
    ensures
        ({
            let v = engine_begun(kind, scope, pattern, limit, offset);
            &&& v.step == EngineStep::Engine <==> scope == SearchScope::Engine
            &&& v.step == EngineStep::Project <==> scope != SearchScope::Engine
            &&& v.results.len() == 0
            &&& kind != EngineSearchKind::Classes ==> engine_asks(v) == (limit, offset)
            &&& kind == EngineSearchKind::Classes ==> engine_asks(v) == (limit, 0usize)
        }),
{
}

/// A search of the project alone ends with the project's answer, and so does one whose page the
/// project fills, unless it is for types; else the engine is asked for what is missing.
pub proof fn the_engine_fills_the_page(
    kind: EngineSearchKind,
    scope: SearchScope,
    pattern: Seq<char>,
    limit: usize,
    offset: usize,
    rows: Seq<ItemView>,
)
    requires
        scope != SearchScope::Engine,
        kind == EngineSearchKind::Symbols || kind == EngineSearchKind::Fast,
        1 <= limit <= 10_000,
    ensures
        ({
            let v = engine_taken(engine_begun(kind, scope, pattern, limit, offset), Some(rows));
            &&& scope == SearchScope::Project || rows.len() >= limit ==> v.step == EngineStep::Done
                && v.results.len() == (if rows.len() < limit {
                rows.len()
            } else {
                limit as nat
            })
            &&& scope == SearchScope::Both && rows.len() < limit ==> v.step == EngineStep::Engine
                && v.results.len() == rows.len() && engine_asks(v) == (
                (limit - rows.len()) as usize,
                0usize,
            )
            &&& forall|i: int|
                0 <= i < v.results.len() ==> marked(
                    #[trigger] v.results[i],
                    rows[i],
                    "project"@,
                )
        }),
{
    let v = engine_taken(engine_begun(kind, scope, pattern, limit, offset), Some(rows));
    let found = all_tagged(rows, "project"@);
    assert forall|i: int| 0 <= i < v.results.len() implies marked(
        #[trigger] v.results[i],
        rows[i],
        "project"@,
    ) by {
        marking_sets_the_source_only(rows[i], "project"@);
        assert(v.results[i] == found[i]);
    }
}

/// Lines of code are searched in one place only, types in both whatever the project found, and
/// everything in the engine too unless the project fills the page.
pub proof fn kinds_of_search_differ(
    pattern: Seq<char>,
    limit: usize,
    offset: usize,
    rows: Seq<ItemView>,
)
    requires
        1 <= limit <= 10_000,
    ensures
        ({
            let both = SearchScope::Both;
            let lines = engine_taken(
                engine_begun(EngineSearchKind::CodeText, both, pattern, limit, offset),
                Some(rows),
            );
            let types = engine_taken(
                engine_begun(EngineSearchKind::Classes, both, pattern, limit, offset),
                Some(rows),
            );
            let all = engine_taken(
                engine_begun(EngineSearchKind::Global, both, pattern, limit, offset),
                Some(rows),
            );
            &&& lines.step == EngineStep::Done
            &&& types.step == EngineStep::Engine
            &&& all.step == EngineStep::Done <==> rows.len() >= limit
            &&& all.step == EngineStep::Engine <==> rows.len() < limit
        }),
{
}

/// Where the project and the engine are asked, a result is a row of the project, marked so, or a row
/// of the engine, marked so; the project's come first, and there are no more than asked for.
pub proof fn results_are_marked_by_their_source(
    kind: EngineSearchKind,
    pattern: Seq<char>,
    limit: usize,
    offset: usize,
    rows: Seq<ItemView>,
    more: Seq<ItemView>,
)
    requires
        kind == EngineSearchKind::Symbols || kind == EngineSearchKind::Fast || kind
            == EngineSearchKind::Global,
        1 <= limit <= 10_000,
        rows.len() < limit,
    ensures
        ({
            let v = engine_taken(
                engine_taken(
                    engine_begun(kind, SearchScope::Both, pattern, limit, offset),
                    Some(rows),
                ),
                Some(more),
            );
            &&& v.step == EngineStep::Done
            &&& rows.len() <= v.results.len() <= limit
            &&& forall|i: int|
                0 <= i < rows.len() ==> marked(#[trigger] v.results[i], rows[i], "project"@)
            &&& forall|i: int|
                0 <= i < v.results.len() ==> from_rows(#[trigger] v.results[i], rows, "project"@)
                    || from_rows(v.results[i], more, "engine"@)
        }),
{
    let first = engine_taken(
        engine_begun(kind, SearchScope::Both, pattern, limit, offset),
        Some(rows),
    );
    let v = engine_taken(first, Some(more));
    let a = all_tagged(rows, "project"@);
    let b = all_tagged(more, "engine"@);
    assert(first.results == a);
    lemma_tagged_rows(rows, "project"@);
    lemma_tagged_rows(more, "engine"@);
    merging_adds_new_items_only(Likeness::Result, a, b, 0, limit as nat);
    if kind != EngineSearchKind::Global {
        assert(v.results == merged(Likeness::Result, a, b, 0, limit as nat));
        assert(v.results.take(a.len() as int) == a);
    }
    assert forall|i: int| 0 <= i < rows.len() implies marked(
        #[trigger] v.results[i],
        rows[i],
        "project"@,
    ) by {
        marking_sets_the_source_only(rows[i], "project"@);
        if kind != EngineSearchKind::Global {
            assert(v.results.take(a.len() as int)[i] == a[i]);
        } else {
            assert((a + b)[i] == a[i]);
        }
        assert(v.results[i] == a[i]);
    }
    assert forall|i: int| 0 <= i < v.results.len() implies from_rows(
        #[trigger] v.results[i],
        rows,
        "project"@,
    ) || from_rows(v.results[i], more, "engine"@) by {
        let x = v.results[i];
        if kind != EngineSearchKind::Global {
            lemma_merged_from(Likeness::Result, a, b, 0, limit as nat, i);
            if a.contains(x) {
                let j = choose|j: int| 0 <= j < a.len() && a[j] == x;
                assert(from_rows(a[j], rows, "project"@));
            } else {
                let j = choose|j: int| 0 <= j < b.len() && b[j] == x;
                assert(from_rows(b[j], more, "engine"@));
            }
        } else {
            assert(x == (a + b)[i]);
            if i < a.len() {
                assert(from_rows(a[i], rows, "project"@));
            } else {
                assert(from_rows(b[i - a.len()], more, "engine"@));
            }
        }
    }
}

/// A search of the engine alone gives the engine's rows, marked so.
pub proof fn engine_rows_are_marked(
    kind: EngineSearchKind,
    pattern: Seq<char>,
    limit: usize,
    offset: usize,
    rows: Seq<ItemView>,
)
    requires
        kind != EngineSearchKind::Classes,
    ensures
        ({
            let v = engine_taken(
                engine_begun(kind, SearchScope::Engine, pattern, limit, offset),
                Some(rows),
            );
            &&& v.step == EngineStep::Done
            &&& v.results.len() == rows.len()
            &&& forall|i: int|
                0 <= i < rows.len() ==> marked(#[trigger] v.results[i], rows[i], "engine"@)
        }),
{
    let v = engine_taken(
        engine_begun(kind, SearchScope::Engine, pattern, limit, offset),
        Some(rows),
    );
    assert forall|i: int| 0 <= i < rows.len() implies marked(
        #[trigger] v.results[i],
        rows[i],
        "engine"@,
    ) by {
        marking_sets_the_source_only(rows[i], "engine"@);
    }
}

// ---------------------------------------------------------------------------
// Navigation
// ---------------------------------------------------------------------------
/// Members are never looked up by their name alone; what a scope qualifies always is; else a name
/// with a capital is, and any name where a definition is wanted and nothing qualifies it.
pub proof fn members_are_not_looked_up_by_name(c: CursorContext, prefer_impl: bool)
    ensures
        ({
            let op = text::opt_text(c.qualifier_op);
            let symbol = text::trimmed(c.symbol@);
            let found = direct_lookup(Some(c), prefer_impl);
            &&& op == Some("."@) || op == Some("->"@) ==> !found
            &&& op == Some("::"@) ==> found
            &&& op is None && symbol.len() == 0 ==> !found
            &&& op is None && symbol.len() > 0 && 'A' <= symbol[0] <= 'Z' ==> found
            &&& op is None && symbol.len() > 0 && 'a' <= symbol[0] <= 'z' ==> (found <==> !prefer_impl
                && c.qualifier is None)
        }),
        !direct_lookup(None, prefer_impl),
{
    reveal_strlit("::");
    reveal_strlit(".");
    reveal_strlit("->");
    assert("::"@[0] == ':' && "."@[0] == '.' && "->"@[0] == '-');
}

/// The question before anything was answered.
pub open spec fn fresh(v: NavigationView) -> bool {
    v.step == NavigationStep::Cache && v.result is Null && !v.keep
}

/// A remembered answer is given as it is. Else the project is asked, then the engine, and last the
/// engine by the name alone where that is allowed; the first answer counts and bears the mark of
/// where it came from.
pub proof fn places_are_asked_for_in_order(
    v: NavigationView,
    remembered: PlaceView,
    own: ItemView,
    other: ItemView,
    last: ItemView,
)
    requires
        fresh(v),
    ensures
        ({
            let known = navigation_answered(v, Some(remembered));
            let asked = navigation_answered(v, None);
            let in_project = navigation_answered(asked, Some(PlaceView::Object(own)));
            let not_in_project = navigation_answered(asked, Some(PlaceView::Null));
            let in_engine = navigation_answered(not_in_project, Some(PlaceView::Object(other)));
            let not_in_engine = navigation_answered(not_in_project, Some(PlaceView::Null));
            let by_name = navigation_answered(not_in_engine, Some(PlaceView::Object(last)));
            &&& known.step == NavigationStep::Done && known.result == remembered && !known.keep
            &&& asked.step == NavigationStep::Project
            &&& in_project.step == NavigationStep::Done && in_project.keep
            &&& in_project.result matches PlaceView::Object(x) && marked(x, own, "project"@)
            &&& not_in_project.step == NavigationStep::Engine && !not_in_project.keep
            &&& navigation_answered(asked, None).step == NavigationStep::Engine
            &&& in_engine.step == NavigationStep::Done && in_engine.keep
            &&& in_engine.result matches PlaceView::Object(x) && marked(x, other, "engine"@)
            &&& v.direct ==> not_in_engine.step == NavigationStep::Direct && by_name.step
                == NavigationStep::Done && by_name.keep && (by_name.result matches PlaceView::Object(x)
                && marked(x, last, "engine"@))
            &&& !v.direct ==> not_in_engine.step == NavigationStep::Done && not_in_engine.keep
                && not_in_engine.result is Null
            &&& navigation_answered(not_in_project, None).step == NavigationStep::Done
                && !navigation_answered(not_in_project, None).keep && navigation_answered(
                not_in_project,
                None,
            ).result is Null
        }),
{
    marking_sets_the_source_only(own, "project"@);
    marking_sets_the_source_only(other, "engine"@);
    marking_sets_the_source_only(last, "engine"@);
}

/// A question begins with what is remembered, and one for a description never ends with a look-up by
/// name alone; an implementation is looked up so more seldom than a definition.
pub proof fn questions_begin_with_what_is_remembered(ctx: Option<CursorContext>)
    ensures
        fresh(navigation_begun(NavigationKind::Definition, ctx)),
        fresh(navigation_begun(NavigationKind::Implementation, ctx)),
        fresh(navigation_begun(NavigationKind::Hover, ctx)),
        !navigation_begun(NavigationKind::Hover, ctx).direct,
        navigation_begun(NavigationKind::Implementation, ctx).direct ==> navigation_begun(
            NavigationKind::Definition,
            ctx,
        ).direct,
{
}

// ---------------------------------------------------------------------------
// Signatures
// ---------------------------------------------------------------------------
/// The signatures that are shown are those of the project, marked so, and behind them those of the
/// engine, marked so, up to sixteen in all.
pub proof fn signatures_of_the_project_come_first(
    project: SignatureView,
    engine: SignatureView,
    own: Seq<ItemView>,
    more: Seq<ItemView>,
)
    requires
        project.signatures == Some(own),
        engine.signatures == Some(more),
        own.len() <= 16,
    ensures
        ({
            let r = signature_help(Some(project), Some(engine))->0;
            &&& signature_help(Some(project), Some(engine)) is Some
            &&& r.fields == project.fields
            &&& r.signatures is Some
            &&& own.len() <= r.signatures->0.len() <= 16
            &&& forall|i: int|
                0 <= i < own.len() ==> marked(#[trigger] r.signatures->0[i], own[i], "project"@)
            &&& forall|i: int|
                own.len() <= i < r.signatures->0.len() ==> from_rows(
                    #[trigger] r.signatures->0[i],
                    more,
                    "engine"@,
                ) || from_rows(r.signatures->0[i], own, "project"@)
        }),
        signature_help(Some(project), None) is Some,
        signature_help(Some(project), None)->0.signatures == Some(all_tagged(own, "project"@)),
        signature_help(None, None) is None,
        signature_help(None, Some(engine)) is Some,
        signature_help(None, Some(engine))->0.signatures == engine.signatures,
        marked(signature_help(None, Some(engine))->0.fields, engine.fields, "engine"@),
{
    let a = all_tagged(own, "project"@);
    let b = all_tagged(more, "engine"@);
    let list = merged(Likeness::Result, a, b, 0, 16);
    let r = signature_help(Some(project), Some(engine))->0;
    assert(r.signatures == Some(list));
    merging_adds_new_items_only(Likeness::Result, a, b, 0, 16);
    lemma_tagged_rows(own, "project"@);
    lemma_tagged_rows(more, "engine"@);
    marking_sets_the_source_only(engine.fields, "engine"@);
    assert forall|i: int| 0 <= i < own.len() implies marked(
        #[trigger] r.signatures->0[i],
        own[i],
        "project"@,
    ) by {
        marking_sets_the_source_only(own[i], "project"@);
        assert(list.take(a.len() as int)[i] == a[i]);
    }
    assert forall|i: int| own.len() <= i < r.signatures->0.len() implies from_rows(
        #[trigger] r.signatures->0[i],
        more,
        "engine"@,
    ) || from_rows(r.signatures->0[i], own, "project"@) by {
        lemma_merged_from(Likeness::Result, a, b, 0, 16, i);
        let x = list[i];
        if a.contains(x) {
            let j = choose|j: int| 0 <= j < a.len() && a[j] == x;
            assert(from_rows(a[j], own, "project"@));
        } else {
            let j = choose|j: int| 0 <= j < b.len() && b[j] == x;
            assert(from_rows(b[j], more, "engine"@));
        }
    }
}

// ---------------------------------------------------------------------------
// Live search
// ---------------------------------------------------------------------------
/// A live search for a blank pattern is over before it begins and finds nothing.
pub proof fn blank_patterns_find_nothing(
    pattern: Seq<char>,
    limit: usize,
    offset: usize,
    file: Option<Seq<char>>,
    module: Option<Seq<char>>,
    in_project: bool,
    repeated: bool,
)
    ensures
        ({
            let v = live_begun(pattern, limit, offset, file, module, in_project, repeated);
            &&& v.step == LiveStep::Done <==> text::trimmed(pattern).len() == 0
            &&& v.results.len() == 0
            &&& 1 <= v.limit <= 500
            &&& 1 <= limit <= 500 ==> v.limit == limit
            &&& v.limit <= v.target <= 500
        }),
{
}

/// Once the project has answered all that it is asked for, its page is shown before anything else is
/// asked. The engine is then asked exactly if the page is not full and nothing speaks against it.
pub proof fn the_projects_page_is_shown_at_once(v: LiveView, rows: Seq<ItemView>)
    requires
        v.step == LiveStep::ReliableText || v.step == LiveStep::ProjectLines,
    ensures
        ({
            let w = live_answered(v, Some(rows));
            &&& w.announce
            &&& w.sent == page(w.results, v.offset as nat, v.limit as nat)
            &&& w.step == LiveStep::Engine <==> !v.skip_engine && w.results.len() < v.target
            &&& w.text_count == rows.len() as usize
        }),
{
}

/// What the engine answers is not shown ahead of the end, and a source that cannot be opened changes
/// nothing of what was found.
pub proof fn missing_sources_change_nothing(v: LiveView, rows: Seq<ItemView>)
    requires
        v.step == LiveStep::Engine || v.step == LiveStep::EngineLines || v.step
            == LiveStep::TextOnlyEngine,
    ensures
        live_answered(v, None).results == v.results,
        !live_answered(v, None).announce,
        !live_answered(v, Some(rows)).announce,
        live_answered(v, Some(rows)).sent == v.sent,
{
}

/// Lines of the engine are only looked at where the query was repeated and the page is not full.
pub proof fn engine_lines_need_a_repeated_query(v: LiveView, answer: Option<Seq<ItemView>>)
    ensures
        live_answered(v, answer).step == LiveStep::EngineLines && v.step != LiveStep::Done
            ==> v.repeated_query && live_answered(v, answer).results.len() < v.target,
        live_answered(v, answer).step == LiveStep::TextOnlyEngine && v.step == LiveStep::TextOnly
            ==> v.repeated_query && live_answered(v, answer).results.len() < v.target,
{
}

/// What is found joins what was found before. The project's rows are ranked; text that is searched
/// reliably takes their place where it finds something; lines of the project stand behind them; and
/// what the engine finds is merged with them.
pub proof fn answers_join_what_was_found(v: LiveView, rows: Seq<ItemView>)
    ensures
        ({
            let r = live_answered(v, Some(rows)).results;
            let own = all_tagged(rows, "project"@);
            let other = all_tagged(rows, "engine"@);
            let most = v.target as nat;
            &&& v.step == LiveStep::ProjectLines ==> r == live_ranked(
                v.results + rows,
                v.pattern,
                v.current_file,
                v.current_module,
            )
            &&& v.step == LiveStep::ReliableText && rows.len() > 0 ==> r == live_ranked(
                own,
                v.pattern,
                v.current_file,
                v.current_module,
            )
            &&& v.step == LiveStep::ReliableText && rows.len() == 0 ==> r == live_ranked(
                v.results,
                v.pattern,
                v.current_file,
                v.current_module,
            )
            &&& v.step == LiveStep::TextOnly ==> r == live_ranked(
                own,
                v.pattern,
                v.current_file,
                v.current_module,
            )
            &&& v.step == LiveStep::Engine || v.step == LiveStep::TextOnlyEngine ==> r == live_ranked(
                merged(Likeness::Result, v.results, other, 0, most),
                v.pattern,
                v.current_file,
                v.current_module,
            )
        }),
{
}

/// The page that a live search answers with shows the results in place; where a page was sent before,
/// only what is new of it.
pub proof fn live_pages_show_results_in_place(v: LiveView, i: int)
    ensures
        0 <= i < v.limit && v.offset + i < v.results.len() ==> i < live_shown(v, false).len()
            && live_shown(v, false)[i] == v.results[v.offset + i],
        v.sent.len() == 0 ==> live_shown(v, true).len() == live_shown(v, false).len(),
{
    let last = page(v.results, v.offset as nat, v.limit as nat);
    if v.sent.len() == 0 {
        lemma_all_unsent(last, v.sent, 0);
    }
}

proof fn lemma_all_unsent(list: Seq<ItemView>, sent: Seq<ItemView>, k: int)
    requires
        sent.len() == 0,
        0 <= k <= list.len(),
    ensures
        unsent_from(list, sent, k).len() == list.len() - k,
    decreases list.len() - k,
{
    if k < list.len() {
        lemma_all_unsent(list, sent, k + 1);
    }
}

/// The engine is asked for what is missing on the page, and for no more than the page holds; lines
/// are asked for up to their limit, less what was found of them.
pub proof fn stages_ask_for_what_is_missing(v: LiveView)
    requires
        1 <= v.limit <= v.target,
        v.results.len() < v.target,
    ensures
        v.step == LiveStep::Project ==> asked_for(v) == v.target,
        v.step == LiveStep::Engine ==> v.target - v.results.len() <= asked_for(v) <= v.target,
        v.step == LiveStep::ProjectLines ==> asked_for(v) == text_limit(
            v.pattern,
            v.limit,
            v.repeated_query,
        ),
        v.step == LiveStep::EngineLines && v.text_count <= text_limit(
            v.pattern,
            v.limit,
            v.repeated_query,
        ) ==> asked_for(v) + v.text_count == text_limit(v.pattern, v.limit, v.repeated_query),
{
}

} // verus!
