use std::collections::hash_map::DefaultHasher;
use std::hash::{Hash, Hasher};

use uscanner::query::item::{Field, Item};
use uscanner::server::cache::{
    diagnostics_cache_key, diagnostics_step, hash_open_files, hash_text, navigation_cache_key,
    DiagnosticsStep, OpenBufferOverlay,
};
use uscanner::server::engine::{
    fast_find_with_scope, find_references_with_engine, global_find_with_engine,
    goto_definition_with_engine, goto_implementation_with_engine, hover_with_engine,
    merge_engine_references, search_class_symbols_with_engine, search_code_text_with_scope,
    search_symbols_with_engine, should_try_direct_engine_navigation_lookup,
    signature_help_with_engine, CursorContext, EngineStep, NavigationStep, Place, References,
    SignatureHelp,
};
use uscanner::server::project::{
    begin_refresh, build_id, end_refresh, ensure_database_ready, find_asset_file,
    get_asset_dependencies, is_refreshing, modify_result, register_client, relative_asset_path,
    scan_db_path, skips_asset_directory, ActiveSet, Projects, RefreshRequest, SetupReadiness,
    SetupRequest,
};
use uscanner::server::registry::Registry;
use uscanner::server::report::{
    flush_query_perf, log_enabled, record_query_perf, sample_fast_find_results,
    sample_single_item, sample_value_summary, Answer, QueryPerfStat,
};
use uscanner::server::request::{
    frame_message, handle_state_query, is_streaming_query, query_request_detail,
    query_request_label, short_path, QueryRequest, QueryRoute,
};
use uscanner::textmap::TextMap;

fn item(kind: &str, name: &str, path: &str, line: i64) -> Item {
    Item::new()
        .and("type", Field::text(kind))
        .and("name", Field::text(name))
        .and("path", Field::text(path))
        .and("line", Field::Int(line))
}

fn names(list: &[Item]) -> Vec<String> {
    list.iter().map(|i| i.text("name").to_string()).collect()
}

fn s(text: &str) -> String {
    text.to_string()
}

// Requests --------------------------------------------------------------------

#[test]
fn streams_go_to_the_store() {
    let streams = [
        QueryRequest::GetFilesInModulesAsync { held: 1 },
        QueryRequest::SearchFilesInModulesAsync { held: 1 },
        QueryRequest::SearchFilesByPathPartAsync { held: 1 },
        QueryRequest::GetClassesInModulesAsync { held: 1 },
        QueryRequest::FindSymbolUsagesAsync { held: 1 },
        QueryRequest::GrepAssets { held: 1 },
    ];
    for request in &streams {
        assert!(is_streaming_query(request));
        assert_eq!(handle_state_query(request), QueryRoute::Store { streaming: true });
        assert_eq!(query_request_label(request), "Other");
        assert_eq!(query_request_detail(request), None);
    }
    let held = QueryRequest::GetFileSymbols { held: 1 };
    assert!(!is_streaming_query(&held));
    assert_eq!(handle_state_query(&held), QueryRoute::Store { streaming: false });
    assert_eq!(query_request_label(&held), "GetFileSymbols");
}

#[test]
fn requests_find_their_way() {
    let find = |offset: usize| QueryRequest::UnifiedLiveFind {
        pattern: s("x"),
        limit: 5,
        offset,
        current_file: Some(s("C:/P/A.h")),
        repeated_query: true,
    };
    assert_eq!(handle_state_query(&find(0)), QueryRoute::LiveFind { ahead: true });
    assert_eq!(handle_state_query(&find(5)), QueryRoute::LiveFind { ahead: false });
    assert_eq!(query_request_label(&find(0)), "UnifiedLiveFind");
    assert_eq!(
        query_request_detail(&find(5)),
        Some(s("pattern=x limit=5 offset=5 repeated=true file=A.h"))
    );
    let fast = QueryRequest::FastFind { pattern: s("x"), limit: 1, offset: 0, scope: None };
    assert_eq!(handle_state_query(&fast), QueryRoute::FastFind);
    assert_eq!(query_request_detail(&fast), Some(s("scope=project")));
    let diagnostics = QueryRequest::GetDiagnostics {
        content: s(""),
        file_path: None,
        open_files: vec![OpenBufferOverlay { file_path: s("a"), content: s("b") }],
    };
    assert_eq!(handle_state_query(&diagnostics), QueryRoute::Diagnostics);
    assert_eq!(query_request_detail(&diagnostics), Some(s("file=-, overlays=1")));
    assert_eq!(query_request_label(&diagnostics), "GetDiagnostics");
    let build = QueryRequest::ParseBuildDiagnostics { output: s("") };
    assert_eq!(handle_state_query(&build), QueryRoute::BuildDiagnostics);
    assert_eq!(query_request_label(&build), "Other");
    let hints = QueryRequest::GetAssetUsageHints { names: vec![s("a"), s("b")] };
    assert_eq!(handle_state_query(&hints), QueryRoute::AssetUsageHints);
    assert_eq!(query_request_detail(&hints), Some(s("names=2")));
    let status = QueryRequest::GetAssetIndexStatus;
    assert_eq!(handle_state_query(&status), QueryRoute::AssetIndexStatus);
    assert_eq!(query_request_detail(&status), Some(s("project")));
    let members = QueryRequest::GetClassMembers { class_name: s("AHero") };
    assert_eq!(handle_state_query(&members), QueryRoute::Store { streaming: false });
    assert_eq!(query_request_detail(&members), Some(s("class=AHero")));
    let text = QueryRequest::SearchCodeText { pattern: s("x"), limit: 2, offset: 3, scope: Some(s("engine")) };
    assert_eq!(
        query_request_detail(&text),
        Some(s("pattern=x limit=2 offset=3 scope=engine"))
    );
}

#[test]
fn short_paths_are_names() {
    assert_eq!(short_path(Some("C:/P/A.h")), "A.h");
    assert_eq!(short_path(Some("C:\\P\\A.h")), "C:\\P\\A.h");
    assert_eq!(short_path(Some("C:/P/")), "");
    assert_eq!(short_path(None), "-");
}

#[test]
fn a_frame_holds_its_length_and_its_message() {
    assert_eq!(frame_message(b""), vec![0, 0, 0, 0]);
    assert_eq!(frame_message(b"abc"), vec![0, 0, 0, 3, b'a', b'b', b'c']);
    let long = vec![7u8; 70_000];
    let frame = frame_message(&long);
    assert_eq!(frame[..4], 70_000u32.to_be_bytes());
    assert_eq!(frame[4..], long[..]);
}

// Keys of caches -----------------------------------------------------------------

#[test]
fn keys_of_caches_name_what_was_asked() {
    let files = |a: &str, b: &str| {
        vec![
            OpenBufferOverlay { file_path: s(a), content: s("x") },
            OpenBufferOverlay { file_path: s(b), content: s("y") },
        ]
    };
    let mut hasher = DefaultHasher::new();
    "abc".hash(&mut hasher);
    assert_eq!(hash_text("abc"), hasher.finish());
    let one = vec![OpenBufferOverlay { file_path: "A.h".to_string(), content: "abc".to_string() }];
    let mut hasher = DefaultHasher::new();
    1u64.hash(&mut hasher);
    ("A.h", "abc").hash(&mut hasher);
    assert_eq!(hash_open_files(&one), hasher.finish());
    assert_ne!(hash_text("abc"), hash_text("abd"));
    assert_ne!(hash_open_files(&files("a", "b")), hash_open_files(&files("b", "a")));
    let swapped = vec![
        OpenBufferOverlay { file_path: s("b"), content: s("y") },
        OpenBufferOverlay { file_path: s("a"), content: s("x") },
    ];
    assert_eq!(hash_open_files(&files("a", "b")), hash_open_files(&swapped));
    assert_eq!(
        diagnostics_cache_key(None, "abc", &swapped),
        format!("-:{}:{}", hash_text("abc"), hash_open_files(&swapped))
    );
    assert_eq!(
        navigation_cache_key("hover", Some("A.h"), "abc", 3, 9, None),
        format!("hover:A.h:{}:3:9:-", hash_text("abc"))
    );
}

#[test]
fn diagnostics_are_remembered_or_computed() {
    assert_eq!(diagnostics_step(true, true), DiagnosticsStep::Remembered);
    assert_eq!(diagnostics_step(false, true), DiagnosticsStep::Nothing);
    assert_eq!(diagnostics_step(false, false), DiagnosticsStep::Compute);
}

// Project and engine ---------------------------------------------------------------

#[test]
fn symbols_of_the_engine_fill_the_page() {
    let search = search_symbols_with_engine("x", 2, 0);
    assert_eq!(search.asks(), (2, 0));
    let search = search.take(Some(vec![item("class", "A", "p", 1)]));
    assert_eq!(search.step, EngineStep::Engine);
    assert_eq!(search.asks(), (1, 0));
    let search = search.take(Some(vec![item("class", "A", "p", 1), item("class", "B", "e", 1)]));
    assert_eq!(names(&search.results), vec!["A", "B"]);
    assert_eq!(search.results[0].text("source"), "project");
    assert_eq!(search.results[1].text("source"), "engine");
    let full = search_symbols_with_engine("x", 1, 0).take(Some(vec![item("class", "A", "p", 1)]));
    assert_eq!(full.step, EngineStep::Done);
}

#[test]
fn an_engine_that_cannot_be_asked_leaves_the_project_alone() {
    let search = search_symbols_with_engine("x", 2, 0)
        .take(Some(vec![item("class", "A", "p", 1)]))
        .take(None);
    assert_eq!(search.step, EngineStep::Done);
    assert_eq!(names(&search.results), vec!["A"]);
}

#[test]
fn global_finds_are_appended() {
    let search = global_find_with_engine("x", 2, 0)
        .take(Some(vec![item("class", "A", "p", 1)]))
        .take(Some(vec![item("class", "A", "p", 1), item("class", "B", "e", 1)]));
    assert_eq!(names(&search.results), vec!["A", "A"]);
}

#[test]
fn fast_finds_keep_to_their_scope() {
    let engine = fast_find_with_scope("x", 2, 1, Some("engine"));
    assert_eq!(engine.step, EngineStep::Engine);
    assert_eq!(engine.asks(), (2, 1));
    let engine = engine.take(Some(vec![item("class", "B", "e", 1)]));
    assert_eq!(engine.results[0].text("source"), "engine");
    let project = fast_find_with_scope("x", 2, 0, Some("project")).take(Some(vec![item("class", "A", "p", 1)]));
    assert_eq!(project.step, EngineStep::Done);
    let both = fast_find_with_scope("x", 2, 0, None).take(Some(vec![item("class", "A", "p", 1)]));
    assert_eq!(both.step, EngineStep::Engine);
}

#[test]
fn classes_of_both_are_ranked_together() {
    let search = search_class_symbols_with_engine("hero", 2, 0);
    let search = search.take(Some(vec![item("class", "AHero", "p", 1)]));
    assert_eq!(search.step, EngineStep::Engine);
    assert_eq!(search.asks(), (2, 0));
    let search = search.take(Some(vec![item("class", "Hero", "e", 1), item("class", "HeroB", "e", 1)]));
    assert_eq!(names(&search.results), vec!["Hero", "HeroB"]);
}

#[test]
fn code_text_comes_from_one_side() {
    let project = search_code_text_with_scope("x", 5, 0, None).take(Some(vec![item("text", "x", "p", 1)]));
    assert_eq!(project.step, EngineStep::Done);
    assert_eq!(project.results[0].text("source"), "project");
    let engine = search_code_text_with_scope("x", 5, 0, Some("engine")).take(None);
    assert_eq!(engine.step, EngineStep::Done);
    assert!(engine.results.is_empty());
}

fn cursor(symbol: &str, qualifier: Option<&str>, op: Option<&str>) -> Option<CursorContext> {
    Some(CursorContext {
        symbol: s(symbol),
        qualifier: qualifier.map(s),
        qualifier_op: op.map(s),
    })
}

#[test]
fn names_may_be_looked_up_directly() {
    let direct = should_try_direct_engine_navigation_lookup;
    assert!(!direct(&None, false));
    assert!(direct(&cursor("f", Some("X"), Some("::")), true));
    assert!(!direct(&cursor("F", Some("x"), Some(".")), false));
    assert!(!direct(&cursor("F", Some("x"), Some("->")), false));
    assert!(!direct(&cursor("  ", None, None), false));
    assert!(direct(&cursor("Fire", None, None), true));
    assert!(direct(&cursor("fire", None, None), false));
    assert!(!direct(&cursor("fire", None, None), true));
    assert!(!direct(&cursor("fire", Some("x"), None), false));
}

#[test]
fn a_definition_in_the_project_is_kept() {
    let nav = goto_definition_with_engine(&cursor("Fire", None, None));
    assert_eq!(nav.step, NavigationStep::Cache);
    let nav = nav.take(None);
    assert_eq!(nav.step, NavigationStep::Project);
    let nav = nav.take(Some(Place::Object(item("function", "Fire", "p", 1))));
    assert_eq!(nav.step, NavigationStep::Done);
    assert!(nav.keep);
    assert!(matches!(&nav.result, Place::Object(i) if i.text("source") == "project"));
}

#[test]
fn a_definition_in_the_engine_is_looked_up_twice() {
    let nav = goto_definition_with_engine(&cursor("Fire", None, None)).take(None).take(Some(Place::Null));
    assert_eq!(nav.step, NavigationStep::Engine);
    let nav = nav.take(Some(Place::Null));
    assert_eq!(nav.step, NavigationStep::Direct);
    let nav = nav.take(Some(Place::Object(item("function", "Fire", "e", 1))));
    assert!(matches!(&nav.result, Place::Object(i) if i.text("source") == "engine"));
    assert!(nav.keep);
    let missing = goto_implementation_with_engine(&cursor("fire", None, None))
        .take(None)
        .take(Some(Place::Null))
        .take(Some(Place::Null));
    assert_eq!(missing.step, NavigationStep::Done);
    assert!(missing.result.is_null());
    let closed = goto_definition_with_engine(&None).take(None).take(Some(Place::Null)).take(None);
    assert_eq!(closed.step, NavigationStep::Done);
    assert!(!closed.keep);
}

#[test]
fn a_remembered_answer_is_given_as_it_is() {
    let nav = hover_with_engine().take(Some(Place::Held(4)));
    assert_eq!(nav.step, NavigationStep::Done);
    assert!(matches!(nav.result, Place::Held(4)));
    assert!(!nav.keep);
}

#[test]
fn signatures_of_both_are_joined() {
    let help = |list: Vec<Item>| SignatureHelp { fields: Item::new(), signatures: Some(list) };
    let both = signature_help_with_engine(
        Some(help(vec![item("", "f", "", 0)])),
        Some(help(vec![item("", "f", "", 0), item("", "g", "", 0)])),
    )
    .unwrap();
    let list = both.signatures.unwrap();
    assert_eq!(names(&list), vec!["f", "g"]);
    assert_eq!(list[1].text("source"), "engine");
    let engine = signature_help_with_engine(None, Some(help(Vec::new()))).unwrap();
    assert_eq!(engine.fields.text("source"), "engine");
    assert!(signature_help_with_engine(None, None).is_none());
}

fn references(count: i64, scope: &str, files: u64) -> References {
    References {
        results: (0..count).map(|n| item("use", "x", "p.h", n)).collect(),
        searched_files: files,
        found_definition: false,
        scope: s(scope),
    }
}

#[test]
fn references_are_merged_with_those_of_the_engine() {
    let (found, more) = find_references_with_engine("plain", references(2, "global", 3), true);
    assert!(more);
    let merged = merge_engine_references(found, references(3, "global", 4));
    assert_eq!(merged.results.len(), 3);
    assert_eq!(merged.searched_files, 7);
    assert_eq!(merged.results[0].text("source"), "project");
    assert_eq!(merged.results[2].text("source"), "engine");
    let (_, more) = find_references_with_engine("plain", references(2, "local", 3), true);
    assert!(!more);
}

// Projects ----------------------------------------------------------------------

#[test]
fn a_registry_gives_back_what_was_put_in() {
    let mut r: Registry<u32> = Registry::new();
    r.insert("a", 1);
    r.insert("b", 2);
    r.insert("a", 3);
    assert_eq!(r.get("a"), Some(&3));
    assert_eq!(r.remove("b"), Some(2));
    assert_eq!(r.remove("b"), None);
    assert_eq!(r.keys(), vec!["a"]);
}

#[test]
fn projects_are_set_up_and_deleted() {
    let mut projects = Projects::new();
    projects.handle_setup(&SetupRequest {
        project_root: s("C:\\Game\\"),
        db_path: s("C:\\db\\x.db"),
        cache_db_path: None,
        vcs_hash: Some(s("h")),
    });
    assert_eq!(projects.list_projects(), vec!["c:/game"]);
    let context = projects.get_project_context("c:/game").ok().unwrap();
    assert_eq!(context.db_path, "C:/db/x.db");
    assert_eq!(context.vcs_hash.as_deref(), Some("h"));
    assert_eq!(
        projects.get_project_context("d").err(),
        Some(s("Project not found: d"))
    );
    assert_eq!(projects.handle_delete_project("C:/GAME"), Ok(()));
    assert_eq!(
        projects.handle_delete_project("C:/GAME"),
        Err(s("Project not found: c:/game"))
    );
    assert!(projects.list_projects().is_empty());
}

#[test]
fn a_refresh_updates_what_is_known() {
    let mut projects = Projects::new();
    let request = |db: Option<&str>, cache: Option<&str>| RefreshRequest {
        project_root: s("C:/Game"),
        db_path: db.map(s),
        cache_db_path: cache.map(s),
        vcs_hash: Some(s("new")),
    };
    assert_eq!(
        projects.upsert_refresh_project_context(&request(None, None)),
        Err(s("Project not found: c:/game"))
    );
    assert_eq!(
        projects.upsert_refresh_project_context(&request(Some("C:\\x.db"), Some("C:\\c.db"))),
        Ok(s("C:/x.db"))
    );
    assert_eq!(projects.upsert_refresh_project_context(&request(None, None)), Ok(s("C:/x.db")));
    let context = projects.get_project_context("c:/game").ok().unwrap();
    assert_eq!(context.cache_db_path.as_deref(), Some("C:/c.db"));
    assert_eq!(context.vcs_hash.as_deref(), Some("new"));
}

#[test]
fn one_refresh_goes_on_at_a_time() {
    let mut active = ActiveSet::new();
    assert_eq!(begin_refresh(&mut active, "a"), Ok(()));
    assert_eq!(begin_refresh(&mut active, "b"), Ok(()));
    assert_eq!(begin_refresh(&mut active, "a"), Err(s("Refresh already in progress")));
    assert!(is_refreshing(&active, "a"));
    end_refresh(&mut active, "a");
    assert!(!is_refreshing(&active, "a"));
    assert!(is_refreshing(&active, "b"));
    assert_eq!(begin_refresh(&mut active, "a"), Ok(()));
}

#[test]
fn clients_are_registered_once() {
    let mut clients = vec![3];
    register_client(&mut clients, 4);
    register_client(&mut clients, 3);
    assert_eq!(clients, vec![3, 4]);
    assert_eq!(build_id("0.1.0"), "0.1.0-p2");
}

#[test]
fn a_store_that_is_empty_or_new_is_filled() {
    let ready = |full: bool, assets: bool| SetupReadiness { needs_full_refresh: full, needs_asset_index: assets };
    assert_eq!(ensure_database_ready(true, 5, 5, false, true), ready(true, false));
    assert_eq!(ensure_database_ready(false, 0, 5, false, true), ready(true, false));
    assert_eq!(ensure_database_ready(false, 5, 0, false, true), ready(true, false));
    assert_eq!(ensure_database_ready(false, 5, 5, true, false), ready(false, false));
    assert_eq!(ensure_database_ready(false, 5, 5, false, false), ready(false, true));
    assert_eq!(ensure_database_ready(false, 5, 5, false, true), ready(false, false));
}

#[test]
fn results_of_edits_say_what_went_wrong() {
    assert!(modify_result(Ok(())).success);
    let failed = modify_result(Err(s("no file")));
    assert!(!failed.success);
    assert_eq!(failed.message.as_deref(), Some("no file"));
    assert_eq!(scan_db_path(&vec![Some(s("x.db")), None]), Ok(s("x.db")));
    assert_eq!(scan_db_path(&vec![None, Some(s("x.db"))]), Err(s("No DB path")));
    assert_eq!(scan_db_path(&Vec::new()), Err(s("No DB path")));
}

#[test]
fn assets_have_files() {
    assert_eq!(relative_asset_path("/Game/A/B"), "Content/A/B");
    assert_eq!(relative_asset_path("/Other/A"), "/Other/A");
    let files = vec![
        (s("B.uasset"), s("C:\\P\\Content\\X\\B.uasset")),
        (s("B.umap"), s("C:\\P\\Content\\A\\B.umap")),
    ];
    assert_eq!(find_asset_file(&files, "/Game/A/B"), Some(1));
    assert_eq!(find_asset_file(&files, "/Game/C/B"), None);
    assert!(skips_asset_directory("Saved"));
    assert!(!skips_asset_directory("Content"));
    let found = get_asset_dependencies("/Game/A/B", Some((vec![s("b"), s("a"), s("b")], Some(s("P")))));
    assert_eq!(found.dependencies, vec!["a", "b"]);
    assert_eq!(found.parent_class.as_deref(), Some("P"));
    let script = get_asset_dependencies("/Script/X", Some((vec![s("b")], None)));
    assert!(script.dependencies.is_empty());
}

// Reports -----------------------------------------------------------------------

#[test]
fn logs_are_switched_on_by_a_word() {
    for word in ["1", "true", "TRUE", "on", " ON "] {
        assert!(log_enabled(Some(word)), "{word}");
    }
    for word in ["0", "True", "yes", ""] {
        assert!(!log_enabled(Some(word)), "{word}");
    }
    assert!(!log_enabled(None));
}

#[test]
fn samples_name_the_first_results() {
    let a = item("class", "A", "p.h", 3).and("class_name", Field::text("O"));
    assert_eq!(sample_single_item(&a), "name=A kind=class path=p.h line=3");
    assert_eq!(sample_fast_find_results(&[a.copy(), a.copy()]), "A<class> owner=O path=p.h | A<class> owner=O path=p.h");
    assert_eq!(sample_value_summary(&Answer::Null), "null");
    assert_eq!(sample_value_summary(&Answer::List(Vec::new())), "array count=0 sample=-");
    assert_eq!(
        sample_value_summary(&Answer::Items(vec![a.copy()])),
        "items count=1 sample=name=A kind=class path=p.h line=3"
    );
    assert_eq!(sample_value_summary(&Answer::Results(Vec::new())), "results count=0 sample=-");
    assert_eq!(sample_value_summary(&Answer::Signatures(Vec::new())), "signatures count=0 sample=-");
    assert_eq!(
        sample_value_summary(&Answer::Object(a)),
        "object name=A kind=class path=p.h line=3"
    );
    assert_eq!(sample_value_summary(&Answer::Other(s("7"))), "7");
    let many: Vec<Item> = (0..9).map(|n| item("k", "x", "p", n)).collect();
    assert_eq!(sample_fast_find_results(&many).split(" | ").count(), 6);
}

#[test]
fn statistics_are_summed_up() {
    let mut stats: TextMap<QueryPerfStat> = TextMap::new();
    record_query_perf(&mut stats, "GetHover", 10, false);
    record_query_perf(&mut stats, "FastFind", 5, true);
    record_query_perf(&mut stats, "GetHover", 21, false);
    assert_eq!(
        flush_query_perf(&stats),
        "FastFind count=1 avg=5ms max=5ms errors=1 | GetHover count=2 avg=15ms max=21ms errors=0"
    );
}
