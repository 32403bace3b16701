use uscanner::query::item::Item;
use uscanner::server::asset::fallback::{
    detect_parent_class_from_strings, extract_ascii_strings, fallback_parse_asset_record,
    looks_like_blueprint_function_token, looks_like_parent_class_candidate,
    looks_like_unreal_type_token, parent_class_score, should_index_import_path,
};
use uscanner::server::asset::graph::{
    asset_runtime_from_graph, asset_usage_hints_from_graph, asset_usages_from_graph,
    build_asset_graph, graph_from_asset_runtime, merge_derived_assets, remove_asset_from_graph,
    update_single_asset,
};
use uscanner::server::asset::index::{
    apply_asset_index_delta, asset_index_initialized, asset_index_usable, build_asset_index_issues, counted_names,
    get_asset_index_status, get_asset_usage_hints, get_asset_usages, insert_asset_record_db,
    refresh_asset_index, usage_lookups, usage_rows, with_asset_bulk_write, AssetIndexFacts,
    RefreshPlan, UsageKind,
};
use uscanner::server::asset::record::{
    asset_class_leaf, filter_indexed_asset_record, is_explicit_logical_asset_class,
    is_ignored_dir, is_index_candidate_asset_file, is_resource_only_asset_class,
    make_asset_lookup_names, should_fully_index_asset, skips_deep_parse, to_asset_path, AssetRecord,
};
use uscanner::server::asset::progress::{
    begin_report, read_report, ready_report, step_report, step_reports, Progress, RefreshStage,
    WriteReports, WriteState,
};
use uscanner::server::asset::scan::{
    collect_candidate_assets, discover_content_dirs, parse_asset_files, parse_asset_record,
    reports_progress, scan_progress, Candidate, DirEntry, FullParse, ParseOutcome,
};
use uscanner::server::asset::state::AssetGraphs;

fn texts(list: &[&str]) -> Vec<String> {
    list.iter().map(|s| s.to_string()).collect()
}

fn record(asset: &str, parent: Option<&str>, imports: &[&str], functions: &[&str]) -> AssetRecord {
    AssetRecord {
        asset_path: asset.to_string(),
        source_path: format!("C:/P/Content{}.uasset", asset.trim_start_matches("/Game")),
        mtime: 7,
        asset_class: None,
        parent_class: parent.map(|s| s.to_string()),
        imports: texts(imports),
        functions: texts(functions),
    }
}

#[test]
fn lookup_names_include_prefixed_and_unprefixed_class_names() {
    let names = make_asset_lookup_names("USInventoryManagerComponent");
    assert_eq!(names, vec!["sinventorymanagercomponent", "usinventorymanagercomponent"]);
}

#[test]
fn lookup_names_handle_script_paths() {
    let names = make_asset_lookup_names("/Script/SimpleBeta.SHero");
    assert_eq!(names, vec!["hero", "shero"]);
}

#[test]
fn fallback_parent_class_prefers_project_script_class() {
    let strings = vec![
        "/Script/Engine.BlueprintGeneratedClass".to_string(),
        "/Script/CoreUObject.Class".to_string(),
        "/Script/SimpleBeta.SHero".to_string(),
    ];
    assert_eq!(
        detect_parent_class_from_strings(&strings),
        Some("/Script/SimpleBeta.SHero".to_string())
    );
}

#[test]
fn fallback_ascii_string_extraction_keeps_printable_sequences() {
    let strings = extract_ascii_strings(b"\0/Game/Test/BP_Hero\0SHero\0", 4);
    assert_eq!(strings, vec!["/Game/Test/BP_Hero", "SHero"]);
}

#[test]
fn fallback_function_token_filters_noise() {
    assert!(looks_like_blueprint_function_token("RefreshCurrency"));
    assert!(!looks_like_blueprint_function_token("ExecuteUbergraph_BP_Hero"));
    assert!(!looks_like_blueprint_function_token("BP_Hero_C"));
}

#[test]
fn fallback_type_token_accepts_unreal_style_class_names() {
    assert!(looks_like_unreal_type_token("SInventoryManagerComponent"));
    assert!(looks_like_unreal_type_token("UWeaponForgeMain"));
    assert!(!looks_like_unreal_type_token("RefreshCurrency"));
}

#[test]
fn logical_asset_class_list_covers_blueprints_and_data_assets() {
    assert!(is_explicit_logical_asset_class("Blueprint"));
    assert!(is_explicit_logical_asset_class("WidgetBlueprint"));
    assert!(is_explicit_logical_asset_class("PrimaryDataAsset"));
    assert!(is_explicit_logical_asset_class("BehaviorTree"));
}

#[test]
fn resource_only_asset_class_list_covers_common_heavy_content() {
    assert!(is_resource_only_asset_class("Texture2D"));
    assert!(is_resource_only_asset_class("StaticMesh"));
    assert!(is_resource_only_asset_class("AnimMontage"));
    assert!(is_resource_only_asset_class("NiagaraSystem"));
}

#[test]
fn asset_class_leaf_handles_script_and_function_paths() {
    assert_eq!(asset_class_leaf("/Script/Engine.Texture2D"), "Texture2D");
    assert_eq!(asset_class_leaf("/Game/Hero/BP_Hero.BP_Hero_C"), "BP_Hero_C");
    assert_eq!(asset_class_leaf("/Script/Game.SHero:RefreshCurrency"), "RefreshCurrency");
}

#[test]
fn an_asset_is_named_by_its_place_under_content() {
    assert_eq!(to_asset_path("C:\\P\\Content\\UI\\WBP_Main.uasset"), "/Game/UI/WBP_Main");
    assert_eq!(to_asset_path("C:/Elsewhere/File.uasset"), "C:/Elsewhere/File.uasset");
}

#[test]
fn only_asset_files_of_logical_classes_are_indexed() {
    assert!(is_index_candidate_asset_file(Some("UASSET")));
    assert!(!is_index_candidate_asset_file(Some("umap")));
    assert!(!is_index_candidate_asset_file(None));
    let derived = record("/Game/A", Some("/Script/G.SHero"), &[], &[]);
    assert!(should_fully_index_asset(Some("uasset"), &derived));
    assert!(!should_fully_index_asset(Some("umap"), &derived));
    let mut texture = record("/Game/T", None, &["/Script/Engine.Blueprint"], &[]);
    assert!(should_fully_index_asset(Some("uasset"), &texture));
    texture.asset_class = Some("/Script/Engine.Texture2D".to_string());
    assert!(filter_indexed_asset_record(Some("uasset"), texture).is_none());
    assert!(skips_deep_parse(Some("/Script/Engine.StaticMesh")));
    assert!(!skips_deep_parse(None));
    assert!(is_ignored_dir("Saved"));
    assert!(!is_ignored_dir("Content"));
}

#[test]
fn paths_and_words_are_found_in_the_bytes_of_a_file() {
    let bytes = b"\0\0/Script/SimpleBeta.SHero\0/Game/UI/WBP_Main\0RefreshCurrency\0\x01";
    let found = fallback_parse_asset_record(bytes, "C:/P/Content/BP_Hero.uasset", Some("uasset"), 9)
        .unwrap()
        .unwrap();
    assert_eq!(found.asset_path, "/Game/BP_Hero");
    assert_eq!(found.mtime, 9);
    assert_eq!(found.parent_class.as_deref(), Some("/Script/SimpleBeta.SHero"));
    assert!(found.imports.contains(&"/Script/SimpleBeta.SHero".to_string()));
    assert!(found.imports.contains(&"/Game/UI/WBP_Main".to_string()));
    assert!(found.functions.contains(&"RefreshCurrency".to_string()));
    assert!(fallback_parse_asset_record(b"\0\0\0", "x.uasset", Some("uasset"), 0).is_err());
}

#[test]
fn classes_of_the_project_make_better_parents() {
    assert!(looks_like_parent_class_candidate("/Script/Game.SHero"));
    assert!(parent_class_score("/Script/Game.SHero") > parent_class_score("/Script/Engine.Actor"));
    assert!(!should_index_import_path("/Game/A", "/Game/A"));
    assert!(should_index_import_path("/Game/B", "/Game/A"));
}

#[test]
fn a_file_that_cannot_be_parsed_is_searched_for_texts() {
    let path = "C:/P/Content/BP_Hero.uasset";
    let parsed = FullParse::Parsed(record("/Game/A", Some("X"), &[], &[]));
    assert!(parse_asset_record(parsed, None, path, Some("uasset"), 0).unwrap().is_some());
    let bytes: &[u8] = b"\0/Script/SimpleBeta.SHero\0";
    let failed = FullParse::Failed("bad header".to_string());
    assert!(parse_asset_record(failed, Some(bytes), path, Some("uasset"), 0).unwrap().is_some());
    let failed = FullParse::Failed("bad header".to_string());
    let reason = parse_asset_record(failed, Some(b"\0"), path, Some("uasset"), 0);
    assert_eq!(reason.unwrap_err(), "bad header");
    let reason = parse_asset_record(FullParse::Panicked, None, path, Some("uasset"), 0);
    assert_eq!(reason.unwrap_err(), "panic while parsing asset");
}

fn failure(path: &str, reason: &str) -> ParseOutcome {
    ParseOutcome::Failed { path: path.to_string(), reason: reason.to_string() }
}

#[test]
fn a_report_counts_what_came_of_the_files() {
    let report = parse_asset_files(vec![
        failure("a", "short"),
        ParseOutcome::Indexed(record("/Game/A", None, &[], &[])),
        failure("b", "broken"),
        ParseOutcome::Skipped,
        failure("c", "short"),
        failure("d", "angry"),
        ParseOutcome::Indexed(record("/Game/B", None, &[], &[])),
    ]);
    assert_eq!((report.total_seen, report.skipped, report.errors), (7, 1, 4));
    let parsed: Vec<&str> = report.parsed.iter().map(|r| r.asset_path.as_str()).collect();
    assert_eq!(parsed, vec!["/Game/A", "/Game/B"]);
    let summary: Vec<(usize, &str, &str)> = report
        .error_summary
        .iter()
        .map(|e| (e.count, e.reason.as_str(), e.sample_path.as_str()))
        .collect();
    assert_eq!(summary, vec![(2, "short", "a"), (1, "angry", "d"), (1, "broken", "b")]);
}

#[test]
fn progress_is_reported_now_and_then() {
    assert!(reports_progress(1, 500));
    assert!(!reports_progress(2, 500));
    assert!(reports_progress(100, 500));
    assert!(reports_progress(500, 500));
    assert_eq!(scan_progress(2, 10_000, 0), (false, 0));
    assert_eq!(scan_progress(11, 10_000, 0), (true, 1));
    assert_eq!(scan_progress(12, 10_000, 1), (false, 1));
    assert_eq!(scan_progress(1, 0, 0), (true, 0));
}

#[test]
fn content_directories_and_files_are_taken_once() {
    let entry = |name: &str, path: &str| DirEntry {
        name: name.to_string(),
        path: path.to_string(),
    };
    let dirs = discover_content_dirs(&vec![
        entry("content", "P/content"),
        entry("Source", "P/Source"),
        entry("Content", "P/Plugins/A/Content"),
        entry("content", "P/content"),
    ]);
    assert_eq!(dirs, vec!["P/content", "P/Plugins/A/Content"]);
    let file = |path: &str, size: u64| Candidate { path: path.to_string(), size };
    let files = collect_candidate_assets(&vec![
        file("a.b/x", 5),
        file("a/x", 5),
        file("big", 9),
        file("a/x", 5),
    ]);
    let paths: Vec<&str> = files.iter().map(|f| f.path.as_str()).collect();
    assert_eq!(paths, vec!["big", "a/x", "a.b/x"]);
}

#[test]
fn only_what_changed_is_read_again() {
    let existing = vec![
        ("a".to_string(), 1),
        ("b".to_string(), 1),
        ("gone".to_string(), 1),
        ("b".to_string(), 2),
        ("gone".to_string(), 3),
    ];
    let files = vec![("a".to_string(), 1), ("b".to_string(), 1), ("new".to_string(), 5)];
    assert!(matches!(refresh_asset_index(false, &existing, &files), RefreshPlan::Full));
    match refresh_asset_index(true, &existing, &files) {
        RefreshPlan::Full => panic!("an index is there"),
        RefreshPlan::Delta { changed, deleted } => {
            assert_eq!(changed, vec![1, 2]);
            assert_eq!(deleted, vec!["gone"]);
        }
    }
}

#[test]
fn rows_of_an_asset_are_lower_case_and_told_once() {
    let r = record("/Game/UI/WBP_Main", Some("/Script/G.SHero"), &["A", "a", "B"], &["Tick"]);
    let rows = insert_asset_record_db(&r);
    assert_eq!(rows.asset_key, "/game/ui/wbp_main");
    assert_eq!(rows.asset_name, "WBP_Main");
    assert_eq!(rows.asset_name_lc, "wbp_main");
    assert_eq!(rows.source_path_key, "c:/p/content/ui/wbp_main.uasset");
    assert_eq!(rows.parent_class_key.as_deref(), Some("/script/g.shero"));
    assert_eq!(rows.reference_keys, vec!["a", "b"]);
    assert_eq!(rows.function_keys, vec!["tick"]);
    let usages = usage_rows(&rows);
    let shown: Vec<(&str, &str)> = usages.iter().map(|u| (u.0.as_str(), u.1.as_str())).collect();
    assert_eq!(
        shown,
        vec![
            ("a", "reference"),
            ("b", "reference"),
            ("tick", "function"),
            ("/script/g.shero", "derived"),
        ]
    );
    assert_eq!(usages[3].1, UsageKind::Derived);
    let keys = apply_asset_index_delta(&vec![r], &texts(&["C:/Old.uasset"]));
    assert_eq!(keys, vec!["c:/old.uasset", "c:/p/content/ui/wbp_main.uasset"]);
}

#[test]
fn a_store_is_asked_for_names_behind_dots_and_colons() {
    let lookups = usage_lookups("USHero");
    let first: Vec<&str> = lookups.iter().map(|l| l.name.as_str()).collect();
    assert_eq!(first, vec!["shero", "ushero"]);
    assert_eq!(lookups[0].behind_dot, "%.shero");
    assert_eq!(lookups[0].behind_colon, "%:shero");
    let usages = get_asset_usages(&texts(&["b", "a", "b"]), &texts(&[]), &texts(&["c"]));
    assert_eq!(usages.references, vec!["a", "b"]);
    assert!(usages.function_references.is_empty());
    assert_eq!(usages.derived, vec!["c"]);
    assert_eq!(counted_names(&texts(&[" A ", "", "a", "b"])), vec!["A", "b"]);
    let hint = get_asset_usage_hints("A", &texts(&["x", "x"]), &texts(&["y"]), &texts(&[]));
    assert_eq!((hint.derived_count, hint.reference_count), (0, 2));
}

#[test]
fn an_index_says_what_is_wrong_with_it() {
    assert!(asset_index_initialized(Some("1")));
    assert!(!asset_index_initialized(Some("0")));
    assert!(!asset_index_initialized(None));
    assert!(asset_index_usable(Some("1"), Some("4")));
    assert!(!asset_index_usable(Some("1"), Some("3")));
    assert!(!asset_index_usable(Some("1"), None));
    assert!(!asset_index_usable(None, Some("4")));
    assert_eq!(
        build_asset_index_issues(None, Some("0"), None, 0, 0, 2, 3),
        vec![
            "project_meta.db_version is missing",
            "asset_index_initialized is not set to 1",
            "asset_index_version is missing, expected 4",
            "assets table is empty",
            "asset_references table is empty",
            "asset_references has 2 orphan rows",
            "asset_functions has 3 orphan rows",
        ]
    );
    let none = get_asset_index_status(None);
    assert!(!none.ok);
    assert_eq!(none.issues, vec!["asset database is missing"]);
    let fine = get_asset_index_status(Some(AssetIndexFacts {
        db_version: Some("9".to_string()),
        asset_index_initialized: Some("1".to_string()),
        asset_index_version: Some("4".to_string()),
        assets: 1,
        asset_references: 1,
        orphan_asset_references: 0,
        orphan_asset_functions: 0,
    }));
    assert!(fine.ok);
    assert!(fine.issues.is_empty());
}

#[test]
fn the_error_of_the_work_comes_before_that_of_the_clean_up() {
    let both: Result<u8, &str> = with_asset_bulk_write(Err("work"), Err("end"));
    assert_eq!(both, Err("work"));
    assert_eq!(with_asset_bulk_write(Ok(1), Err("end")), Err("end"));
    assert_eq!(with_asset_bulk_write::<u8, &str>(Ok(1), Ok(())), Ok(1));
}

#[test]
fn assets_are_listed_under_what_they_use() {
    let mut graph = build_asset_graph(&vec![
        record("/Game/A", Some("SHero"), &["/Game/T"], &["Tick"]),
        record("/Game/B", None, &["/Game/T"], &[]),
    ]);
    let usages = asset_usages_from_graph(&graph, "/Game/T");
    assert_eq!(usages.references, vec!["/game/a", "/game/b"]);
    let heroes = asset_usages_from_graph(&graph, "SHero");
    assert_eq!(heroes.derived, vec!["/game/a"]);
    let hints = asset_usage_hints_from_graph(&graph, &texts(&["SHero", " shero "]));
    assert_eq!(hints.len(), 1);
    assert_eq!((hints[0].derived_count, hints[0].reference_count), (1, 0));

    let kept = asset_runtime_from_graph(&graph);
    let again = graph_from_asset_runtime(&kept);
    assert_eq!(
        asset_usages_from_graph(&again, "/Game/T").references,
        vec!["/game/a", "/game/b"]
    );

    remove_asset_from_graph(&mut graph, "/Game/A");
    assert_eq!(asset_usages_from_graph(&graph, "/Game/T").references, vec!["/game/b"]);
    assert!(asset_usages_from_graph(&graph, "SHero").derived.is_empty());
    let changed = record("/Game/B", None, &["/Game/U"], &[]);
    update_single_asset(&mut graph, Some(changed), "/Game/B");
    assert!(asset_usages_from_graph(&graph, "/Game/T").references.is_empty());
    assert_eq!(asset_usages_from_graph(&graph, "/Game/U").references, vec!["/game/b"]);
}

#[test]
fn derived_assets_join_derived_classes_once() {
    let mut results: Vec<Item> = Vec::new();
    merge_derived_assets(&mut results, &texts(&["/Game/UI/WBP_A", "/game/ui/wbp_a", "/Game/B"]));
    assert_eq!(results.len(), 2);
    assert_eq!(results[0].text("name"), "WBP_A");
    assert_eq!(results[0].text("symbol_type"), "uasset");
    assert_eq!(results[1].text("path"), "/Game/B");
}

#[test]
fn graphs_are_kept_by_project() {
    let mut graphs = AssetGraphs::new();
    assert!(!graphs.ensure_asset_graph_state("C:/P"));
    assert!(graphs.get_asset_usages_from_state("C:/P", "/Game/T").is_none());
    let graph = build_asset_graph(&vec![record("/Game/A", Some("SHero"), &["/Game/T"], &[])]);
    graphs.populate_asset_graph_state("C:\\P\\", graph);
    assert!(graphs.ensure_asset_graph_state("c:/p"));
    let usages = graphs.get_asset_usages_from_state("C:/P", "/Game/T").unwrap();
    assert_eq!(usages.references, vec!["/game/a"]);
    let hints = graphs.get_asset_usage_hints_from_state("C:/P", &texts(&["SHero"])).unwrap();
    assert_eq!(hints[0].derived_count, 1);
    let mut results: Vec<Item> = Vec::new();
    assert!(graphs.merge_derived_classes_from_state("C:/P", "SHero", &mut results));
    assert_eq!(results[0].text("path"), "/game/a");
    assert!(!graphs.merge_derived_classes_from_state("C:/Q", "SHero", &mut results));
    graphs.remove_single_asset_from_state("C:/P", "C:/P/Content/A.uasset");
    let usages = graphs.get_asset_usages_from_state("C:/P", "/Game/T").unwrap();
    assert!(usages.references.is_empty());
}

#[test]
fn refreshes_report_how_far_they_are() {
    assert_eq!(
        begin_report(0, RefreshStage::Persist),
        Progress { current: 0, total: 1, stage: RefreshStage::Persist }
    );
    assert_eq!(ready_report(7), Progress { current: 7, total: 7, stage: RefreshStage::Ready });
    assert_eq!(ready_report(0), Progress { current: 1, total: 1, stage: RefreshStage::Ready });
    assert!(step_reports(0, RefreshStage::Persist).is_empty());
    let steps: Vec<(usize, usize)> =
        step_reports(250, RefreshStage::Scan).iter().map(|p| (p.current, p.total)).collect();
    assert_eq!(steps, vec![(1, 250), (100, 250), (200, 250), (250, 250)]);
    assert_eq!(step_report(2, 250, RefreshStage::Persist), None);
    assert_eq!(RefreshStage::Scan.as_str(), "Scan");
    assert_eq!(RefreshStage::Persist.as_str(), "Persist");
    assert_eq!(RefreshStage::Ready.as_str(), "Ready");
    let scan = Progress { current: 11, total: 10_000, stage: RefreshStage::Scan };
    assert_eq!(read_report(11, 10_000, 0), (Some(scan), 1));
    assert_eq!(read_report(12, 10_000, 1), (None, 1));
}

#[test]
fn writing_is_reported_from_its_begin_to_its_end() {
    for (work, counts) in [(0, vec![0, 1]), (1, vec![0, 1, 1]), (150, vec![0, 1, 100, 150, 150])] {
        let mut writing = WriteReports::new(work);
        let mut reports: Vec<Progress> = Vec::new();
        while writing.state != WriteState::Finished {
            reports.extend(writing.step());
        }
        assert_eq!(writing.step(), None);
        assert_eq!(reports.iter().map(|p| p.current).collect::<Vec<usize>>(), counts);
        assert!(reports.iter().all(|p| p.total == work.max(1)));
        let last = reports.pop().unwrap();
        assert_eq!(last, ready_report(work));
        assert!(reports.iter().all(|p| p.stage == RefreshStage::Persist));
        assert_eq!(reports.remove(0), begin_report(work, RefreshStage::Persist));
        assert_eq!(reports, step_reports(work, RefreshStage::Persist));
    }
}
