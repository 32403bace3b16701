use uscanner::query::item::{
    find_result_identity, live_find_identity, page_of, result_identity, tag_source, Field, Item,
    Likeness, Merged,
};
use uscanner::server::livefind::{LiveFind, LiveStep};
use uscanner::server::livetext::{LiveTextSearch, TextLineMatch, TextPhase};
use uscanner::server::path::{
    is_live_text_searchable_path, live_find_plugin_root, normalize_path_key, normalize_to_unix,
};
use uscanner::server::profile::{
    live_find_is_literal_code_query, live_find_is_path_like_query, live_find_is_short_query,
    live_find_is_sym_strong_query, live_find_is_text_like_query, live_find_tag_summary,
    live_find_text_limit, should_run_live_find_text_stage, SearchQueryProfile,
};
use uscanner::server::rank::{
    class_symbol_result_rank, dedupe_and_rank_class_symbol_results, is_class_like_kind,
    live_find_append_delta, live_find_filename, live_find_hqh_count,
    live_find_is_compact_fuzzy_match, live_find_kind_rank, live_find_match_quality,
    live_find_path_rank, live_find_should_keep_match, live_find_sort_key, live_find_source_rank,
    matches_unreal_type_fragment, merge_query_results, rank_live_find_results, result_path_count,
    MatchQuality,
};

fn item(kind: &str, name: &str, path: &str, line: i64) -> Item {
    Item::new()
        .and("type", Field::text(kind))
        .and("name", Field::text(name))
        .and("path", Field::text(path))
        .and("line", Field::Int(line))
}

fn names(list: &[Item]) -> Vec<String> {
    list.iter().map(|i| i.text("name").to_string()).collect()
}

fn line_match(path: &str, number: i64, text: &str, module: Option<&str>) -> TextLineMatch {
    TextLineMatch {
        path: path.to_string(),
        line_number: number,
        line_text: text.to_string(),
        module_name: module.map(|m| m.to_string()),
    }
}

// Items -----------------------------------------------------------------------

#[test]
fn fields_are_set_and_read_back() {
    let mut i = item("class", "AHero", "C:/P/Hero.h", 7);
    i.set("line", Field::Int(9));
    i.set("note", Field::Bool(true));
    assert_eq!(i.text("name"), "AHero");
    assert_eq!(i.whole("line"), Some(9));
    assert!(matches!(i.get("note"), Some(Field::Bool(true))));
    assert!(i.get("missing").is_none());
    assert_eq!(i.text("line"), "");
}

#[test]
fn paths_come_from_either_field() {
    let i = Item::new().and("file_path", Field::text("C:/P/A.h"));
    assert_eq!(i.path(), "C:/P/A.h");
    let both = Item::new().and("file_path", Field::text("x")).and("path", Field::text("y"));
    assert_eq!(both.path(), "y");
    let odd = Item::new().and("file_path", Field::text("x")).and("path", Field::Null);
    assert_eq!(odd.path(), "");
}

#[test]
fn a_source_is_set_once() {
    let list = tag_source(vec![item("class", "A", "p", 1)], "project");
    let list = tag_source(list, "engine");
    assert_eq!(list[0].text("source"), "project");
}

#[test]
fn identities_name_what_makes_two_items_alike() {
    let i = item("class", "AHero", "C:/P/Hero.h", 7);
    assert_eq!(find_result_identity(&i), "class\tC:/P/Hero.h\t7\tAHero");
    assert_eq!(result_identity(&i), "AHero:C:/P/Hero.h:7");
    assert_eq!(live_find_identity(&i), "class\tAHero\tC:/P/Hero.h\t7");
    let bare = Item::new();
    assert_eq!(find_result_identity(&bare), "\t\t1\t");
    assert_eq!(result_identity(&bare), "::0");
    assert_eq!(live_find_identity(&bare), "\t\t\t1");
}

#[test]
fn pages_follow_one_another() {
    let list: Vec<Item> = (0..5).map(|n| item("class", &format!("A{n}"), "p", n)).collect();
    assert_eq!(names(&page_of(&list, 0, 2)), vec!["A0", "A1"]);
    assert_eq!(names(&page_of(&list, 2, 2)), vec!["A2", "A3"]);
    assert_eq!(names(&page_of(&list, 4, 2)), vec!["A4"]);
    assert!(page_of(&list, 5, 2).is_empty());
    assert!(page_of(&list, usize::MAX, usize::MAX).is_empty());
}

#[test]
fn merging_adds_what_is_new_up_to_the_limit() {
    let mut m = Merged::from_items(Likeness::Find, vec![item("class", "A", "p", 1)]);
    m.merge(
        &[item("class", "A", "p", 1), item("class", "B", "p", 1), item("class", "C", "p", 1)],
        2,
    );
    assert_eq!(names(&m.items), vec!["A", "B"]);
}

// Paths -----------------------------------------------------------------------

#[test]
fn paths_are_compared_by_their_keys() {
    assert_eq!(normalize_to_unix("C:\\P\\A.h"), "C:/P/A.h");
    assert_eq!(normalize_path_key("C:\\Proj\\Game\\"), "c:/proj/game");
    assert_eq!(normalize_path_key("C:/Proj/Game"), "c:/proj/game");
    assert_eq!(normalize_path_key(&normalize_path_key("C:\\Proj//")), "c:/proj");
}

#[test]
fn text_is_searched_in_sources_and_settings() {
    for path in ["a.H", "a.hpp", "a.cpp", "a.inl", "a.cs", "a.ini", "a.json", "a.uproject"] {
        assert!(is_live_text_searchable_path(path), "{path}");
    }
    for path in ["a.uasset", "a.txt", "a", "h"] {
        assert!(!is_live_text_searchable_path(path), "{path}");
    }
}

#[test]
fn plugin_root_ends_behind_the_name_of_the_plugin() {
    assert_eq!(
        live_find_plugin_root("C:\\P\\Plugins\\Inventory\\Source\\A.h"),
        Some("C:/P/Plugins/Inventory".to_string())
    );
    assert_eq!(live_find_plugin_root("C:/P/Plugins/A.h"), None);
    assert_eq!(live_find_plugin_root("C:/P/Source/A.h"), None);
}

// What a query looks like -------------------------------------------------------

#[test]
fn queries_are_classified() {
    assert!(live_find_is_short_query(" abc "));
    assert!(!live_find_is_short_query("abcd"));
    assert!(live_find_is_sym_strong_query("AHero"));
    assert!(live_find_is_sym_strong_query("ns::thing"));
    assert!(live_find_is_sym_strong_query("uwidgetbase"));
    assert!(!live_find_is_sym_strong_query("hero"));
    assert!(!live_find_is_sym_strong_query("A Hero"));
    assert!(live_find_is_path_like_query("Public/Hero"));
    assert!(live_find_is_path_like_query("HERO.CPP"));
    assert!(!live_find_is_path_like_query("hero.txt"));
    assert!(live_find_is_literal_code_query("a->b"));
    assert!(live_find_is_literal_code_query("f()"));
    assert!(!live_find_is_literal_code_query("a b"));
    assert!(live_find_is_text_like_query("some words"));
    assert!(live_find_is_text_like_query("snake_case"));
    assert!(!live_find_is_text_like_query("plain"));
    assert!(!live_find_is_text_like_query("AHero"));
    assert!(!live_find_is_text_like_query("a/b c"));
}

#[test]
fn tags_name_what_a_query_looks_like() {
    assert_eq!(live_find_tag_summary("abc"), "SHORT");
    assert_eq!(live_find_tag_summary("AHeroBase"), "SYM_STRONG");
    assert_eq!(live_find_tag_summary("Public/Hero.h"), "PATH_LIKE|LITERAL_CODE");
    assert_eq!(live_find_tag_summary("Foo::Bar"), "SYM_STRONG|LITERAL_CODE");
    assert_eq!(live_find_tag_summary("snake_case"), "TEXT_LIKE");
    assert_eq!(live_find_tag_summary("plain"), "GENERIC");
}

#[test]
fn no_query_is_both_a_strong_symbol_and_text() {
    for q in ["AHero", "snake_case", "some words", "ns::x", "plain", "a/b"] {
        let p = SearchQueryProfile::classify(q);
        assert!(!(p.is_sym_strong && p.is_text_like), "{q}");
    }
}

#[test]
fn text_stage_depends_on_the_good_matches() {
    assert!(!should_run_live_find_text_stage("abc", 0, true));
    assert!(!should_run_live_find_text_stage("a/b.h", 0, true));
    assert!(!should_run_live_find_text_stage("some words", 10, true));
    assert!(should_run_live_find_text_stage("some words", 9, false));
    assert!(!should_run_live_find_text_stage("AHero", 0, false));
    assert!(should_run_live_find_text_stage("AHero", 0, true));
    assert!(!should_run_live_find_text_stage("AHero", 1, true));
    assert!(should_run_live_find_text_stage("plain", 3, false));
    assert!(!should_run_live_find_text_stage("plain", 4, false));
}

#[test]
fn text_is_forced_where_nothing_else_can_answer() {
    let p = SearchQueryProfile::classify("some words");
    assert!(p.should_force_reliable_text_search(0));
    assert!(!p.should_force_reliable_text_search(1));
    assert!(!SearchQueryProfile::classify("plain").should_force_reliable_text_search(0));
    assert!(p.should_use_text_only_path("some words"));
    assert!(!SearchQueryProfile::classify("snake_case").should_use_text_only_path("snake_case"));
    assert!(SearchQueryProfile::classify("\"quoted\"").should_use_text_only_path("\"quoted\""));
}

#[test]
fn limits_of_text_lie_within_their_ranges() {
    assert_eq!(live_find_text_limit("some words", 10, true), 40);
    assert_eq!(live_find_text_limit("some words", 50, true), 50);
    assert_eq!(live_find_text_limit("some words", 500, true), 60);
    assert_eq!(live_find_text_limit("some words", 10, false), 20);
    assert_eq!(live_find_text_limit("plain", 25, true), 25);
    assert_eq!(live_find_text_limit("plain", 500, true), 30);
}

#[test]
fn engine_is_skipped_where_the_project_is_dense() {
    let strong = SearchQueryProfile::classify("AHero");
    let plain = SearchQueryProfile::classify("plain");
    let words = SearchQueryProfile::classify("some words");
    assert_eq!(strong.live_find_engine_skip_reason(10, 0, 0, 0, true), None);
    assert_eq!(
        strong.live_find_engine_skip_reason(10, 10, 1, 8, true),
        Some("project_saturated_hqh")
    );
    assert_eq!(strong.live_find_engine_skip_reason(40, 40, 1, 19, true), Some("sym_strong_project_dense"));
    assert_eq!(plain.live_find_engine_skip_reason(100, 48, 1, 0, false), Some("identifier_project_dense"));
    assert_eq!(words.live_find_engine_skip_reason(100, 30, 1, 24, false), Some("text_like_project_hqh"));
    assert_eq!(plain.live_find_engine_skip_reason(100, 24, 4, 0, true), Some("current_project_dense"));
    assert_eq!(plain.live_find_engine_skip_reason(100, 24, 4, 0, false), None);
    assert_eq!(words.live_find_engine_skip_reason(100, 80, 1, 0, false), Some("project_dense"));
    assert_eq!(words.live_find_engine_skip_reason(100, 1, 12, 0, false), Some("project_dense"));
}

#[test]
fn references_of_locals_stay_in_the_project() {
    let p = SearchQueryProfile::classify("plain");
    let strong = SearchQueryProfile::classify("ThingBase");
    let typed = SearchQueryProfile::classify("AHeroCharacter");
    assert_eq!(p.reference_engine_skip_reason("local", 0, 0, false, false), Some("scope_local"));
    assert_eq!(p.reference_engine_skip_reason("member", 0, 0, false, false), Some("scope_local"));
    assert_eq!(p.reference_engine_skip_reason("global", 99, 9, true, false), None);
    assert_eq!(
        p.reference_engine_skip_reason("global", 24, 1, true, true),
        Some("project_definition_dense")
    );
    assert_eq!(
        typed.reference_engine_skip_reason("global", 4, 2, false, true),
        Some("unreal_type_project_hits")
    );
    assert_eq!(
        strong.reference_engine_skip_reason("global", 8, 1, false, true),
        Some("sym_strong_project_hits")
    );
    assert_eq!(
        p.reference_engine_skip_reason("global", 16, 1, false, true),
        Some("identifier_project_hits")
    );
    assert_eq!(
        SearchQueryProfile::classify("some words").reference_engine_skip_reason("global", 3, 8, false, true),
        Some("project_hits_dense")
    );
}

// Ranking -----------------------------------------------------------------------

#[test]
fn qualities_have_labels_and_an_order() {
    let all = [
        (MatchQuality::ExactSymbol, "exact_symbol"),
        (MatchQuality::PrefixSymbol, "prefix_symbol"),
        (MatchQuality::NormalizedSymbol, "normalized_symbol"),
        (MatchQuality::FileNameMatch, "file_name_match"),
        (MatchQuality::OwnerClassMatch, "owner_class_match"),
        (MatchQuality::TextMatch, "text_match"),
        (MatchQuality::Other, "other"),
    ];
    for (rank, (quality, label)) in all.iter().enumerate() {
        assert_eq!(quality.rank(), rank as u8);
        assert_eq!(quality.label(), *label);
        assert_eq!(live_find_should_keep_match(*quality), *quality != MatchQuality::Other);
    }
}

#[test]
fn quality_of_a_match() {
    let q = |kind: &str, name: &str, path: &str, pattern: &str| {
        live_find_match_quality(&item(kind, name, path, 1), pattern)
    };
    assert_eq!(q("function", "Fire", "p/W.h", "fire"), MatchQuality::ExactSymbol);
    assert_eq!(q("class", "AHeroBase", "p/W.h", "HeroBase"), MatchQuality::ExactSymbol);
    assert_eq!(q("function", "FireOnce", "p/W.h", "fire"), MatchQuality::PrefixSymbol);
    assert_eq!(q("function", "DoFire", "p/W.h", "fire"), MatchQuality::NormalizedSymbol);
    assert_eq!(q("function", "Fi_r_e", "p/W.h", "fire"), MatchQuality::NormalizedSymbol);
    assert_eq!(q("file", "Fire.h", "p/Fire.h", "fire"), MatchQuality::FileNameMatch);
    assert_eq!(q("function", "Other", "p/Fire.h", "fire"), MatchQuality::FileNameMatch);
    assert_eq!(q("function", "Other", "fire/x.h", "fire"), MatchQuality::FileNameMatch);
    assert_eq!(q("text", "fire", "p/W.h", "fire"), MatchQuality::TextMatch);
    assert_eq!(q("function", "Other", "p/W.h", "fire"), MatchQuality::Other);
    let owned = item("function", "Other", "p/W.h", 1).and("class_name", Field::text("AFireBall"));
    assert_eq!(live_find_match_quality(&owned, "fire"), MatchQuality::OwnerClassMatch);
}

#[test]
fn loose_matches_have_small_gaps() {
    assert!(live_find_is_compact_fuzzy_match("fiire", "fire"));
    assert!(!live_find_is_compact_fuzzy_match("fixxre", "fire"));
    assert!(live_find_is_compact_fuzzy_match("herroobase", "herobase"));
    assert!(!live_find_is_compact_fuzzy_match("abc", "ab"));
    assert!(!live_find_is_compact_fuzzy_match("", "abc"));
    assert!(!live_find_is_compact_fuzzy_match("abd", "abc"));
}

#[test]
fn types_match_without_their_prefix() {
    assert!(matches_unreal_type_fragment("UInventoryComponent", "InventoryComponent"));
    assert!(matches_unreal_type_fragment("inventorycomponent", "Inventory_Component"));
    assert!(!matches_unreal_type_fragment("XInventoryComponent", "InventoryComponent"));
    assert!(!matches_unreal_type_fragment("AHero", "Hero"));
    assert!(is_class_like_kind("ustruct"));
    assert!(!is_class_like_kind("UStruct"));
}

#[test]
fn ranks_of_source_kind_and_place() {
    let project = item("class", "A", "C:/P/A.h", 1).and("source", Field::text("project"));
    let engine = item("class", "A", "C:/P/A.h", 1).and("source", Field::text("engine"));
    assert_eq!(live_find_source_rank(&project), 0);
    assert_eq!(live_find_source_rank(&engine), 1);
    assert_eq!(live_find_source_rank(&Item::new()), 2);
    let kinds = [("UClass", 0), ("define", 1), ("MyDelegate", 1), ("file", 2), ("UFunction", 3), ("property", 4), ("text", 5)];
    for (kind, rank) in kinds {
        assert_eq!(live_find_kind_rank(&item(kind, "", "", 1)), rank, "{kind}");
    }
    let here = item("class", "A", "C:/P/A.h", 1).and("module_name", Field::text("Game"));
    assert_eq!(live_find_path_rank(&here, Some("c:\\p\\a.h"), None), 0);
    assert_eq!(live_find_path_rank(&here, Some("C:/P/B.h"), Some("game")), 1);
    assert_eq!(live_find_path_rank(&here, None, None), 2);
    let third = item("class", "A", "C:/P/ThirdParty/A.h", 1);
    assert_eq!(live_find_path_rank(&third, None, None), 4);
    assert_eq!(live_find_filename("C:/P/A.H"), "a.h");
}

#[test]
fn sort_keys_hold_what_is_compared() {
    let key = live_find_sort_key(&item("class", "AHero", "C:/P/Hero.h", 7), "ahero", None, None);
    assert_eq!(key.quality, MatchQuality::ExactSymbol);
    assert_eq!((key.source_rank, key.path_rank, key.kind_rank), (2, 2, 0));
    assert_eq!((key.name.as_str(), key.path.as_str(), key.line), ("ahero", "c:/p/hero.h", 7));
    let bare = live_find_sort_key(&Item::new(), "x", None, None);
    assert_eq!(bare.line, 1);
}

#[test]
fn shown_matches_are_ranked_and_differ() {
    let list = vec![
        item("function", "DoFire", "p/A.h", 1),
        item("function", "Nothing", "p/A.h", 2),
        item("function", "Fire", "p/B.h", 3),
        item("function", "Fire", "p/B.h", 3),
        item("function", "FireOnce", "p/A.h", 4),
    ];
    let ranked = rank_live_find_results(&list, "fire", None, None);
    assert_eq!(names(&ranked), vec!["Fire", "FireOnce", "DoFire"]);
    assert_eq!(ranked[0].text("match_quality"), "exact_symbol");
    let ranks: Vec<Option<i64>> = ranked.iter().map(|i| i.whole("backend_rank")).collect();
    assert_eq!(ranks, vec![Some(0), Some(2), Some(3)]);
    assert_eq!(live_find_hqh_count(&ranked), 3);
    assert_eq!(result_path_count(&ranked), 2);
}

#[test]
fn merged_results_keep_those_of_the_project_first() {
    let own = vec![item("class", "A", "p", 1), item("class", "B", "p", 1)];
    let more = [item("class", "B", "p", 1), item("class", "C", "p", 1), item("class", "D", "p", 1)];
    assert_eq!(names(&merge_query_results(own, &more, 3)), vec!["A", "B", "C"]);
}

#[test]
fn what_was_sent_is_not_sent_again() {
    let page = [item("class", "A", "p", 1), item("class", "B", "p", 1)];
    let delta = live_find_append_delta(&page, vec![item("struct", "A", "p", 1)]);
    assert_eq!(names(&delta), vec!["B"]);
}

#[test]
fn classes_are_ranked_by_how_their_names_match() {
    let rank = |name: &str| class_symbol_result_rank(&item("class", name, "C:/P/X.h", 1), "hero").rank;
    assert_eq!(rank("Hero"), 0);
    assert_eq!(rank("HeroBase"), 1);
    assert_eq!(rank("AHero"), 2);
    assert_eq!(rank("Other"), 9);
    let owned = item("class", "X", "p", 1).and("class_name", Field::text("AHero"));
    assert_eq!(class_symbol_result_rank(&owned, "hero").rank, 3);
    let module = item("class", "X", "p", 1).and("module_name", Field::text("Heroes"));
    assert_eq!(class_symbol_result_rank(&module, "hero").rank, 4);
    assert_eq!(class_symbol_result_rank(&item("class", "X", "hero/x.h", 1), "hero").rank, 5);
    let list = [
        item("class", "AHero", "a.h", 1),
        item("class", "HeroBase", "a.h", 1),
        item("class", "Hero", "b.h", 1),
        item("class", "Hero", "b.h", 9),
    ];
    let ranked = dedupe_and_rank_class_symbol_results(&list, "hero");
    assert_eq!(names(&ranked), vec!["Hero", "HeroBase", "AHero"]);
}

// Lines of text -------------------------------------------------------------------

#[test]
fn lines_are_searched_near_the_edited_file_first() {
    let mut search = LiveTextSearch::run_project_live_text_search(
        "some words",
        20,
        Some("C:/P/Plugins/Inv/Source/A.cpp"),
        Some("Inv"),
        false,
    );
    assert_eq!(search.phase, TextPhase::File);
    let request = search.next_request().unwrap();
    assert_eq!(request.path.as_deref(), Some("C:/P/Plugins/Inv/Source/A.cpp"));
    assert_eq!(request.limit, 10);
    search = search.take(vec![
        line_match("C:\\P\\Plugins\\Inv\\Source\\A.cpp", 4, "  some words here ", None),
        line_match("C:/P/Plugins/Inv/Source/A.cpp", 4, "again", None),
    ]);
    assert_eq!(search.results.len(), 1);
    assert_eq!(search.results[0].text("text"), "some words here");
    assert_eq!(search.results[0].text("path"), "C:/P/Plugins/Inv/Source/A.cpp");
    assert_eq!(search.results[0].text("source"), "project");
    assert_eq!(search.remaining_results(), 19);
    assert_eq!(search.phase, TextPhase::Module);
    let request = search.next_request().unwrap();
    assert_eq!((request.path, request.limit), (None, 1200));
    search = search.take(vec![
        line_match("C:/P/Other/B.cpp", 1, "some words", Some("Other")),
        line_match("C:/P/Plugins/Inv/Source/B.cpp", 1, "some words", Some("INV")),
        line_match("C:/P/Plugins/Inv/Source/B.txt", 1, "some words", Some("Inv")),
    ]);
    assert_eq!(search.results.len(), 2);
    assert_eq!(search.phase, TextPhase::Plugin);
    search = search.take(vec![
        line_match("C:/P/Other/B.cpp", 1, "some words", None),
        line_match("C:/P/PLUGINS/Inv/Source/C.cpp", 2, "some words", None),
    ]);
    assert_eq!(search.results.len(), 3);
    assert_eq!(search.phase, TextPhase::All);
    search = search.take(vec![line_match("C:/P/Other/B.cpp", 1, "some words", None)]);
    assert_eq!(search.results.len(), 4);
    assert_eq!(search.phase, TextPhase::Done);
    assert!(search.next_request().is_none());
    assert!(!search.is_done());
}

#[test]
fn a_strong_symbol_is_not_searched_beyond_the_module() {
    let search = LiveTextSearch::run_project_live_text_search("AHero", 20, None, Some("Inv"), false);
    assert_eq!(search.phase, TextPhase::Module);
    let search = search.take(Vec::new());
    assert_eq!(search.phase, TextPhase::Done);
    let repeated = LiveTextSearch::run_project_live_text_search("AHero", 20, None, Some("Inv"), true);
    assert_eq!(repeated.take(Vec::new()).phase, TextPhase::All);
}

#[test]
fn lines_of_the_engine_come_in_one_answer() {
    let search = LiveTextSearch::run_engine_live_text_search("some words", 2);
    let request = search.next_request().unwrap();
    assert_eq!((request.path, request.limit), (None, 8192));
    let search = search.take(vec![
        line_match("C:/E/A.h", 1, "x", None),
        line_match("C:/E/A.h", 2, "x", None),
        line_match("C:/E/A.h", 3, "x", None),
    ]);
    assert_eq!(search.results.len(), 2);
    assert!(search.is_done());
    assert_eq!(search.results[0].text("source"), "engine");
}

#[test]
fn a_line_is_kept_once() {
    let mut search = LiveTextSearch::run_engine_live_text_search("x", 5);
    assert!(search.push_live_text_match(&line_match("C:\\E\\A.h", 1, "x", None)));
    assert!(!search.push_live_text_match(&line_match("C:/E/A.h", 1, "y", None)));
    assert_eq!(search.results.len(), 1);
}

// The live search -------------------------------------------------------------------

fn begin(pattern: &str, limit: usize, repeated: bool) -> LiveFind {
    LiveFind::unified_live_find_with_engine(pattern, limit, 0, None, None, false, repeated)
}

#[test]
fn a_blank_pattern_finds_nothing() {
    let search = begin("  ", 10, false);
    assert_eq!(search.step, LiveStep::Done);
    assert!(search.page(false).is_empty());
}

#[test]
fn a_symbol_is_searched_in_the_project_and_in_the_engine() {
    let search = begin("AHeroBase", 3, false);
    assert_eq!(search.step, LiveStep::Project);
    assert_eq!(search.next_limit(), 3);
    let search = search.take(Some(vec![item("class", "AHeroBase", "p/A.h", 1)]));
    assert!(search.announce);
    assert_eq!(names(&search.sent), vec!["AHeroBase"]);
    assert_eq!(search.sent[0].text("source"), "project");
    assert_eq!(search.step, LiveStep::Engine);
    assert_eq!(search.next_limit(), 3);
    let search = search.take(Some(vec![
        item("class", "AHeroBase", "p/A.h", 1),
        item("class", "AHeroBaseTwo", "e/B.h", 1),
    ]));
    assert_eq!(search.step, LiveStep::Done);
    assert_eq!(names(&search.page(false)), vec!["AHeroBase", "AHeroBaseTwo"]);
    assert_eq!(names(&search.page(true)), vec!["AHeroBaseTwo"]);
}

#[test]
fn words_are_searched_as_text_only() {
    let search = begin("some words", 3, true);
    assert_eq!(search.step, LiveStep::TextOnly);
    let search = search.take(Some(vec![item("text", "some words", "p/A.h", 1)]));
    assert_eq!(search.step, LiveStep::TextOnlyEngine);
    let search = search.take(None);
    assert_eq!(search.step, LiveStep::Done);
    assert_eq!(search.page(false).len(), 1);
    assert!(search.page(true).is_empty());
    let once = begin("some words", 3, false).take(Some(Vec::new()));
    assert_eq!(once.step, LiveStep::Done);
}

#[test]
fn forced_text_takes_the_place_of_symbols() {
    let search = begin("snake_case", 3, false);
    assert_eq!(search.step, LiveStep::Project);
    let search = search.take(Some(Vec::new()));
    assert_eq!(search.step, LiveStep::ReliableText);
    let search = search.take(Some(vec![item("text", "snake_case", "p/A.h", 1)]));
    assert_eq!(search.text_count, 1);
    assert_eq!(search.page(false).len(), 1);
}

#[test]
fn every_live_search_ends() {
    for pattern in ["AHeroBase", "some words", "snake_case", "plain", "abc", "a/b.h", "a->b"] {
        for repeated in [false, true] {
            let mut search = begin(pattern, 5, repeated);
            let mut answers = 0;
            while search.step != LiveStep::Done {
                search = search.take(Some(Vec::new()));
                answers += 1;
                assert!(answers <= 8, "{pattern}");
            }
            assert!(search.page(false).len() <= 5);
        }
    }
}
