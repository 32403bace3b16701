use rusqlite::types::Value;
use rusqlite::{params_from_iter, Connection, Row};
use uscanner::query::bucket::{
    bucketed_symbol_results, search_files_fuzzy_fallback, search_symbols_fuzzy_fallback,
    BucketSearch, SqlParam, SqlQuery,
};
use uscanner::query::hot_index::{
    build_search_hot_index, file_row_to_item, symbol_row_to_item, FileRow, SearchHotIndex, SymbolRow,
};
use uscanner::query::item::Item;
use uscanner::query::pattern::{
    build_file_fts_query, build_symbol_fts_query, candidate_values_clause, compact_identifier,
    escape_like, is_class_like_symbol_type, is_explicit_type_query, is_identifier_query,
    looks_like_unreal_type_query, normalize_path,
};
use uscanner::query::search::{
    class_row_to_item, code_text_item, fast_find, fast_find_with_hot_index, get_symbols_by_type,
    global_find, list_class_symbols, list_symbols, search_class_symbols, search_code_text,
    search_symbols, search_symbols_with_hot_index, Find, FindRequest, FindStep,
};

const TABLES: &str = "
    CREATE TABLE search_symbols (
        id INTEGER PRIMARY KEY, name TEXT, kind TEXT, owner_name TEXT, path TEXT,
        line_number INTEGER, module_name TEXT, name_lc TEXT, path_lc TEXT, compact_name TEXT,
        owner_name_lc TEXT, module_name_lc TEXT, kind_rank INTEGER, is_class_like INTEGER);
    CREATE VIRTUAL TABLE search_symbols_fts USING fts5(
        name_lc, compact_name, owner_name_lc, module_name_lc, tokenize = 'trigram');
    CREATE TABLE search_files (
        file_id INTEGER PRIMARY KEY, basename TEXT, path TEXT, module_name TEXT, module_id INTEGER,
        ext TEXT, basename_lc TEXT, path_lc TEXT);
    CREATE VIRTUAL TABLE search_files_fts USING fts5(basename_lc, path_lc, tokenize = 'trigram');
    CREATE TABLE modules (id INTEGER PRIMARY KEY, root_directory_id INTEGER);
    CREATE TABLE dir_paths (id INTEGER PRIMARY KEY, full_path TEXT);
";

fn store() -> Connection {
    let conn = Connection::open_in_memory().unwrap();
    conn.execute_batch(TABLES).unwrap();
    conn
}

fn header_path(module: &str, filename: &str) -> String {
    format!("C:/Project/Source/{module}/Public/{filename}")
}

fn insert_project_header_file(conn: &Connection, module: &str, filename: &str) -> String {
    let path = header_path(module, filename);
    conn.execute(
        "INSERT INTO search_files (basename, path, module_name, ext, basename_lc, path_lc)
         VALUES (?1, ?2, ?3, 'h', lower(?1), lower(?2))",
        (filename, &path, module),
    )
    .unwrap();
    conn.execute(
        "INSERT INTO search_files_fts (rowid, basename_lc, path_lc) VALUES (?1, lower(?2), lower(?3))",
        (conn.last_insert_rowid(), filename, &path),
    )
    .unwrap();
    path
}

fn insert_symbol(conn: &Connection, path: &str, module: &str, kind: &str, owner: &str, name: &str) {
    let class_like = is_class_like_symbol_type(kind);
    conn.execute(
        "INSERT INTO search_symbols (name, kind, owner_name, path, line_number, module_name,
            name_lc, path_lc, compact_name, owner_name_lc, module_name_lc, kind_rank, is_class_like)
         VALUES (?1, ?2, ?3, ?4, 1, ?5, lower(?1), lower(?4), ?6, lower(?3), lower(?5), ?7, ?8)",
        (
            name,
            kind,
            owner,
            path,
            module,
            compact_identifier(name),
            if class_like { 0 } else { 1 },
            class_like,
        ),
    )
    .unwrap();
    conn.execute(
        "INSERT INTO search_symbols_fts (rowid, name_lc, compact_name, owner_name_lc, module_name_lc)
         VALUES (?1, lower(?2), ?3, lower(?4), lower(?5))",
        (conn.last_insert_rowid(), name, compact_identifier(name), owner, module),
    )
    .unwrap();
}

fn insert_class_symbol(conn: &Connection, path: &str, name: &str) {
    insert_symbol(conn, path, "Game", "class", name, name);
}

fn insert_property_symbol(conn: &Connection, path: &str, class_name: &str, name: &str) {
    insert_symbol(conn, path, "Game", "property", class_name, name);
}

fn values(query: &SqlQuery) -> Vec<Value> {
    query
        .params
        .iter()
        .map(|p| match p {
            SqlParam::Text(s) => Value::Text(s.clone()),
            SqlParam::Integer(n) => Value::Integer(*n),
        })
        .collect()
}

fn symbol(row: &Row<'_>) -> rusqlite::Result<Item> {
    Ok(symbol_row_to_item(
        &row.get::<_, String>(0)?,
        &row.get::<_, String>(1)?,
        &row.get(2)?,
        &row.get::<_, String>(3)?,
        row.get(4)?,
        &row.get(5)?,
    ))
}

fn file(row: &Row<'_>) -> rusqlite::Result<Item> {
    Ok(file_row_to_item(
        &row.get::<_, String>(0)?,
        &row.get::<_, String>(1)?,
        &row.get(2)?,
        &row.get(3)?,
    ))
}

fn rows(conn: &Connection, query: &SqlQuery, files: bool) -> Vec<Item> {
    let mut stmt = conn.prepare(&query.sql).unwrap();
    let found = stmt
        .query_map(params_from_iter(values(query)), |row| if files { file(row) } else { symbol(row) })
        .unwrap();
    found.map(|row| row.unwrap()).collect()
}

fn run_bucket(conn: &Connection, search: BucketSearch, files: bool) -> Vec<Item> {
    let mut search = search;
    while let Some(query) = search.next_query() {
        if search.wants_ids() {
            let mut stmt = conn.prepare(&query.sql).unwrap();
            let ids = stmt
                .query_map(params_from_iter(values(&query)), |row| row.get::<_, i64>(0))
                .unwrap()
                .map(|id| id.unwrap())
                .collect();
            search.take_ids(ids);
        } else {
            let found = rows(conn, &query, files);
            search.take_rows(&found);
        }
    }
    search.found.items
}

fn run(conn: &Connection, find: Find) -> Vec<Item> {
    let mut find = find;
    while find.step != FindStep::Done {
        let answer = match find.next_request("") {
            FindRequest::List(query) => rows(conn, &query, false),
            FindRequest::Symbols(search) => run_bucket(conn, search, false),
            FindRequest::Files(search) => run_bucket(conn, search, true),
            FindRequest::LooseSymbols(Some(query)) => rows(conn, &query, false),
            FindRequest::LooseFiles(Some(query)) => rows(conn, &query, true),
            _ => Vec::new(),
        };
        find = find.take(answer);
    }
    find.page()
}

fn names(items: &[Item]) -> Vec<&str> {
    items.iter().map(|item| item.text("name")).collect()
}

fn any_named(items: &[Item], name: &str) -> bool {
    items.iter().any(|item| item.text("name") == name)
}

#[test]
fn fast_find_falls_back_to_subsequence_matches_for_symbols() {
    let conn = store();
    let path = insert_project_header_file(&conn, "Game", "RangedWeapon.h");
    insert_class_symbol(&conn, &path, "RangedWeapon");

    let items = run(&conn, fast_find("rangeweapon", 20, 0));
    assert!(any_named(&items, "RangedWeapon"));
}

#[test]
fn fast_find_keeps_strong_matches_ahead_of_subsequence_fallback() {
    let conn = store();
    let exact_path = insert_project_header_file(&conn, "Game", "RangeWeapon.h");
    insert_class_symbol(&conn, &exact_path, "RangeWeapon");

    let fuzzy_path = insert_project_header_file(&conn, "Game", "RangedWeapon.h");
    insert_class_symbol(&conn, &fuzzy_path, "RangedWeapon");

    let items = run(&conn, fast_find("rangeweapon", 20, 0));

    let exact_index = items.iter().position(|item| item.text("name") == "RangeWeapon").unwrap();
    let fuzzy_index = items.iter().position(|item| item.text("name") == "RangedWeapon").unwrap();

    assert!(exact_index < fuzzy_index);
}

#[test]
fn fast_find_suppresses_broad_class_contains_when_exact_type_exists() {
    let conn = store();
    let exact_path = insert_project_header_file(&conn, "Game", "GameplayAbility.h");
    insert_class_symbol(&conn, &exact_path, "UGameplayAbility");
    insert_property_symbol(&conn, &exact_path, "UGameplayAbility", "AbilityTags");

    let broad_path = insert_project_header_file(&conn, "Game", "GameplayAbilityStatics.h");
    insert_class_symbol(&conn, &broad_path, "UGameplayAbilityStatics");

    let items = run(&conn, fast_find("UGameplayAbility", 20, 0));

    assert!(any_named(&items, "UGameplayAbility"));
    assert!(!any_named(&items, "UGameplayAbilityStatics"));
}

#[test]
fn fast_find_matches_unreal_type_names_without_underscores() {
    let conn = store();
    let path = insert_project_header_file(&conn, "Game", "GameplayCueNotify_Actor.h");
    insert_class_symbol(&conn, &path, "AGameplayCueNotify_Actor");

    let items = run(&conn, fast_find("GameplayCueNotifyActor", 20, 0));

    assert!(any_named(&items, "AGameplayCueNotify_Actor"));
}

#[test]
fn fast_find_treats_lowercase_unreal_type_query_as_type_like() {
    let conn = store();
    let exact_path = insert_project_header_file(&conn, "Game", "GameplayAbility.h");
    insert_class_symbol(&conn, &exact_path, "UGameplayAbility");
    insert_property_symbol(&conn, &exact_path, "UGameplayAbility", "AbilityTags");

    let broad_path = insert_project_header_file(&conn, "Game", "GameplayAbilityStatics.h");
    insert_class_symbol(&conn, &broad_path, "UGameplayAbilityStatics");

    let items = run(&conn, fast_find("ugameplayability", 20, 0));

    assert!(any_named(&items, "UGameplayAbility"));
    assert!(!any_named(&items, "AbilityTags"));
}

#[test]
fn fast_find_identifier_query_skips_file_bucket() {
    let conn = store();
    let path = insert_project_header_file(&conn, "Game", "GameplayAbility.h");
    insert_class_symbol(&conn, &path, "UGameplayAbility");

    let items = run(&conn, fast_find("UGameplayAbility", 20, 0));

    assert!(items.iter().all(|item| item.text("type") != "file"));
}

fn hot_index(conn: &Connection) -> SearchHotIndex {
    let mut stmt = conn
        .prepare(
            "SELECT name, kind, owner_name, path, line_number, module_name, name_lc, compact_name,
                owner_name_lc, module_name_lc, kind_rank, is_class_like
             FROM search_symbols ORDER BY kind_rank ASC, name_lc ASC, path_lc ASC",
        )
        .unwrap();
    let symbols: Vec<SymbolRow> = stmt
        .query_map([], |row| {
            Ok(SymbolRow {
                name: row.get(0)?,
                kind: row.get(1)?,
                owner_name: row.get(2)?,
                path: row.get(3)?,
                line_number: row.get(4)?,
                module_name: row.get(5)?,
                name_lc: row.get(6)?,
                compact_name: row.get(7)?,
                owner_name_lc: row.get(8)?,
                module_name_lc: row.get(9)?,
                kind_rank: row.get(10)?,
                is_class_like: row.get(11)?,
            })
        })
        .unwrap()
        .map(|row| row.unwrap())
        .collect();
    let mut stmt = conn
        .prepare(
            "SELECT basename, path, module_name, basename_lc, path_lc FROM search_files
             ORDER BY basename_lc ASC, path_lc ASC",
        )
        .unwrap();
    let files: Vec<FileRow> = stmt
        .query_map([], |row| {
            Ok(FileRow {
                basename: row.get(0)?,
                path: row.get(1)?,
                module_name: row.get(2)?,
                module_root: None,
                basename_lc: row.get(3)?,
                path_lc: row.get(4)?,
            })
        })
        .unwrap()
        .map(|row| row.unwrap())
        .collect();
    build_search_hot_index(&symbols, &files)
}

#[test]
fn hot_index_fast_find_returns_exact_and_prefix_matches() {
    let conn = store();
    let path = insert_project_header_file(&conn, "Game", "GameplayAbility.h");
    insert_class_symbol(&conn, &path, "UGameplayAbility");

    let index = hot_index(&conn);
    let items = run(&conn, fast_find_with_hot_index(Some(&index), "UGameplayAbility", 20, 0));

    assert!(any_named(&items, "UGameplayAbility"));
    assert!(items.iter().all(|item| item.text("type") != "file"));
}

#[test]
fn hot_index_matches_unreal_type_without_underscores() {
    let conn = store();
    let path = insert_project_header_file(&conn, "Game", "GameplayCueNotify_Actor.h");
    insert_class_symbol(&conn, &path, "AGameplayCueNotify_Actor");

    let index = hot_index(&conn);
    let items = run(&conn, fast_find_with_hot_index(Some(&index), "GameplayCueNotifyActor", 20, 0));

    assert!(any_named(&items, "AGameplayCueNotify_Actor"));
}

#[test]
fn hot_index_search_symbols_can_match_owner_name() {
    let conn = store();
    let path = insert_project_header_file(&conn, "Game", "GameplayAbility.h");
    insert_class_symbol(&conn, &path, "UGameplayAbility");
    insert_property_symbol(&conn, &path, "UGameplayAbility", "AbilityTags");

    let index = hot_index(&conn);
    let items = run(&conn, search_symbols_with_hot_index(Some(&index), "UGameplayAbility", 20, 0));

    assert!(any_named(&items, "AbilityTags"));
}

#[test]
fn hot_index_search_symbols_can_match_module_name() {
    let conn = store();
    let path = insert_project_header_file(&conn, "Gameplay", "GameplayAbility.h");
    insert_symbol(&conn, &path, "Gameplay", "class", "UGameplayAbility", "UGameplayAbility");

    let index = hot_index(&conn);
    let items = run(&conn, search_symbols_with_hot_index(Some(&index), "gameplay", 20, 0));

    assert!(any_named(&items, "UGameplayAbility"));
}

#[test]
fn a_blank_pattern_lists_everything_page_by_page() {
    let conn = store();
    let path = insert_project_header_file(&conn, "Game", "All.h");
    insert_class_symbol(&conn, &path, "UAlpha");
    insert_class_symbol(&conn, &path, "UBeta");
    insert_property_symbol(&conn, &path, "UBeta", "Count");

    assert_eq!(names(&run(&conn, search_symbols("  ", 2, 1))), vec!["UAlpha", "UBeta"]);
    assert_eq!(names(&run(&conn, search_class_symbols("", 1, 1))), vec!["UBeta"]);
}

#[test]
fn files_are_found_by_words() {
    let conn = store();
    insert_project_header_file(&conn, "Game", "GameplayAbility.h");
    insert_project_header_file(&conn, "Game", "Weapon.h");

    let items = run(&conn, fast_find("gameplay ability.h", 20, 0));
    assert_eq!(names(&items), vec!["GameplayAbility.h"]);
    assert_eq!(items[0].text("type"), "file");
    let items = run(&conn, global_find("weapon.h", 20, 0));
    assert_eq!(names(&items), vec!["Weapon.h"]);
}

#[test]
fn search_ends_where_the_page_is_full() {
    let conn = store();
    let path = insert_project_header_file(&conn, "Game", "Many.h");
    for i in 0..5 {
        insert_class_symbol(&conn, &path, &format!("UThing{i}"));
    }
    assert_eq!(names(&run(&conn, search_symbols("UThing", 2, 0))), vec!["UThing0", "UThing1"]);
    assert_eq!(names(&run(&conn, search_symbols("UThing", 2, 3))), vec!["UThing3", "UThing4"]);
}

#[test]
fn patterns_are_told_apart() {
    assert!(is_identifier_query("UE::Math"));
    assert!(!is_identifier_query("1abc"));
    assert!(!is_identifier_query("a b"));
    assert!(looks_like_unreal_type_query("ugameplayability"));
    assert!(!looks_like_unreal_type_query("uabilit"));
    assert!(!looks_like_unreal_type_query("u_gameplay"));
    assert!(is_explicit_type_query("Weapon"));
    assert!(!is_explicit_type_query("weapon"));
    assert_eq!(compact_identifier("A_Game-Cue 1"), "agamecue1");
    assert_eq!(escape_like("a%b_c\\d"), "a\\%b\\_c\\\\d");
    assert_eq!(normalize_path("C:\\a\\\\b"), "C:/a/b");
    assert_eq!(candidate_values_clause(3), "(?, 0), (?, 1), (?, 2)");
    assert_eq!(build_symbol_fts_query("My_Name").as_deref(), Some("\"myname\""));
    assert_eq!(build_file_fts_query("ab cde \"fg").as_deref(), Some("\"cde\" \"\"\"fg\""));
    assert_eq!(build_file_fts_query("ab c"), None);
}

#[test]
fn lines_of_code_are_asked_for_within_bounds() {
    assert!(search_code_text("  ", 10, 0).is_none());
    let request = search_code_text(" Foo ", 10_000, 2_000_000).unwrap();
    assert_eq!((request.pattern.as_str(), request.limit, request.offset), ("Foo", 500, 1_000_000));
    let item = code_text_item("Foo", "C:\\a.cpp", 3, "Foo();");
    assert_eq!(item.text("path"), "C:/a.cpp");
    assert_eq!(item.whole("line"), Some(3));
    assert_eq!(item.text("type"), "text");
}

#[test]
fn types_of_a_kind_are_asked_for() {
    assert!(get_symbols_by_type("", " ", None).is_none());
    let query = get_symbols_by_type("WITH x ", " struct ", Some(9_999)).unwrap();
    assert!(query.sql.starts_with("WITH x  SELECT"));
    assert!(matches!(&query.params[0], SqlParam::Text(s) if s == "struct"));
    assert!(matches!(query.params[1], SqlParam::Integer(5_000)));
    let item = class_row_to_item("FA", &None, "struct", "a\\b", &None, Some(1), None);
    assert_eq!(item.text("path"), "a/b");
    assert_eq!(item.text("base_class"), "");
}

#[test]
fn lines_of_code_fill_the_page_of_the_widest_search() {
    let mut find = global_find("hero", 3, 2);
    while find.step != FindStep::CodeText {
        find = find.take(Vec::new());
    }
    match find.next_request("") {
        FindRequest::Lines(Some(request)) => {
            assert_eq!(request.pattern, "hero");
            assert_eq!((request.limit, request.offset), (5, 0));
        }
        _ => panic!("lines were expected"),
    }
    let find = find.take(vec![code_text_item("hero", "C:\\P\\A.h", 4, "hero = 1;")]);
    assert!(matches!(find.next_request(""), FindRequest::Nothing));
}

#[test]
fn blank_patterns_list_everything() {
    let conn = store();
    let path = insert_project_header_file(&conn, "Game", "Hero.h");
    insert_class_symbol(&conn, &path, "AHero");
    insert_property_symbol(&conn, &path, "AHero", "Health");
    assert_eq!(names(&run(&conn, search_symbols("  ", 10, 0))), vec!["AHero", "Health"]);
    assert_eq!(names(&run(&conn, search_class_symbols("", 10, 0))), vec!["AHero"]);
    assert_eq!(names(&run(&conn, fast_find("", 1, 1))), vec!["Health"]);
}

#[test]
fn no_result_is_shown_twice() {
    let conn = store();
    let path = insert_project_header_file(&conn, "Game", "Hero.h");
    for name in ["Hero", "HeroBase", "AHero", "HeroHelper"] {
        insert_class_symbol(&conn, &path, name);
    }
    for pattern in ["hero", "Hero.h", "he ro", "AHero"] {
        let items = run(&conn, global_find(pattern, 20, 0));
        let mut keys: Vec<String> = items
            .iter()
            .map(|i| format!("{}|{}|{}", i.text("type"), i.text("name"), i.text("path")))
            .collect();
        let count = keys.len();
        keys.sort();
        keys.dedup();
        assert_eq!(keys.len(), count, "{pattern}");
        assert!(count <= 20);
    }
}

#[test]
fn queries_carry_their_values() {
    let integers = |q: &SqlQuery| -> Vec<i64> {
        q.params.iter().filter_map(|p| if let SqlParam::Integer(n) = p { Some(*n) } else { None }).collect()
    };
    assert_eq!(integers(&list_symbols(0, 5_000_000)), vec![1, 1_000_000]);
    assert_eq!(integers(&list_class_symbols(99_999, 3)), vec![10_000, 3]);
    assert!(list_class_symbols(1, 0).sql.contains("is_class_like = 1"));
    assert!(search_symbols_fuzzy_fallback("   ", 5).is_none());
    let loose = search_files_fuzzy_fallback("", "ab cd", 5).unwrap();
    assert_eq!(integers(&loose).last(), Some(&5));
}

#[test]
fn symbols_are_ordered_by_how_their_names_match() {
    let conn = store();
    let path = insert_project_header_file(&conn, "Game", "Death.h");
    insert_symbol(&conn, &path, "Game", "property", "UDeathComponent", "Health");
    insert_symbol(&conn, &path, "Game", "function", "AActor", "OnDeath");
    insert_symbol(&conn, &path, "Game", "class", "DeathMatch", "DeathMatch");
    insert_symbol(&conn, &path, "Game", "class", "De_ath", "De_ath");
    insert_symbol(&conn, &path, "Game", "function", "AActor", "Death");
    insert_symbol(&conn, &path, "Game", "function", "AActor", "DeathCount");
    let found = run(&conn, search_symbols(" death ", 20, 0));
    assert_eq!(names(&found), vec!["Death", "DeathMatch", "DeathCount", "De_ath", "OnDeath", "Health"]);
    let second = run(&conn, search_symbols("death", 2, 2));
    assert_eq!(names(&second), vec!["DeathCount", "De_ath"]);
}

#[test]
fn first_request_for_symbols_asks_for_exact_names_only() {
    let mut search = bucketed_symbol_results("Get_Name", 10, false);
    let exact = search.next_query().unwrap();
    assert!(exact.sql.contains("WHERE name_lc = ?"));
    assert!(!exact.sql.contains("compact_name"));
    assert_eq!(values(&exact), vec![Value::Text("get_name".to_string()), Value::Integer(10)]);
    search.take_rows(&[]);
    let beginnings = search.next_query().unwrap();
    assert_eq!(
        values(&beginnings),
        vec![
            Value::Text("get\\_name%".to_string()),
            Value::Text("getname%".to_string()),
            Value::Text("get_name".to_string()),
            Value::Text("get\\_name%".to_string()),
            Value::Text("getname".to_string()),
            Value::Integer(10),
        ]
    );
}

#[test]
fn rows_of_a_symbol_search_are_put_in_groups() {
    let row = |name: &str, owner: &str| {
        symbol_row_to_item(name, "function", &Some(owner.to_string()), "C:/A.h", Some(1), &None)
    };
    let find = search_symbols("tick", 10, 0);
    let answer = vec![
        row("Update", "UTickable"),
        row("PreTick", "AActor"),
        row("TickRate", "AActor"),
        row("Tick", "AActor"),
        row("TICK", "APawn"),
        row("T_i_c_k", "APawn"),
    ];
    let done = find.take(answer);
    assert_eq!(done.step, FindStep::Done);
    assert_eq!(
        names(&done.page()),
        vec!["Tick", "TICK", "TickRate", "PreTick", "T_i_c_k", "Update"]
    );
}
