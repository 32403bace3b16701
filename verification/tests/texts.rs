use uscanner::query::hot_index::{build_search_hot_index, FileRow, SymbolRow};
use uscanner::query::item::Item;
use uscanner::query::pattern::{
    clamped, quoted_fts_term, saturated_sum, search_tokens, should_use_file_fts,
    should_use_symbol_fts,
};
use uscanner::text;
use uscanner::textmap::TextMap;
use uscanner::textset::sorted_strings;

fn texts(list: &[&str]) -> Vec<String> {
    list.iter().map(|s| s.to_string()).collect()
}

#[test]
fn white_space_is_trimmed() {
    assert_eq!(text::trim(" \t a b \n\u{3000}"), "a b");
    assert_eq!(text::trim_start("  a "), "a ");
    assert_eq!(text::trim_end("  a "), "  a");
    assert_eq!(text::trim(""), "");
    assert!(text::is_white_space('\u{a0}'));
    assert!(!text::is_white_space('x'));
    assert_eq!(text::trim_char("**a**b*", '*'), "a**b");
    assert_eq!(text::trim_end_char("a//", '/'), "a");
    assert_eq!(text::trim_start_text("class class A", "class "), "A");
}

#[test]
fn characters_have_classes() {
    assert!(text::is_ascii_upper('Q') && !text::is_ascii_upper('q'));
    assert!(text::is_ascii_lower('q') && !text::is_ascii_lower('\u{e9}'));
    assert!(text::is_ascii_digit('7') && !text::is_ascii_digit('x'));
    assert!(text::is_ascii_alpha('z') && !text::is_ascii_alpha('_'));
    assert!(text::is_ascii_alnum('0') && !text::is_ascii_alnum('-'));
    assert_eq!(text::to_lower_char('\u{c9}'), '\u{c9}');
    assert_eq!(text::to_lower("A\u{c9}B"), "a\u{c9}b");
    assert!(text::eq_caseless("AbC", "aBc"));
    assert!(!text::eq_caseless("\u{c9}", "\u{e9}"));
}

#[test]
fn texts_are_cut_and_joined() {
    assert_eq!(text::split_words("  a \t b\n"), vec!["a", "b"]);
    assert_eq!(text::join(&texts(&["a", "b"]), ", "), "a, b");
    assert_eq!(text::join(&Vec::new(), ", "), "");
    assert_eq!(text::concat2("a", "b"), "ab");
    assert_eq!(text::concat3("a", "b", "c"), "abc");
    assert_eq!(text::last_part_of("a/b/c", '/'), "c");
    assert_eq!(text::first_part_of("a/b/c", '/'), "a");
    assert_eq!(text::last_part_of("abc", '/'), "abc");
    assert_eq!(text::behind_first_of("a/b/c", '/'), Some("b/c"));
    assert_eq!(text::behind_first_of("abc", '/'), None);
    assert_eq!(text::last_segment_of("a::b::c", "::"), "c");
}

#[test]
fn texts_are_searched() {
    assert_eq!(text::find_text("abcabc", "ca"), Some(2));
    assert_eq!(text::find_text("abc", ""), Some(0));
    assert_eq!(text::find_text("abc", "x"), None);
    assert!(text::contains_text("abc", "bc"));
    assert!(text::contains_char("abc", 'c'));
    assert!(text::starts_with("abc", "ab") && !text::starts_with("abc", "bc"));
    assert!(text::ends_with("abc", "bc") && !text::ends_with("c", "bc"));
    assert!(text::starts_at("abc", "bc", 1));
    assert_eq!(text::strip_prefix("abc", "ab"), Some("c"));
    assert_eq!(text::strip_prefix("abc", "b"), None);
    assert_eq!(text::strip_suffix("abc", "bc"), Some("a"));
    assert_eq!(text::replace_text("aXXbX", "XX", "-"), "a-bX");
    assert_eq!(text::replace_char("a\\b", '\\', "/"), "a/b");
    assert_eq!(text::bytes_in("a\u{e9}"), 3);
}

#[test]
fn numbers_are_written_and_read() {
    assert_eq!(text::decimal_u64(0), "0");
    assert_eq!(text::decimal_u64(u64::MAX), "18446744073709551615");
    assert_eq!(text::decimal_i64(i64::MIN), "-9223372036854775808");
    assert_eq!(text::parse_i64("-12"), Some(-12));
    assert_eq!(text::parse_i64("+7"), Some(7));
    assert_eq!(text::parse_i64("9223372036854775807"), Some(i64::MAX));
    assert_eq!(text::parse_i64("9223372036854775808"), None);
    assert_eq!(text::parse_i64("-9223372036854775808"), Some(i64::MIN));
    assert_eq!(text::parse_i64(""), None);
    assert_eq!(text::parse_i64("1x"), None);
    assert_eq!(text::parse_i64("-"), None);
}

#[test]
fn texts_are_ordered_and_kept_once() {
    assert!(text::is_less("a", "b") && text::is_less("a", "ab") && !text::is_less("b", "ab"));
    assert_eq!(sorted_strings(&texts(&["b", "a", "b", "\u{e9}", "Z"])), vec!["Z", "a", "b", "\u{e9}"]);
    assert!(text::list_contains(&texts(&["a", "b"]), "b"));
}

#[test]
fn a_map_remembers_the_order_of_its_keys() {
    let mut map: TextMap<u32> = TextMap::new();
    for n in 0..300u32 {
        map.insert(&format!("k{}", n % 100), n);
    }
    assert_eq!(map.len(), 100);
    assert_eq!(map.get("k7"), Some(&207));
    assert_eq!(map.get("k100"), None);
    assert_eq!(map.key_at(3), "k3");
    assert_eq!(*map.value_at(3), 203);
    assert!(map.contains("k99"));
    let mut lists: TextMap<Vec<u32>> = TextMap::new();
    lists.push_item("a", 1);
    lists.push_item("a", 2);
    assert_eq!(lists.get("a"), Some(&vec![1, 2]));
}

#[test]
fn patterns_are_prepared_for_full_text() {
    assert_eq!(search_tokens(" Foo_Bar-baz "), vec!["foo_bar-baz"]);
    assert_eq!(quoted_fts_term("a\"b"), "\"a\"\"b\"");
    assert!(should_use_symbol_fts("hero"));
    assert!(!should_use_symbol_fts("ab"));
    assert!(should_use_file_fts("hero"));
    assert_eq!(clamped(0, 1, 5), 1);
    assert_eq!(clamped(9, 1, 5), 5);
    assert_eq!(saturated_sum(usize::MAX, 3), usize::MAX);
}

fn row(name: &str, kind: &str, rank: i64, class_like: i64) -> SymbolRow {
    SymbolRow {
        name: name.to_string(),
        kind: kind.to_string(),
        owner_name: None,
        path: format!("C:/P/{name}.h"),
        line_number: Some(1),
        module_name: Some("Game".to_string()),
        name_lc: name.to_ascii_lowercase(),
        compact_name: name.to_ascii_lowercase().replace('_', ""),
        owner_name_lc: None,
        module_name_lc: Some("game".to_string()),
        kind_rank: rank,
        is_class_like: class_like,
    }
}

fn names(list: &[Item]) -> Vec<String> {
    list.iter().map(|i| i.text("name").to_string()).collect()
}

#[test]
fn the_name_that_was_asked_for_comes_first() {
    let rows = vec![
        row("HeroBase", "class", 0, 1),
        row("Hero", "function", 3, 0),
        row("hero", "class", 0, 1),
        row("AHero", "class", 0, 1),
    ];
    let files = vec![FileRow {
        basename: "Hero.h".to_string(),
        path: "C:/P/Hero.h".to_string(),
        module_name: None,
        module_root: None,
        basename_lc: "hero.h".to_string(),
        path_lc: "c:/p/hero.h".to_string(),
    }];
    let index = build_search_hot_index(&rows, &files);
    assert_eq!(names(&index.query(" HERO ", 10, 0, false)), vec!["Hero", "hero", "HeroBase"]);
    assert_eq!(names(&index.query("hero", 10, 0, true)), vec!["hero", "HeroBase"]);
    assert_eq!(names(&index.query("hero", 1, 1, false)), vec!["hero"]);
    assert_eq!(names(&index.query("hero.", 10, 0, false)), vec!["Hero.h"]);
    assert!(index.query_symbols_only("hero.", 10, 0, false).is_empty());
    assert!(index.query("  ", 10, 0, false).is_empty());
    assert!(index.query("nothing", 10, 0, false).is_empty());
}
