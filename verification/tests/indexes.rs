use uscanner::query::macro_index::{build_macro_hot_index, MacroRow};
use uscanner::query::member_index::{
    build_member_hot_index, clean_type, encode_flags, ClassRow, EnumValueRow, HotMemberItem,
    MemberAccess, MemberHotIndex, MemberKind, MemberRow, ParentRow,
};

fn macro_row(name: &str) -> MacroRow {
    MacroRow {
        name: name.to_string(),
        is_function_like: true,
        parameters: Some("...".to_string()),
        detail: Some(format!("#define {name}(...)")),
    }
}

#[test]
fn macro_hot_index_matches_prefix() {
    let index = build_macro_hot_index(&vec![macro_row("GENERATED_BODY"), macro_row("UPROPERTY")]);
    let items = index.lookup_by_prefix("UP", 8);
    assert_eq!(items.len(), 1);
    assert_eq!(items[0].name, "UPROPERTY");
    assert!(items[0].is_function_like);
}

#[test]
fn macros_are_found_whatever_the_case_and_up_to_the_limit() {
    let rows = vec![macro_row("UCLASS"), macro_row("UENUM"), macro_row("UPARAM")];
    let index = build_macro_hot_index(&rows);
    assert_eq!(index.size_hint(), 3);
    let names: Vec<String> =
        index.lookup_by_prefix("u", 2).into_iter().map(|item| item.name).collect();
    assert_eq!(names, vec!["UCLASS", "UENUM"]);
    assert!(index.lookup_by_prefix("X", 8).is_empty());
    let found = index.lookup_by_prefix("uenum", 8);
    assert_eq!(found[0].parameters.as_deref(), Some("..."));
    assert_eq!(found[0].detail.as_deref(), Some("#define UENUM(...)"));
}

fn class(class_id: i32, name: &str) -> ClassRow {
    ClassRow { class_id, name: name.to_string() }
}

fn member(owner_class_id: i32, name: &str, access: &str) -> MemberRow {
    MemberRow {
        owner_class_id,
        name: name.to_string(),
        member_type: "function".to_string(),
        return_type: None,
        access: Some(access.to_string()),
        detail: None,
        is_static: false,
        line: 0,
        file_id: None,
        file_path: None,
    }
}

fn parent(child_id: i32, parent_class_id: i32, parent_name: &str) -> ParentRow {
    ParentRow { child_id, parent_class_id, parent_name: parent_name.to_string() }
}

fn names_of<'a>(index: &'a MemberHotIndex, items: &[HotMemberItem<'a>]) -> Vec<&'a str> {
    items
        .iter()
        .filter_map(|item| match item {
            HotMemberItem::Member { entry, .. } => Some(index.member_name(entry)),
            HotMemberItem::EnumValue { .. } => None,
        })
        .collect()
}

#[test]
fn member_hot_index_collects_inherited_members() {
    let index = build_member_hot_index(
        &vec![class(1, "UBase"), class(2, "UChild")],
        &vec![member(1, "ParentFn", "public"), member(2, "ChildFn", "public")],
        &Vec::new(),
        &vec![parent(2, 1, "UBase")],
    );
    let items = index.collect_members_recursive("UChild", true, 128);
    let names = names_of(&index, &items);

    assert!(names.contains(&"ChildFn"));
    assert!(names.contains(&"ParentFn"));
}

#[test]
fn member_hot_index_decodes_flags_and_file_paths() {
    let mut visible_row = member(1, "VisibleFn", "protected");
    visible_row.return_type = Some("void".to_string());
    visible_row.detail = Some("(int32 Value)".to_string());
    visible_row.is_static = true;
    visible_row.line = 42;
    visible_row.file_id = Some(1);
    visible_row.file_path = Some("/Project/Source/UTest.h".to_string());
    let mut hidden_row = member(1, "HiddenFn", "impl");
    hidden_row.line = 43;

    let index = build_member_hot_index(
        &vec![class(1, "UTest")],
        &vec![visible_row, hidden_row],
        &Vec::new(),
        &Vec::new(),
    );
    let items = index.collect_members_recursive("UTest", true, 128);
    let visible = items
        .iter()
        .find_map(|item| match item {
            HotMemberItem::Member { entry, .. } if index.member_name(entry) == "VisibleFn" => {
                Some(*entry)
            }
            _ => None,
        })
        .unwrap();

    assert_eq!(visible.access(), MemberAccess::Protected);
    assert!(visible.is_static());
    assert_eq!(visible.line_number(), Some(42));
    assert_eq!(index.member_owner_class_name(&visible), Some("UTest"));
    assert_eq!(index.member_return_type(&visible), Some("void"));
    assert_eq!(index.member_detail(&visible), Some("(int32 Value)"));
    assert_eq!(index.member_file_path(&visible), Some("/Project/Source/UTest.h"));

    let filtered = index.collect_members_recursive("UTest", false, 128);
    let filtered_names = names_of(&index, &filtered);

    assert!(filtered_names.contains(&"VisibleFn"));
    assert!(!filtered_names.contains(&"HiddenFn"));
}

#[test]
fn a_circle_of_parents_is_walked_once() {
    let index = build_member_hot_index(
        &vec![class(1, "A"), class(2, "B")],
        &vec![member(1, "FromA", "public"), member(2, "FromB", "public")],
        &Vec::new(),
        &vec![parent(1, 2, "B"), parent(2, 1, "A")],
    );
    let items = index.collect_members_recursive("A", true, 128);
    assert_eq!(names_of(&index, &items), vec!["FromA", "FromB"]);
    assert!(index.is_subclass_of("A", "B"));
    assert!(index.is_subclass_of("B", "A"));
    assert!(!index.is_subclass_of("A", "C"));
}

#[test]
fn the_parents_of_a_class_are_listed() {
    let index = build_member_hot_index(
        &vec![class(1, "UBase"), class(2, "UChild")],
        &Vec::new(),
        &Vec::new(),
        &vec![parent(2, 1, "UBase"), parent(2, 0, "IOther")],
    );
    let parents: Vec<i32> = index.parent_classes(2).iter().map(|p| p.parent_class_id).collect();
    assert_eq!(parents, vec![1, 0]);
    assert!(index.parent_classes(1).is_empty());
    assert!(index.parent_classes(i64::from(i32::MAX) + 1).is_empty());
}

#[test]
fn members_are_seen_by_those_who_may() {
    let index = build_member_hot_index(
        &vec![class(1, "UBase"), class(2, "UChild"), class(3, "UOther")],
        &Vec::new(),
        &Vec::new(),
        &vec![parent(2, 1, "UBase")],
    );
    let private = encode_flags(false, Some("private"));
    let protected = encode_flags(false, Some("protected"));
    let public = encode_flags(false, None);
    assert!(index.is_member_accessible(1, "UBase", private, false));
    assert!(!index.is_member_accessible(1, "UChild", private, false));
    assert!(index.is_member_accessible(1, "UChild", protected, false));
    assert!(!index.is_member_accessible(1, "UOther", protected, false));
    assert!(index.is_member_accessible(1, "UOther", public, false));
    assert!(index.is_member_accessible(1, "", public, false));
    assert!(!index.is_member_accessible(1, "", protected, false));
}

#[test]
fn values_of_enums_are_listed_and_limits_are_kept() {
    let index = build_member_hot_index(
        &vec![class(1, "EColor")],
        &Vec::new(),
        &vec![
            EnumValueRow { owner_class_id: 1, name: "Red".to_string() },
            EnumValueRow { owner_class_id: 1, name: "Green".to_string() },
        ],
        &Vec::new(),
    );
    let items = index.collect_members_recursive("EColor", true, 1);
    assert_eq!(items.len(), 1);
    match items[0] {
        HotMemberItem::EnumValue { entry, .. } => assert_eq!(index.enum_value_name(entry), "Red"),
        HotMemberItem::Member { .. } => panic!("a value was expected"),
    }
}

#[test]
fn types_are_looked_up_without_what_surrounds_them() {
    assert_eq!(clean_type("const class UFoo*"), "class UFoo");
    assert_eq!(clean_type("class UFoo&"), "UFoo");
    assert_eq!(clean_type("  const const FVector & "), "FVector");
    assert_eq!(MemberKind::from_text("function"), MemberKind::Function);
}

#[test]
fn decorated_names_stand_for_the_class() {
    let index = build_member_hot_index(
        &vec![class(1, "UFoo"), class(2, "Outer::Inner"), class(3, "Inner")],
        &Vec::new(),
        &Vec::new(),
        &Vec::new(),
    );
    for written in
        ["UFoo", " UFoo ", "class UFoo", "struct UFoo", "const UFoo", "const UFoo&", "UFoo*", "UFoo *&"]
    {
        assert_eq!(index.class_ids_by_name(written), vec![1], "{written}");
    }
    assert_eq!(index.class_ids_by_name("Outer::Inner"), vec![2]);
    assert_eq!(index.class_ids_by_name("Other::Inner"), vec![3]);
    assert!(index.class_ids_by_name("  ").is_empty());
    assert!(index.class_ids_by_name("UMissing").is_empty());
}

#[test]
fn shorter_listings_begin_longer_ones() {
    let index = build_member_hot_index(
        &vec![class(1, "UBase"), class(2, "UChild")],
        &vec![
            member(1, "Base1", "public"),
            member(1, "Hidden", "impl"),
            member(2, "Child1", "public"),
            member(2, "Child1", "public"),
        ],
        &vec![EnumValueRow { owner_class_id: 2, name: "Value".to_string() }],
        &vec![parent(2, 1, "UBase")],
    );
    let all = index.collect_members_recursive_from_ids(&[2], false, 100);
    assert_eq!(names_of(&index, &all), vec!["Child1", "Child1", "Base1"]);
    assert_eq!(all.len(), 4);
    let ranks: Vec<usize> = all
        .iter()
        .map(|item| match item {
            HotMemberItem::Member { class_rank, .. } => *class_rank,
            HotMemberItem::EnumValue { class_rank, .. } => *class_rank,
        })
        .collect();
    assert_eq!(ranks, vec![0, 0, 0, 1]);
    for n in 1..=5 {
        let some = index.collect_members_recursive_from_ids(&[2], false, n);
        assert_eq!(some.len(), n.min(4));
        assert_eq!(names_of(&index, &some), names_of(&index, &all[..some.len()]));
    }
    assert_eq!(index.collect_members_recursive_from_ids(&[2], true, 100).len(), 5);
}

#[test]
fn subclasses_follow_the_rows_of_inheritance() {
    let index = build_member_hot_index(
        &vec![class(1, "A"), class(2, "B"), class(3, "C"), class(4, "D")],
        &Vec::new(),
        &Vec::new(),
        &vec![parent(1, 0, "B"), parent(2, 3, ""), parent(4, 0, "Missing")],
    );
    assert!(index.is_subclass_of("A", "A"));
    assert!(index.is_subclass_of("A", "B"));
    assert!(index.is_subclass_of("B", "C"));
    assert!(index.is_subclass_of("A", "C"));
    assert!(!index.is_subclass_of("C", "A"));
    assert!(!index.is_subclass_of("D", "C"));
    assert!(!index.is_subclass_of("D", "Missing"));
}

#[test]
fn a_parent_of_the_same_name_is_met_already() {
    let index = build_member_hot_index(
        &vec![class(1, "UItem"), class(2, " UItem "), class(3, "UOther")],
        &vec![
            member(1, "Far", "public"),
            member(2, "Near", "public"),
            member(3, "UItem", "public"),
        ],
        &Vec::new(),
        &vec![parent(2, 1, "UItem"), parent(2, 3, "UOther"), parent(3, 1, "UItem ")],
    );
    let items = index.collect_members_recursive_from_ids(&[2], true, 100);
    assert_eq!(names_of(&index, &items), vec!["Near", "UItem"]);
    let from_other = index.collect_members_recursive_from_ids(&[3], true, 100);
    assert_eq!(names_of(&index, &from_other), vec!["UItem", "Far"]);
}
