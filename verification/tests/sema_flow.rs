use tree_sitter::{Node, Parser};
use uscanner::sema::builder::build_sema;
use uscanner::sema::builtin::BuiltinTypeAliases;
use uscanner::sema::cfg::{build_cfg, BlockId, Cfg};
use uscanner::sema::dataflow::analyze;
use uscanner::sema::scope::{ScopeId, ScopeKind, ScopeTree};
use uscanner::sema::symbol::{ClassId, SymbolId, SymbolTable};
use uscanner::sema::types::{compat_rank, BuiltinType, Compat, TypeArena, TypeKind};
use uscanner::sema::syntax::{FieldName, NodeKind, SyntaxNode, SyntaxTree};

fn add_node(
    node: Node<'_>,
    field: Option<&str>,
    parent: Option<usize>,
    content: &str,
    out: &mut Vec<SyntaxNode>,
) -> usize {
    let id = out.len();
    let written = content.get(node.byte_range());
    let number = written.and_then(|s| s.trim_end_matches(['f', 'F']).parse::<f64>().ok());
    out.push(SyntaxNode {
        kind: NodeKind::from_name(node.kind()),
        named: node.is_named(),
        field: field.map(FieldName::from_name),
        text: written.map(|s| s.to_string()),
        nonzero: number.map(|n| n != 0.0),
        start_byte: node.start_byte(),
        end_byte: node.end_byte(),
        start_row: node.start_position().row,
        start_column: node.start_position().column,
        end_row: node.end_position().row,
        end_column: node.end_position().column,
        parent,
        children: Vec::new(),
    });
    let mut cursor = node.walk();
    let mut more = cursor.goto_first_child();
    while more {
        let child = add_node(cursor.node(), cursor.field_name(), Some(id), content, out);
        out[id].children.push(child);
        more = cursor.goto_next_sibling();
    }
    id
}

fn parse(content: &str) -> SyntaxTree {
    let mut parser = Parser::new();
    let language: tree_sitter::Language = tree_sitter_cpp::LANGUAGE.into();
    parser.set_language(&language).unwrap();
    let parsed = parser.parse(content, None).unwrap();
    let mut nodes = Vec::new();
    add_node(parsed.root_node(), None, None, content, &mut nodes);
    SyntaxTree::new(nodes).unwrap()
}

const ROOT: usize = 0;

#[test]
fn cfg_creates_branch_edges_for_if_statement() {
    let tree = parse("void Run(){ if (true) { return; } else { int32 Value = 0; } }");
    let function = tree.named_child(ROOT, 0).unwrap();
    let cfg = build_cfg(&tree, function);
    assert!(cfg.blocks.iter().any(|block| block.succ.len() >= 2));
}

#[test]
fn cfg_creates_loop_back_edge() {
    let tree = parse("void Run(){ while (true) { int32 Value = 0; } }");
    let function = tree.named_child(ROOT, 0).unwrap();
    let cfg = build_cfg(&tree, function);
    let has_back_edge = cfg
        .blocks
        .iter()
        .enumerate()
        .any(|(index, block)| block.succ.iter().any(|succ| succ.0 as usize <= index));
    assert!(has_back_edge);
}

fn graph(content: &str) -> Cfg {
    let tree = parse(content);
    build_cfg(&tree, tree.named_child(ROOT, 0).unwrap())
}

fn edges(cfg: &Cfg) -> Vec<Vec<u32>> {
    cfg.blocks.iter().map(|b| b.succ.iter().map(|s| s.0).collect()).collect()
}

#[test]
fn statements_follow_one_another() {
    let cfg = graph("void Run(){ int A = 1; A = 2; }");
    assert_eq!((cfg.entry, cfg.exit), (BlockId(0), BlockId(1)));
    assert_eq!(edges(&cfg), vec![vec![2], vec![], vec![3], vec![1]]);
    let (start, end) = cfg.blocks[2].stmts[0];
    assert_eq!((start, end), (12, 22));
}

#[test]
fn nothing_follows_a_return() {
    let cfg = graph("int Run(){ return 1; int A = 2; }");
    assert_eq!(edges(&cfg), vec![vec![2], vec![], vec![1]]);
}

#[test]
fn both_ways_of_a_branch_meet() {
    let cfg = graph("void Run(){ if (a) { b; } c; }");
    assert_eq!(edges(&cfg), vec![vec![2], vec![], vec![3, 4], vec![4], vec![1]]);
}

#[test]
fn a_loop_is_left_by_break_and_begun_anew_by_continue() {
    let cfg = graph("void Run(){ while (a) { if (b) { break; } continue; } }");
    assert_eq!(
        edges(&cfg),
        vec![vec![2], vec![], vec![3, 4], vec![1], vec![5, 6], vec![3], vec![2]]
    );
}

#[test]
fn every_edge_of_a_graph_leads_to_a_block() {
    let sources = [
        "void Run(){}",
        "void Run(){ switch (a) { case 1: b; break; default: c; } d; }",
        "void Run(){ for (;;) { if (a) { continue; } else { return; } } }",
        "void Run(){ do { throw 1; } while (a); }",
        "void Run(){ break; }",
    ];
    for source in sources {
        let cfg = graph(source);
        assert!(cfg.blocks[1].succ.is_empty(), "{source}");
        for block in &cfg.blocks {
            for (k, to) in block.succ.iter().enumerate() {
                assert!((to.0 as usize) < cfg.blocks.len(), "{source}");
                assert!(!block.succ[..k].contains(to), "{source}");
            }
        }
    }
}

fn words(list: &[&str]) -> Vec<String> {
    list.iter().map(|s| s.to_string()).collect()
}

fn issues(content: &str) -> Vec<(String, String)> {
    let mut names = BuiltinTypeAliases::new();
    names.extend_aliases(&words(&["void"]), BuiltinType::Void);
    names.extend_aliases(&words(&["int", "int32"]), BuiltinType::Int32);
    names.extend_aliases(&words(&["bool"]), BuiltinType::Bool);
    let tree = parse(content);
    let sema = build_sema(&tree, ROOT, content, names);
    analyze(&tree, ROOT, &sema, &words(&["FScopeLock", "TGuard"]))
        .into_iter()
        .flat_map(|r| r.issues)
        .map(|i| (i.code.to_string(), i.message))
        .collect()
}

fn issue(code: &str, message: &str) -> (String, String) {
    (format!("UECPP-DF-{code}"), message.to_string())
}

#[test]
fn unused_variables_are_reported() {
    assert_eq!(
        issues("void Run(){ int A = 1; int B = A + 0; }"),
        vec![issue("001", "Local variable B is never used.")]
    );
    assert!(issues("void Run(){ int _A = 1; FScopeLock Lock = 2; }").is_empty());
}

#[test]
fn use_before_a_value_is_reported() {
    assert_eq!(
        issues("void Run(){ int A; int _B = A + 0; }"),
        vec![issue("002", "Local variable A may be used before it is initialized.")]
    );
    assert!(issues("void Run(){ int A; A = 1; int _B = A + 0; }").is_empty());
}

#[test]
fn hiding_an_outer_variable_is_reported() {
    assert_eq!(
        issues("void Run(){ int A = 1; { int A = 2; A; } A; }"),
        vec![issue("003", "Local variable A shadows an outer declaration.")]
    );
}

#[test]
fn a_missing_return_is_reported() {
    assert_eq!(
        issues("int Run(){ if (x) { return 1; } }"),
        vec![issue("004", "Non-void function Run can reach the end without returning a value.")]
    );
    assert!(issues("int Run(){ if (x) { return 1; } else { return 2; } }").is_empty());
    assert!(issues("void Run(){ }").is_empty());
}

#[test]
fn conditions_that_never_change_are_reported() {
    assert_eq!(
        issues("void Run(){ if (1 + 1 == 2) { } }"),
        vec![issue("005", "Condition is always true.")]
    );
    assert_eq!(
        issues("void Run(){ const int A = 0x10; while (A < 16 || false) { } }"),
        vec![issue("005", "Condition is always false.")]
    );
    assert_eq!(
        issues("void Run(){ if (-(2 * 3) + 6) { } }"),
        vec![issue("005", "Condition is always false.")]
    );
    assert!(issues("void Run(){ if (1 / 0) { } if (x) { } }").is_empty());
}

#[test]
fn a_declared_symbol_is_found_in_its_scope() {
    let mut scopes = ScopeTree::new();
    let inner = scopes.add_scope(Some(scopes.global), ScopeKind::Block);
    assert_eq!(inner, ScopeId(1));
    scopes.declare(inner, "A".to_string(), SymbolId(4));
    scopes.declare(inner, "B".to_string(), SymbolId(5));
    scopes.declare(inner, "A".to_string(), SymbolId(6));
    assert_eq!(scopes.ids_named(inner, "A"), vec![SymbolId(4), SymbolId(6)]);
    assert!(scopes.ids_named(scopes.global, "A").is_empty());
    assert_eq!(scopes.parent_of(inner), Some(ScopeId(0)));
    assert!(scopes.get(ScopeId(7)).is_none());
    assert_eq!(scopes.len(), 2);
}

#[test]
fn a_scope_is_changed_in_place() {
    let mut scopes = ScopeTree::new();
    let inner = scopes.add_scope(Some(ScopeId(0)), ScopeKind::Block);
    scopes.get_mut(inner).unwrap().anon_count = 3;
    assert_eq!(scopes.get(inner).unwrap().anon_count, 3);
    assert_eq!(scopes.get(ScopeId(0)).unwrap().anon_count, 0);
    assert!(scopes.get_mut(ScopeId(7)).is_none());
}

#[test]
fn a_using_declaration_is_kept_once() {
    let mut scopes = ScopeTree::new();
    scopes.add_using(ScopeId(0), "a::b".to_string());
    scopes.add_using(ScopeId(0), "a::b".to_string());
    assert_eq!(scopes.get(ScopeId(0)).unwrap().using_decls, vec!["a::b"]);
}

#[test]
fn a_class_keeps_its_id() {
    let mut symbols = SymbolTable::new();
    let a = symbols.new_class_id("A");
    let b = symbols.new_class_id("B");
    assert_ne!(a, b);
    assert_eq!(symbols.new_class_id("A"), a);
    assert_eq!(symbols.class_id_by_name("B"), Some(b));
    assert_eq!(symbols.class_name(b), Some("B"));
    assert_eq!(symbols.class_name(ClassId(9)), None);
    assert_eq!(symbols.class_scope(a), None);
    symbols.set_class_scope(a, ScopeId(3));
    assert_eq!(symbols.class_scope(a), Some(ScopeId(3)));
    assert_eq!(symbols.new_enum_id("A").0, 0);
}

#[test]
fn a_type_is_stored_once() {
    let mut types = TypeArena::new();
    let before = types.len();
    let a = types.intern(TypeKind::Dependent("T".to_string()));
    let b = types.intern(TypeKind::Dependent("U".to_string()));
    assert_ne!(a, b);
    assert_eq!(types.intern(TypeKind::Dependent("T".to_string())), a);
    assert_eq!(types.len(), before + 2);
    assert_eq!(types.find(&TypeKind::Dependent("U".to_string())), Some(b));
    assert_eq!(types.find(&TypeKind::Dependent("V".to_string())), None);
}

#[test]
fn better_fits_rank_higher() {
    let ranks = [
        (Compat::Same, 5),
        (Compat::DerivedToBase, 4),
        (Compat::PointerToVoid, 3),
        (Compat::NumericPromote, 2),
        (Compat::NumericConvert, 1),
        (Compat::NullptrToPointer, 1),
        (Compat::Incompatible, 0),
    ];
    for (fit, rank) in ranks {
        assert_eq!(compat_rank(fit), rank);
    }
}
