use tree_sitter::{Node, Parser};
use uscanner::sema::builder::build_sema;
use uscanner::sema::builtin::BuiltinTypeAliases;
use uscanner::sema::syntax::{FieldName, NodeKind, SyntaxNode, SyntaxTree};
use uscanner::sema::symbol::SymbolKind;
use uscanner::sema::types::{same_kind, BuiltinType, TemplateArg, TypeId, TypeKind};
use uscanner::sema::template::{TemplateCallFailure, TemplateIndex};

fn texts(list: &[&str]) -> Vec<String> {
    list.iter().map(|s| s.to_string()).collect()
}

fn aliases() -> BuiltinTypeAliases {
    let mut names = BuiltinTypeAliases::new();
    names.extend_aliases(&texts(&["void"]), BuiltinType::Void);
    names.extend_aliases(&texts(&["bool"]), BuiltinType::Bool);
    names.extend_aliases(&texts(&["char", "TCHAR"]), BuiltinType::Char);
    names.extend_aliases(&texts(&["int", "int32"]), BuiltinType::Int32);
    names.extend_aliases(&texts(&["unsigned", "uint32"]), BuiltinType::UInt32);
    names.extend_aliases(&texts(&["float"]), BuiltinType::Float);
    names.extend_aliases(&texts(&["double"]), BuiltinType::Double);
    names
}

fn add_node(
    node: Node<'_>,
    field: Option<&str>,
    parent: Option<usize>,
    content: &str,
    out: &mut Vec<SyntaxNode>,
) -> usize {
    let id = out.len();
    let written = content.get(node.byte_range());
    let number = written.and_then(|s| s.trim_end_matches(['f', 'F']).parse::<f64>().ok());
    out.push(SyntaxNode {
        kind: NodeKind::from_name(node.kind()),
        named: node.is_named(),
        field: field.map(FieldName::from_name),
        text: written.map(|s| s.to_string()),
        nonzero: number.map(|n| n != 0.0),
        start_byte: node.start_byte(),
        end_byte: node.end_byte(),
        start_row: node.start_position().row,
        start_column: node.start_position().column,
        end_row: node.end_position().row,
        end_column: node.end_position().column,
        parent,
        children: Vec::new(),
    });
    let mut cursor = node.walk();
    let mut more = cursor.goto_first_child();
    while more {
        let child = add_node(cursor.node(), cursor.field_name(), Some(id), content, out);
        out[id].children.push(child);
        more = cursor.goto_next_sibling();
    }
    id
}

fn parse(content: &str) -> SyntaxTree {
    let mut parser = Parser::new();
    let language: tree_sitter::Language = tree_sitter_cpp::LANGUAGE.into();
    parser.set_language(&language).unwrap();
    let parsed = parser.parse(content, None).unwrap();
    let mut nodes = Vec::new();
    add_node(parsed.root_node(), None, None, content, &mut nodes);
    SyntaxTree::new(nodes).unwrap()
}

const ROOT: usize = 0;

fn first_of(tree: &SyntaxTree, kind: NodeKind) -> usize {
    (0..tree.nodes.len()).find(|n| tree.nodes[*n].kind == kind).unwrap()
}

fn first_call(tree: &SyntaxTree) -> usize {
    first_of(tree, NodeKind::CallExpression)
}

fn first_template_type(tree: &SyntaxTree) -> usize {
    first_of(tree, NodeKind::TemplateType)
}

#[test]
fn template_index_reports_deduction_fail() {
    let content = "template<typename T> void Pair(T A, T B) {} void Test(){ Pair(1, \"x\"); }";
    let tree = parse(content);
    let sema = build_sema(&tree, ROOT, content, aliases());
    let index = TemplateIndex::collect(&tree, ROOT, &sema);
    let analysis = index.analyze_call(&tree, first_call(&tree), &sema).unwrap();
    assert!(matches!(analysis.failure, TemplateCallFailure::DeductionFail));
}

#[test]
fn template_index_reports_explicit_arity_mismatch() {
    let content =
        "template<typename T> T Id(T Value) { return Value; } void Test(){ Id<int32, float>(1); }";
    let tree = parse(content);
    let sema = build_sema(&tree, ROOT, content, aliases());
    let index = TemplateIndex::collect(&tree, ROOT, &sema);
    let analysis = index.analyze_call(&tree, first_call(&tree), &sema).unwrap();
    assert!(matches!(
        analysis.failure,
        TemplateCallFailure::ExplicitArityMismatch
    ));
}

#[test]
fn template_index_reports_non_type_arg_mismatch() {
    let content = "template<int N> void Sized() {} void Test(){ Sized<int32>(); }";
    let tree = parse(content);
    let sema = build_sema(&tree, ROOT, content, aliases());
    let index = TemplateIndex::collect(&tree, ROOT, &sema);
    let analysis = index.analyze_call(&tree, first_call(&tree), &sema).unwrap();
    assert!(matches!(
        analysis.failure,
        TemplateCallFailure::NonTypeArgMismatch
    ));
}

#[test]
fn template_index_tracks_specialization_conflicts() {
    let content = r#"
template<typename T> void Spec(T Value) {}
template<> void Spec<int32>(int32 Value) {}
template<> void Spec<int32>(int32 Value) {}
"#;
    let tree = parse(content);
    let sema = build_sema(&tree, ROOT, content, aliases());
    let index = TemplateIndex::collect(&tree, ROOT, &sema);
    assert_eq!(index.specialization_conflicts().len(), 1);
    assert_eq!(index.specialization_conflict_entries().len(), 2);
}

#[test]
fn template_index_validates_class_template_arg_kind() {
    let content = "template<int N> struct Sized {}; Sized<int32> Value;";
    let tree = parse(content);
    let sema = build_sema(&tree, ROOT, content, aliases());
    let index = TemplateIndex::collect(&tree, ROOT, &sema);
    let analysis = index
        .analyze_template_type(&tree, first_template_type(&tree), &sema)
        .unwrap();
    assert!(matches!(
        analysis.failure,
        TemplateCallFailure::NonTypeArgMismatch
    ));
}

#[test]
fn template_index_deduces_class_template_ctor_type() {
    let content = "template<typename T> struct Box { Box(T Value) {} }; Box<int32> Seed(); void Test(){ Box(1); }";
    let tree = parse(content);
    let sema = build_sema(&tree, ROOT, content, aliases());
    let index = TemplateIndex::collect(&tree, ROOT, &sema);
    let ty = index
        .infer_call_return_type(&tree, first_call(&tree), &sema)
        .and_then(|id| sema.render_type(id))
        .unwrap();
    assert_eq!(ty, "Box<int32>");
}

#[test]
fn template_index_resolves_alias_in_explicit_template_args() {
    let content =
        "using FCount = int32; template<typename T> T Id(T Value) { return Value; } void Test(){ Id<FCount>(1); }";
    let tree = parse(content);
    let sema = build_sema(&tree, ROOT, content, aliases());
    let index = TemplateIndex::collect(&tree, ROOT, &sema);
    let ty = index
        .infer_call_return_type(&tree, first_call(&tree), &sema)
        .and_then(|id| sema.render_type(id))
        .unwrap();
    assert_eq!(ty, "FCount");
}

#[test]
fn template_index_resolves_namespace_qualified_template_call() {
    let content = "namespace UE::Math { template<typename T> T Id(T Value) { return Value; } } void Test(){ UE::Math::Id<int32>(1); }";
    let tree = parse(content);
    let sema = build_sema(&tree, ROOT, content, aliases());
    let index = TemplateIndex::collect(&tree, ROOT, &sema);
    let call = first_call(&tree);
    let ty = index
        .infer_call_return_type(&tree, call, &sema)
        .and_then(|id| sema.render_type(id))
        .unwrap();
    assert_eq!(ty, "int32");
}

#[test]
fn template_index_deduces_nested_pointer_reference_template_param() {
    let content =
        "template<typename T> T* Id(T*& Value) { return Value; } int32 Test(int32* Ptr) { return *Id(Ptr); }";
    let tree = parse(content);
    let sema = build_sema(&tree, ROOT, content, aliases());
    let index = TemplateIndex::collect(&tree, ROOT, &sema);
    let ty = index
        .infer_call_return_type(&tree, first_call(&tree), &sema)
        .and_then(|id| sema.render_type(id))
        .unwrap();
    assert_eq!(ty, "int32*");
}

#[test]
fn template_index_accepts_alias_type_argument_in_template_type() {
    let content = "using FCount = int32; template<typename T> struct Box {}; Box<FCount> Value;";
    let tree = parse(content);
    let sema = build_sema(&tree, ROOT, content, aliases());
    let index = TemplateIndex::collect(&tree, ROOT, &sema);
    let analysis = index.analyze_template_type(&tree, first_template_type(&tree), &sema);
    assert!(analysis.is_none());
}

#[test]
fn template_index_accepts_namespace_qualified_template_type() {
    let content =
        "namespace UE::Math { template<typename T> struct Box {}; } UE::Math::Box<int32> Value;";
    let tree = parse(content);
    let sema = build_sema(&tree, ROOT, content, aliases());
    let index = TemplateIndex::collect(&tree, ROOT, &sema);
    let analysis = index.analyze_template_type(&tree, first_template_type(&tree), &sema);
    assert!(analysis.is_none());
}

#[test]
fn template_index_reports_sfinae_rejected_class_template_type() {
    let content =
        "template<typename T> requires false struct Box {}; Box<int32> Value;";
    let tree = parse(content);
    let sema = build_sema(&tree, ROOT, content, aliases());
    let index = TemplateIndex::collect(&tree, ROOT, &sema);
    let analysis = index
        .analyze_template_type(&tree, first_template_type(&tree), &sema)
        .unwrap();
    assert!(matches!(
        analysis.failure,
        TemplateCallFailure::SfinaeRejected
    ));
}

#[test]
fn template_index_accepts_explicit_class_specialization_type() {
    let content =
        "template<typename T> struct Box {}; template<> struct Box<int32> {}; Box<int32> Value;";
    let tree = parse(content);
    let sema = build_sema(&tree, ROOT, content, aliases());
    let index = TemplateIndex::collect(&tree, ROOT, &sema);
    let analysis = index.analyze_template_type(&tree, first_template_type(&tree), &sema);
    assert!(analysis.is_none());
}

#[test]
fn template_index_accepts_alias_to_explicit_class_specialization_type() {
    let content =
        "using FCount = int32; template<typename T> struct Box {}; template<> struct Box<int32> {}; Box<FCount> Value;";
    let tree = parse(content);
    let sema = build_sema(&tree, ROOT, content, aliases());
    let index = TemplateIndex::collect(&tree, ROOT, &sema);
    let analysis = index.analyze_template_type(&tree, first_template_type(&tree), &sema);
    assert!(analysis.is_none());
}

#[test]
fn template_index_accepts_namespace_qualified_explicit_class_specialization_type() {
    let content =
        "namespace UE::Math { template<typename T> struct Box {}; template<> struct Box<int32> {}; } UE::Math::Box<int32> Value;";
    let tree = parse(content);
    let sema = build_sema(&tree, ROOT, content, aliases());
    let index = TemplateIndex::collect(&tree, ROOT, &sema);
    let analysis = index.analyze_template_type(&tree, first_template_type(&tree), &sema);
    assert!(analysis.is_none());
}

#[test]
fn template_index_infers_enable_if_true_return_type() {
    let content =
        "template<typename T> std::enable_if_t<true, T> Only(T Value) { return Value; } void Test(){ Only(1); }";
    let tree = parse(content);
    let sema = build_sema(&tree, ROOT, content, aliases());
    let index = TemplateIndex::collect(&tree, ROOT, &sema);
    let ty = index
        .infer_call_return_type(&tree, first_call(&tree), &sema)
        .and_then(|id| sema.render_type(id))
        .unwrap();
    assert_eq!(ty, "int32");
}

#[test]
fn template_index_reports_requires_clause_with_extra_spacing_as_sfinae_rejected() {
    let content =
        "template<typename T> requires   false struct Box {}; Box<int32> Value;";
    let tree = parse(content);
    let sema = build_sema(&tree, ROOT, content, aliases());
    let index = TemplateIndex::collect(&tree, ROOT, &sema);
    let analysis = index
        .analyze_template_type(&tree, first_template_type(&tree), &sema)
        .unwrap();
    assert!(matches!(
        analysis.failure,
        TemplateCallFailure::SfinaeRejected
    ));
}

#[test]
fn template_index_accepts_default_type_param_in_template_type() {
    let content = "template<typename T = int32> struct Box {}; Box<> Value;";
    let tree = parse(content);
    let sema = build_sema(&tree, ROOT, content, aliases());
    let index = TemplateIndex::collect(&tree, ROOT, &sema);
    let analysis = index.analyze_template_type(&tree, first_template_type(&tree), &sema);
    assert!(analysis.is_none());
}

#[test]
fn template_index_accepts_default_type_param_in_template_call() {
    let content =
        "template<typename T = int32> T Id(T Value) { return Value; } void Test(){ Id<>(1); }";
    let tree = parse(content);
    let sema = build_sema(&tree, ROOT, content, aliases());
    let index = TemplateIndex::collect(&tree, ROOT, &sema);
    let ty = index
        .infer_call_return_type(&tree, first_call(&tree), &sema)
        .and_then(|id| sema.render_type(id))
        .unwrap();
    assert_eq!(ty, "int32");
}

#[test]
fn template_index_uses_default_type_param_without_explicit_brackets() {
    let content =
        "template<typename T = int32> T Make() { return 1; } int32 Test(){ return Make(); }";
    let tree = parse(content);
    let sema = build_sema(&tree, ROOT, content, aliases());
    let index = TemplateIndex::collect(&tree, ROOT, &sema);
    let ty = index
        .infer_call_return_type(&tree, first_call(&tree), &sema)
        .and_then(|id| sema.render_type(id))
        .unwrap();
    assert_eq!(ty, "int32");
}

#[test]
fn template_index_prefers_deduced_type_over_default_param() {
    let content =
        "template<typename T = int32> T Id(T Value) { return Value; } float Test(){ return Id(1.0f); }";
    let tree = parse(content);
    let sema = build_sema(&tree, ROOT, content, aliases());
    let index = TemplateIndex::collect(&tree, ROOT, &sema);
    let ty = index
        .infer_call_return_type(&tree, first_call(&tree), &sema)
        .and_then(|id| sema.render_type(id))
        .unwrap();
    assert_eq!(ty, "float");
}

#[test]
fn template_index_accepts_default_non_type_param_in_template_type() {
    let content = "template<int N = 4> struct Sized {}; Sized<> Value;";
    let tree = parse(content);
    let sema = build_sema(&tree, ROOT, content, aliases());
    let index = TemplateIndex::collect(&tree, ROOT, &sema);
    let analysis = index.analyze_template_type(&tree, first_template_type(&tree), &sema);
    assert!(analysis.is_none());
}

#[test]
fn template_index_uses_default_non_type_param_without_explicit_brackets() {
    let content =
        "template<int N = 4> int32 Make() { return N; } int32 Test(){ return Make(); }";
    let tree = parse(content);
    let sema = build_sema(&tree, ROOT, content, aliases());
    let index = TemplateIndex::collect(&tree, ROOT, &sema);
    let ty = index
        .infer_call_return_type(&tree, first_call(&tree), &sema)
        .and_then(|id| sema.render_type(id))
        .unwrap();
    assert_eq!(ty, "int32");
}

#[test]
fn conflicting_specializations_are_listed_under_their_keys() {
    let content = r#"
template<typename T> void Spec(T Value) {}
template<> void Spec<int32>(int32 Value) {}
template<> void Spec<float>(float Value) {}
template<> void Spec<bool>(bool Value) {}
template<> void Spec<int32>(int32 Value) {}
template<> void Spec<bool>(bool Value) {}
template<> void Spec<int32>(int32 Value) {}
"#;
    let tree = parse(content);
    let sema = build_sema(&tree, ROOT, content, aliases());
    let index = TemplateIndex::collect(&tree, ROOT, &sema);
    let keys = index.specialization_conflicts();
    let entries = index.specialization_conflict_entries();
    assert_eq!(keys.len(), 2);
    assert_ne!(keys[0], keys[1]);
    let found: Vec<&String> = entries.iter().map(|entry| &entry.0).collect();
    assert_eq!(found, vec![&keys[0], &keys[0], &keys[0], &keys[1], &keys[1]]);
}

#[test]
fn types_of_a_source_are_made_of_earlier_ones() {
    let content = "template<typename T> struct TBox { T Value; T* Ptr; }; struct FItem {}; \
        typedef FItem* FItemPtr; TBox<FItem> Make(const FItem& A, int32 B); \
        void Test(){ TBox<TBox<char>> Deep; FItemPtr P; }";
    let tree = parse(content);
    let sema = build_sema(&tree, ROOT, content, aliases());
    let types = &sema.types.types;
    for (k, kind) in types.iter().enumerate() {
        let before = |id: &TypeId| (id.0 as usize) < k;
        assert!(match kind {
            TypeKind::Pointer { pointee, .. } => before(pointee),
            TypeKind::Reference { referent, .. } => before(referent),
            TypeKind::Array { elem, .. } => before(elem),
            TypeKind::Function { return_t, params, .. } => {
                before(return_t) && params.iter().all(before)
            }
            TypeKind::Typedef { aliased, .. } => before(aliased),
            TypeKind::Template { args, .. } => args.iter().all(|a| match a {
                TemplateArg::Type(t) => before(t),
                TemplateArg::Value(_) => true,
            }),
            _ => true,
        });
        assert!(types[..k].iter().all(|other| !same_kind(other, kind)));
    }
    assert!(types.iter().any(|k| matches!(k, TypeKind::Template { .. })));
    assert!(types.iter().any(|k| matches!(k, TypeKind::Typedef { .. })));
    let known = |id: &TypeId| (id.0 as usize) < types.len();
    for symbol in &sema.symbols.symbols {
        assert!(match &symbol.kind {
            SymbolKind::Class { type_id, parents, .. } => {
                known(type_id) && parents.iter().all(known)
            }
            SymbolKind::Field { type_id, .. } => known(type_id),
            SymbolKind::Typedef { type_id } => known(type_id),
            SymbolKind::Variable { type_id, .. } => known(type_id),
            SymbolKind::Function { decls } => decls.iter().all(|d| known(&d.type_id)),
            _ => true,
        });
    }
}

#[test]
fn instances_lie_as_deep_as_they_are_written() {
    let mut content = "template<typename T> struct W0 { T Value; };".to_string();
    for k in 1..=300 {
        content += &format!(" template<typename T> struct W{k} {{ W{}<T> Inner; }};", k - 1);
    }
    content += " W300<bool> Deep;";
    let tree = parse(&content);
    let sema = build_sema(&tree, ROOT, &content, aliases());
    let flag = sema.types.bool_t;
    for k in 0..=300 {
        let instance = TypeKind::Template {
            base: format!("W{k}"),
            args: vec![TemplateArg::Type(flag)],
        };
        assert!(sema.types.types.iter().any(|kind| same_kind(kind, &instance)));
    }
}
