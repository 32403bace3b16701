use tree_sitter::{Node, Parser};
use uscanner::sema::builder::build_sema;
use uscanner::sema::builtin::BuiltinTypeAliases;
use uscanner::sema::expr::type_of_expression;
use uscanner::sema::lookup::{lookup_call_name, lookup_name};
use uscanner::sema::overload::{resolve_call, CallResult};
use uscanner::sema::scope::ScopeId;
use uscanner::sema::syntax::{FieldName, NodeKind, SyntaxNode, SyntaxTree};
use uscanner::sema::types::{BuiltinType, TypeKind};

fn texts(list: &[&str]) -> Vec<String> {
    list.iter().map(|s| s.to_string()).collect()
}

fn aliases() -> BuiltinTypeAliases {
    let mut names = BuiltinTypeAliases::new();
    names.extend_aliases(&texts(&["void"]), BuiltinType::Void);
    names.extend_aliases(&texts(&["bool"]), BuiltinType::Bool);
    names.extend_aliases(&texts(&["char", "TCHAR"]), BuiltinType::Char);
    names.extend_aliases(&texts(&["int", "int32"]), BuiltinType::Int32);
    names.extend_aliases(&texts(&["unsigned", "uint32"]), BuiltinType::UInt32);
    names.extend_aliases(&texts(&["float"]), BuiltinType::Float);
    names.extend_aliases(&texts(&["double"]), BuiltinType::Double);
    names
}

fn add_node(
    node: Node<'_>,
    field: Option<&str>,
    parent: Option<usize>,
    content: &str,
    out: &mut Vec<SyntaxNode>,
) -> usize {
    let id = out.len();
    let written = content.get(node.byte_range());
    let number = written.and_then(|s| s.trim_end_matches(['f', 'F']).parse::<f64>().ok());
    out.push(SyntaxNode {
        kind: NodeKind::from_name(node.kind()),
        named: node.is_named(),
        field: field.map(FieldName::from_name),
        text: written.map(|s| s.to_string()),
        nonzero: number.map(|n| n != 0.0),
        start_byte: node.start_byte(),
        end_byte: node.end_byte(),
        start_row: node.start_position().row,
        start_column: node.start_position().column,
        end_row: node.end_position().row,
        end_column: node.end_position().column,
        parent,
        children: Vec::new(),
    });
    let mut cursor = node.walk();
    let mut more = cursor.goto_first_child();
    while more {
        let child = add_node(cursor.node(), cursor.field_name(), Some(id), content, out);
        out[id].children.push(child);
        more = cursor.goto_next_sibling();
    }
    id
}

fn parse(content: &str) -> SyntaxTree {
    let mut parser = Parser::new();
    let language: tree_sitter::Language = tree_sitter_cpp::LANGUAGE.into();
    parser.set_language(&language).unwrap();
    let parsed = parser.parse(content, None).unwrap();
    let mut nodes = Vec::new();
    add_node(parsed.root_node(), None, None, content, &mut nodes);
    SyntaxTree::new(nodes).unwrap()
}

const ROOT: usize = 0;

fn find_identifier(tree: &SyntaxTree, name: &str) -> Option<usize> {
    (1..tree.nodes.len()).find(|n| {
        matches!(
            tree.nodes[*n].kind,
            NodeKind::Identifier | NodeKind::FieldIdentifier | NodeKind::TypeIdentifier
        ) && tree.nodes[*n].text.as_deref() == Some(name)
    })
}

fn find_first_kind(tree: &SyntaxTree, kind: &str) -> Option<usize> {
    let kind = NodeKind::from_name(kind);
    (0..tree.nodes.len()).find(|n| tree.nodes[*n].kind == kind)
}

#[test]
fn sema_lookup_resolves_local_variable() {
    let content = "void Run() { int32 Value = 1; Value; }";
    let tree = parse(content);
    let sema = build_sema(&tree, ROOT, content, aliases());
    let node = find_identifier(&tree, "Value").unwrap();
    assert!(sema.symbol_exists_at_node(&tree, node, "Value"));
}

#[test]
fn sema_expr_resolves_field_type() {
    let content = "class UFoo { public: int32 Count; void Run() { Count; } };";
    let tree = parse(content);
    let sema = build_sema(&tree, ROOT, content, aliases());
    let node = find_identifier(&tree, "Count").unwrap();
    let ty = type_of_expression(&sema, &tree, node)
        .and_then(|id| sema.render_type(id))
        .unwrap();
    assert_eq!(ty, "int32");
}

#[test]
fn sema_expr_resolves_template_call_return_type() {
    let content =
        "template<typename T> T Id(T Value) { return Value; } void Test() { Id<int32>(1); }";
    let tree = parse(content);
    let sema = build_sema(&tree, ROOT, content, aliases());
    let call = find_first_kind(&tree, "call_expression").unwrap();
    let ty = type_of_expression(&sema, &tree, call)
        .and_then(|id| sema.render_type(id))
        .unwrap();
    assert_eq!(ty, "int32");
}

#[test]
fn sema_expr_resolves_subscript_element_type() {
    let content = "int32 Test(int32* Values) { return Values[0]; }";
    let tree = parse(content);
    let sema = build_sema(&tree, ROOT, content, aliases());
    let node = find_first_kind(&tree, "subscript_expression").unwrap();
    let ty = type_of_expression(&sema, &tree, node)
        .and_then(|id| sema.render_type(id))
        .unwrap();
    assert_eq!(ty, "int32");
}

#[test]
fn sema_lookup_resolves_namespace_qualified_function() {
    let content = "namespace UE::Math { int32 Value(); } int32 Test() { return UE::Math::Value(); }";
    let tree = parse(content);
    let sema = build_sema(&tree, ROOT, content, aliases());
    let node = find_first_kind(&tree, "qualified_identifier").unwrap();
    let symbols = sema.lookup_qualified_name_at_node(&tree, node, &["UE", "Math", "Value"]);
    assert!(!symbols.is_empty());
}

#[test]
fn sema_expr_resolves_namespace_qualified_call_return_type() {
    let content = "namespace UE::Math { int32 Value(); } int32 Test() { return UE::Math::Value(); }";
    let tree = parse(content);
    let sema = build_sema(&tree, ROOT, content, aliases());
    let call = find_first_kind(&tree, "call_expression").unwrap();
    let ty = type_of_expression(&sema, &tree, call)
        .and_then(|id| sema.render_type(id))
        .unwrap();
    assert_eq!(ty, "int32");
}

#[test]
fn sema_lookup_resolves_using_declaration_target() {
    let content =
        "namespace UE::Math { int32 Value(); } using UE::Math::Value; int32 Test() { return Value(); }";
    let tree = parse(content);
    let sema = build_sema(&tree, ROOT, content, aliases());
    let node = find_identifier(&tree, "Value").unwrap();
    assert!(sema.symbol_exists_at_node(&tree, node, "Value"));
}

#[test]
fn sema_lookup_resolves_using_namespace_target() {
    let content =
        "namespace UE::Math { int32 Value(); } using namespace UE::Math; int32 Test() { return Value(); }";
    let tree = parse(content);
    let sema = build_sema(&tree, ROOT, content, aliases());
    let node = find_identifier(&tree, "Value").unwrap();
    assert!(sema.symbol_exists_at_node(&tree, node, "Value"));
}

#[test]
fn sema_expr_resolves_typedef_alias_variable_type() {
    let content = "using FCount = int32; void Test() { FCount Value = 1; Value; }";
    let tree = parse(content);
    let sema = build_sema(&tree, ROOT, content, aliases());
    let node = find_identifier(&tree, "Value").unwrap();
    let ty = type_of_expression(&sema, &tree, node)
        .and_then(|id| sema.render_type(id))
        .unwrap();
    assert_eq!(ty, "FCount");
}

#[test]
fn sema_expr_resolves_member_on_namespace_qualified_class_type() {
    let content =
        "namespace UE::Math { class Vec { public: int32 X; }; } void Test() { UE::Math::Vec Value; Value.X; }";
    let tree = parse(content);
    let sema = build_sema(&tree, ROOT, content, aliases());
    let node = find_first_kind(&tree, "field_expression").unwrap();
    let ty = type_of_expression(&sema, &tree, node)
        .and_then(|id| sema.render_type(id))
        .unwrap();
    assert_eq!(ty, "int32");
}

#[test]
fn sema_expr_resolves_named_cast_call_target_type() {
    let content = "void Test() { auto Value = static_cast<float>(1); }";
    let tree = parse(content);
    let sema = build_sema(&tree, ROOT, content, aliases());
    let node = find_first_kind(&tree, "call_expression").unwrap();
    let ty = type_of_expression(&sema, &tree, node)
        .and_then(|id| sema.render_type(id))
        .unwrap();
    assert_eq!(ty, "float");
}

#[test]
fn sema_expr_resolves_adl_call_return_type() {
    let content =
        "namespace UE::Math { struct Vec {}; int32 Length(Vec Value) { return 1; } } int32 Test() { UE::Math::Vec Value; return Length(Value); }";
    let tree = parse(content);
    let sema = build_sema(&tree, ROOT, content, aliases());
    let call = find_first_kind(&tree, "call_expression").unwrap();
    let ty = type_of_expression(&sema, &tree, call)
        .and_then(|id| sema.render_type(id))
        .unwrap();
    assert_eq!(ty, "int32");
}

#[test]
fn sema_expr_resolves_nullptr_type() {
    let content = "void Test() { nullptr; }";
    let tree = parse(content);
    let sema = build_sema(&tree, ROOT, content, aliases());
    let node = find_first_kind(&tree, "null").unwrap();
    let ty = type_of_expression(&sema, &tree, node)
        .and_then(|id| sema.render_type(id))
        .unwrap();
    assert_eq!(ty, "nullptr");
}

#[test]
fn sema_expr_resolves_pointer_alias_dereference_type() {
    let content = "class UFoo {}; using FPtr = UFoo*; void Test() { FPtr Value = nullptr; *Value; }";
    let tree = parse(content);
    let sema = build_sema(&tree, ROOT, content, aliases());
    let node = find_first_kind(&tree, "pointer_expression").unwrap();
    let ty = type_of_expression(&sema, &tree, node)
        .and_then(|id| sema.render_type(id))
        .unwrap();
    assert_eq!(ty, "UFoo");
}

#[test]
fn sema_expr_resolves_pointer_alias_subscript_type() {
    let content = "using FIntPtr = int32*; int32 Test(FIntPtr Values) { return Values[0]; }";
    let tree = parse(content);
    let sema = build_sema(&tree, ROOT, content, aliases());
    let node = find_first_kind(&tree, "subscript_expression").unwrap();
    let ty = type_of_expression(&sema, &tree, node)
        .and_then(|id| sema.render_type(id))
        .unwrap();
    assert_eq!(ty, "int32");
}

#[test]
fn sema_expr_resolves_member_on_template_class_instance() {
    let content =
        "template<typename T> struct Box { int32 Value; }; void Test() { Box<int32> Item; Item.Value; }";
    let tree = parse(content);
    let sema = build_sema(&tree, ROOT, content, aliases());
    let node = find_first_kind(&tree, "field_expression").unwrap();
    let ty = type_of_expression(&sema, &tree, node)
        .and_then(|id| sema.render_type(id))
        .unwrap();
    assert_eq!(ty, "int32");
}

#[test]
fn sema_expr_resolves_method_call_on_template_class_instance() {
    let content =
        "template<typename T> struct Box { int32 Get() { return 1; } }; int32 Test() { Box<int32> Item; return Item.Get(); }";
    let tree = parse(content);
    let sema = build_sema(&tree, ROOT, content, aliases());
    let node = find_first_kind(&tree, "call_expression").unwrap();
    let ty = type_of_expression(&sema, &tree, node)
        .and_then(|id| sema.render_type(id))
        .unwrap();
    assert_eq!(ty, "int32");
}

#[test]
fn sema_expr_resolves_method_call_on_namespace_qualified_template_class_instance() {
    let content =
        "namespace UE::Math { template<typename T> struct Box { int32 Get() { return 1; } }; } int32 Test() { UE::Math::Box<int32> Item; return Item.Get(); }";
    let tree = parse(content);
    let sema = build_sema(&tree, ROOT, content, aliases());
    let node = find_first_kind(&tree, "call_expression").unwrap();
    let ty = type_of_expression(&sema, &tree, node)
        .and_then(|id| sema.render_type(id))
        .unwrap();
    assert_eq!(ty, "int32");
}

#[test]
fn sema_expr_resolves_member_on_explicit_template_specialization_instance() {
    let content =
        "class UObject {}; template<typename T> struct Box { int32 Value; }; template<> struct Box<int32> { UObject* Value; }; UObject* Test() { Box<int32> Item; return Item.Value; }";
    let tree = parse(content);
    let sema = build_sema(&tree, ROOT, content, aliases());
    let node = find_first_kind(&tree, "field_expression").unwrap();
    let ty = type_of_expression(&sema, &tree, node)
        .and_then(|id| sema.render_type(id))
        .unwrap();
    assert_eq!(ty, "UObject*");
}

#[test]
fn sema_expr_keeps_primary_template_member_on_non_specialized_instance() {
    let content =
        "class UObject {}; template<typename T> struct Box { int32 Value; }; template<> struct Box<int32> { UObject* Value; }; int32 Test() { Box<float> Item; return Item.Value; }";
    let tree = parse(content);
    let sema = build_sema(&tree, ROOT, content, aliases());
    let node = find_first_kind(&tree, "field_expression").unwrap();
    let ty = type_of_expression(&sema, &tree, node)
        .and_then(|id| sema.render_type(id))
        .unwrap();
    assert_eq!(ty, "int32");
}

#[test]
fn sema_expr_resolves_dependent_template_field_type_from_instance_arg() {
    let content =
        "template<typename T> struct Box { T Value; }; int32 Test() { Box<int32> Item; return Item.Value; }";
    let tree = parse(content);
    let sema = build_sema(&tree, ROOT, content, aliases());
    let node = find_first_kind(&tree, "field_expression").unwrap();
    let ty = type_of_expression(&sema, &tree, node)
        .and_then(|id| sema.render_type(id))
        .unwrap();
    assert_eq!(ty, "int32");
}

#[test]
fn sema_expr_resolves_dependent_template_method_signature_from_instance_arg() {
    let content =
        "template<typename T> struct Box { T Get(T Value) { return Value; } }; int32 Test() { Box<int32> Item; return Item.Get(1); }";
    let tree = parse(content);
    let sema = build_sema(&tree, ROOT, content, aliases());
    let node = find_first_kind(&tree, "call_expression").unwrap();
    let ty = type_of_expression(&sema, &tree, node)
        .and_then(|id| sema.render_type(id))
        .unwrap();
    assert_eq!(ty, "int32");
}

#[test]
fn sema_expr_resolves_pointer_dependent_template_field_type() {
    let content =
        "template<typename T> struct Box { T* Value; }; void Test() { Box<int32> Item; Item.Value; }";
    let tree = parse(content);
    let sema = build_sema(&tree, ROOT, content, aliases());
    let node = find_first_kind(&tree, "field_expression").unwrap();
    let ty = type_of_expression(&sema, &tree, node)
        .and_then(|id| sema.render_type(id))
        .unwrap();
    assert_eq!(ty, "int32*");
}

#[test]
fn sema_expr_resolves_reference_dependent_template_method_signature() {
    let content =
        "template<typename T> struct Box { T& Get(T& Value) { return Value; } }; void Test(int32& Ref) { Box<int32> Item; Item.Get(Ref); }";
    let tree = parse(content);
    let sema = build_sema(&tree, ROOT, content, aliases());
    let node = find_first_kind(&tree, "call_expression").unwrap();
    let ty = type_of_expression(&sema, &tree, node)
        .and_then(|id| sema.render_type(id))
        .unwrap();
    assert_eq!(ty, "int32&");
}

#[test]
fn sema_expr_resolves_reference_parameter_identifier_type() {
    let content = "void Test(int32& Ref) { Ref; }";
    let tree = parse(content);
    let sema = build_sema(&tree, ROOT, content, aliases());
    let stmt = find_first_kind(&tree, "expression_statement").unwrap();
    let node = tree.named_child(stmt, 0).unwrap();
    let ty = type_of_expression(&sema, &tree, node)
        .and_then(|id| sema.render_type(id))
        .unwrap();
    assert_eq!(ty, "int32&");
}

#[test]
fn sema_lookup_finds_dependent_template_method_member_symbol() {
    let content =
        "template<typename T> struct Box { T& Get(T& Value) { return Value; } }; void Test(int32& Ref) { Box<int32> Item; Item.Get(Ref); }";
    let tree = parse(content);
    let sema = build_sema(&tree, ROOT, content, aliases());
    let call = find_first_kind(&tree, "call_expression").unwrap();
    let callee = tree.child_by_field(call, FieldName::from_name("function")).unwrap();
    let receiver = tree.child_by_field(callee, FieldName::from_name("argument")).unwrap();
    let receiver_ty = type_of_expression(&sema, &tree, receiver).unwrap();
    let symbols = sema.lookup_class_member_symbols(receiver_ty, "Get");
    assert_eq!(symbols.len(), 1);
}

#[test]
fn sema_expr_resolves_nested_template_dependent_field_type() {
    let content =
        "template<typename U> struct TArray {}; template<typename T> struct Box { TArray<T> Values; }; void Test() { Box<int32> Item; Item.Values; }";
    let tree = parse(content);
    let sema = build_sema(&tree, ROOT, content, aliases());
    let node = find_first_kind(&tree, "field_expression").unwrap();
    let ty = type_of_expression(&sema, &tree, node)
        .and_then(|id| sema.render_type(id))
        .unwrap();
    assert_eq!(ty, "TArray<int32>");
}

#[test]
fn sema_expr_resolves_nested_pointer_reference_template_deref_type() {
    let content =
        "template<typename T> T* Id(T*& Value) { return Value; } int32 Test(int32* Ptr) { return *Id(Ptr); }";
    let tree = parse(content);
    let sema = build_sema(&tree, ROOT, content, aliases());
    let node = find_first_kind(&tree, "pointer_expression").unwrap();
    let ty = type_of_expression(&sema, &tree, node)
        .and_then(|id| sema.render_type(id))
        .unwrap();
    assert_eq!(ty, "int32");
}

#[test]
fn sema_members_are_looked_up_by_type_and_by_class() {
    let content = "namespace Math { int32 Limit; } class UBase { public: float Size; }; \
                   class UChild : public UBase { public: bool Ready; }; void Test() { Math::Limit; }";
    let tree = parse(content);
    let sema = build_sema(&tree, ROOT, content, aliases());
    let node = find_first_kind(&tree, "compound_statement").unwrap();
    let class_id = sema.symbols.class_id_by_name("UChild").unwrap();
    let class_type = sema
        .lookup_name_at_node(&tree, node, "UChild")
        .into_iter()
        .find_map(|id| sema.symbol_type(id))
        .unwrap();
    let render = |id| sema.render_type(id);

    let inherited = sema.lookup_class_member_type(class_type, "Size").and_then(render);
    assert_eq!(inherited.as_deref(), Some("float"));
    let own = sema.lookup_member_on_class_id(class_id, "Ready").and_then(render);
    assert_eq!(own.as_deref(), Some("bool"));
    assert!(sema.lookup_class_member_type(class_type, "Missing").is_none());

    let limit = sema.resolve_qualified_symbol_at_node(&tree, node, &["Math", "Limit"]).unwrap();
    assert_eq!(sema.symbols.get(limit).unwrap().name, "Limit");
    let limit_type =
        sema.type_of_qualified_identifier_at_node(&tree, node, &["Math", "Limit"]).and_then(render);
    assert_eq!(limit_type.as_deref(), Some("int32"));
    assert!(sema.resolve_qualified_symbol_at_node(&tree, node, &["Math", "Other"]).is_none());
}

#[test]
fn sema_calls_take_the_overload_that_fits() {
    let content = "void Take(int32 A); void Take(bool A, bool B); void Test() { Take(1); }";
    let tree = parse(content);
    let sema = build_sema(&tree, ROOT, content, aliases());
    let node = find_first_kind(&tree, "compound_statement").unwrap();
    let callees = sema.lookup_name_at_node(&tree, node, "Take");
    assert_eq!(callees.len(), 2);
    let int32 = sema.types.find(&TypeKind::Builtin(BuiltinType::Int32)).unwrap();
    let flag = sema.types.find(&TypeKind::Builtin(BuiltinType::Bool)).unwrap();

    assert!(matches!(resolve_call(&sema, &callees, &[int32]), CallResult::Match(id) if id == callees[0]));
    assert!(matches!(
        resolve_call(&sema, &callees, &[flag, flag]),
        CallResult::Match(id) if id == callees[1]
    ));
    assert!(matches!(resolve_call(&sema, &callees, &[]), CallResult::NoMatch { .. }));
}

#[test]
fn sema_calls_look_in_the_namespaces_of_their_arguments() {
    let content = "namespace Math { class FVec { public: int32 X; }; int32 Size(FVec V); } \
                   int32 Size(int32 V); void Test() { }";
    let tree = parse(content);
    let sema = build_sema(&tree, ROOT, content, aliases());
    let global = sema.scopes.global;
    let plain = lookup_name(&sema, global, "Size");
    assert_eq!(plain.len(), 1);
    let class_id = sema.symbols.class_id_by_name("FVec").unwrap();
    let vec = sema.types.find(&TypeKind::Class(class_id)).unwrap();
    let int32 = sema.types.find(&TypeKind::Builtin(BuiltinType::Int32)).unwrap();

    let found = lookup_call_name(&sema, global, "Size", &[vec, vec]);
    assert_eq!(found.len(), 2);
    assert_eq!(found[0], plain[0]);
    assert_ne!(found[1], plain[0]);
    assert_eq!(sema.symbols.get(found[1]).unwrap().name, "Size");
    assert_eq!(lookup_call_name(&sema, global, "Size", &[int32]), plain);
}

#[test]
fn sema_calls_list_what_fits_alike_and_why_nothing_does() {
    let content = "void Take(float A); void Take(double A); void Take(int32 A, int32 B); \
                   void Take(bool A, bool B, bool C); void Test() { Take(1); }";
    let tree = parse(content);
    let sema = build_sema(&tree, ROOT, content, aliases());
    let node = find_first_kind(&tree, "compound_statement").unwrap();
    let callees = sema.lookup_name_at_node(&tree, node, "Take");
    assert_eq!(callees.len(), 4);
    let int32 = sema.types.find(&TypeKind::Builtin(BuiltinType::Int32)).unwrap();
    let flag = sema.types.find(&TypeKind::Builtin(BuiltinType::Bool)).unwrap();
    match resolve_call(&sema, &callees, &[int32]) {
        CallResult::Ambiguous(ids) => assert_eq!(ids, vec![callees[0], callees[1]]),
        _ => panic!("the call is ambiguous"),
    }
    match resolve_call(&sema, &callees, &[flag]) {
        CallResult::NoMatch { reasons } => {
            let expected: Vec<String> = callees
                .iter()
                .zip(["type mismatch", "type mismatch", "not enough arguments", "not enough arguments"])
                .map(|(id, why)| format!("{why} for candidate {}", id.0))
                .collect();
            assert_eq!(reasons, expected);
        }
        _ => panic!("nothing fits"),
    }
}

#[test]
fn sema_names_that_a_scope_leaves_open_are_looked_up_outside() {
    let content = "int32 Size; namespace Math { int32 Limit; void Test() { int32 Local; } }";
    let tree = parse(content);
    let sema = build_sema(&tree, ROOT, content, aliases());
    for (i, scope) in sema.scopes.scopes.iter().enumerate() {
        for name in ["Size", "Limit", "Local", "Missing"] {
            if scope.ids_named(name).is_empty() {
                let outside = match scope.parent {
                    Some(parent) => lookup_name(&sema, parent, name),
                    None => Vec::new(),
                };
                assert_eq!(lookup_name(&sema, ScopeId(i as u32), name), outside);
            }
        }
    }
}
