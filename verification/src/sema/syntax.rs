//! Syntax trees of C++ sources, as plain values.
use vstd::prelude::*;

use crate::text;

verus! {

/// The kinds of syntax node that the analysis tells apart.
#[derive(Clone, Copy, PartialEq, Eq, Structural, Debug)]
pub enum NodeKind {
    Identifier,
    QualifiedIdentifier,
    TypeIdentifier,
    FunctionDeclarator,
    FieldIdentifier,
    ParameterDeclaration,
    CompoundStatement,
    ReferenceDeclarator,
    PointerDeclarator,
    InitDeclarator,
    ArrayDeclarator,
    TemplateType,
    Declaration,
    TemplateArgumentList,
    ParenthesizedDeclarator,
    BitfieldClause,
    FunctionDefinition,
    StructSpecifier,
    ParameterList,
    NumberLiteral,
    IfStatement,
    ForStatement,
    FieldExpression,
    FieldDeclaration,
    ClassSpecifier,
    WhileStatement,
    UnrealFunctionDefinition,
    TypeDescriptor,
    ThrowStatement,
    TemplateMethod,
    TemplateFunction,
    TemplateDeclaration,
    ReturnStatement,
    PrimitiveType,
    NamespaceDefinition,
    ElseClause,
    DoStatement,
    CoReturnStatement,
    CharLiteral,
    AssignmentExpression,
    UnrealReflectedStructDeclaration,
    UnrealReflectedClassDeclaration,
    UnaryExpression,
    TypeParameterDeclaration,
    SwitchStatement,
    ParenthesizedExpression,
    OptionalTypeParameterDeclaration,
    NullLiteral,
    LambdaExpression,
    ExpressionStatement,
    EnumSpecifier,
    DefaultStatement,
    ContinueStatement,
    ConditionalExpression,
    ConditionClause,
    CaseStatement,
    BreakStatement,
    BinaryExpression,
    ArgumentList,
    AliasDeclaration,
    UsingDirective,
    UsingDeclaration,
    UnrealStructBody,
    UnrealReflectedFunction,
    UnrealReflectedEnumDeclaration,
    UnrealClassBody,
    TypeDefinition,
    TrailingReturnType,
    SubscriptExpression,
    StringLiteral,
    SizedTypeSpecifier,
    RequiresClause,
    RangeBasedForStatement,
    QualifiedUnrealTypeIdentifier,
    PointerExpression,
    OptionalParameterDeclaration,
    NewExpression,
    ForRangeLoop,
    FieldDeclarationList,
    DefaultArgument,
    CastExpression,
    CallExpression,
    BaseClassClause,
    TrueLiteral,
    FalseLiteral,
    Other,
}

/// The kind that the grammar calls by this name.
pub open spec fn kind_named(name: Seq<char>) -> NodeKind {
    if name == "identifier"@ {
        NodeKind::Identifier
    } else if name == "qualified_identifier"@ {
        NodeKind::QualifiedIdentifier
    } else if name == "type_identifier"@ {
        NodeKind::TypeIdentifier
    } else if name == "function_declarator"@ {
        NodeKind::FunctionDeclarator
    } else if name == "field_identifier"@ {
        NodeKind::FieldIdentifier
    } else if name == "parameter_declaration"@ {
        NodeKind::ParameterDeclaration
    } else if name == "compound_statement"@ {
        NodeKind::CompoundStatement
    } else if name == "reference_declarator"@ {
        NodeKind::ReferenceDeclarator
    } else if name == "pointer_declarator"@ {
        NodeKind::PointerDeclarator
    } else if name == "init_declarator"@ {
        NodeKind::InitDeclarator
    } else if name == "array_declarator"@ {
        NodeKind::ArrayDeclarator
    } else if name == "template_type"@ {
        NodeKind::TemplateType
    } else if name == "declaration"@ {
        NodeKind::Declaration
    } else if name == "template_argument_list"@ {
        NodeKind::TemplateArgumentList
    } else if name == "parenthesized_declarator"@ {
        NodeKind::ParenthesizedDeclarator
    } else if name == "bitfield_clause"@ {
        NodeKind::BitfieldClause
    } else if name == "function_definition"@ {
        NodeKind::FunctionDefinition
    } else if name == "struct_specifier"@ {
        NodeKind::StructSpecifier
    } else if name == "parameter_list"@ {
        NodeKind::ParameterList
    } else if name == "number_literal"@ {
        NodeKind::NumberLiteral
    } else if name == "if_statement"@ {
        NodeKind::IfStatement
    } else if name == "for_statement"@ {
        NodeKind::ForStatement
    } else if name == "field_expression"@ {
        NodeKind::FieldExpression
    } else if name == "field_declaration"@ {
        NodeKind::FieldDeclaration
    } else if name == "class_specifier"@ {
        NodeKind::ClassSpecifier
    } else if name == "while_statement"@ {
        NodeKind::WhileStatement
    } else if name == "unreal_function_definition"@ {
        NodeKind::UnrealFunctionDefinition
    } else if name == "type_descriptor"@ {
        NodeKind::TypeDescriptor
    } else if name == "throw_statement"@ {
        NodeKind::ThrowStatement
    } else if name == "template_method"@ {
        NodeKind::TemplateMethod
    } else if name == "template_function"@ {
        NodeKind::TemplateFunction
    } else if name == "template_declaration"@ {
        NodeKind::TemplateDeclaration
    } else if name == "return_statement"@ {
        NodeKind::ReturnStatement
    } else if name == "primitive_type"@ {
        NodeKind::PrimitiveType
    } else if name == "namespace_definition"@ {
        NodeKind::NamespaceDefinition
    } else if name == "else_clause"@ {
        NodeKind::ElseClause
    } else if name == "do_statement"@ {
        NodeKind::DoStatement
    } else if name == "co_return_statement"@ {
        NodeKind::CoReturnStatement
    } else if name == "char_literal"@ {
        NodeKind::CharLiteral
    } else if name == "assignment_expression"@ {
        NodeKind::AssignmentExpression
    } else if name == "unreal_reflected_struct_declaration"@ {
        NodeKind::UnrealReflectedStructDeclaration
    } else if name == "unreal_reflected_class_declaration"@ {
        NodeKind::UnrealReflectedClassDeclaration
    } else if name == "unary_expression"@ {
        NodeKind::UnaryExpression
    } else if name == "type_parameter_declaration"@ {
        NodeKind::TypeParameterDeclaration
    } else if name == "switch_statement"@ {
        NodeKind::SwitchStatement
    } else if name == "parenthesized_expression"@ {
        NodeKind::ParenthesizedExpression
    } else if name == "optional_type_parameter_declaration"@ {
        NodeKind::OptionalTypeParameterDeclaration
    } else if name == "null"@ {
        NodeKind::NullLiteral
    } else if name == "lambda_expression"@ {
        NodeKind::LambdaExpression
    } else if name == "expression_statement"@ {
        NodeKind::ExpressionStatement
    } else if name == "enum_specifier"@ {
        NodeKind::EnumSpecifier
    } else if name == "default_statement"@ {
        NodeKind::DefaultStatement
    } else if name == "continue_statement"@ {
        NodeKind::ContinueStatement
    } else if name == "conditional_expression"@ {
        NodeKind::ConditionalExpression
    } else if name == "condition_clause"@ {
        NodeKind::ConditionClause
    } else if name == "case_statement"@ {
        NodeKind::CaseStatement
    } else if name == "break_statement"@ {
        NodeKind::BreakStatement
    } else if name == "binary_expression"@ {
        NodeKind::BinaryExpression
    } else if name == "argument_list"@ {
        NodeKind::ArgumentList
    } else if name == "alias_declaration"@ {
        NodeKind::AliasDeclaration
    } else if name == "using_directive"@ {
        NodeKind::UsingDirective
    } else if name == "using_declaration"@ {
        NodeKind::UsingDeclaration
    } else if name == "unreal_struct_body"@ {
        NodeKind::UnrealStructBody
    } else if name == "unreal_reflected_function"@ {
        NodeKind::UnrealReflectedFunction
    } else if name == "unreal_reflected_enum_declaration"@ {
        NodeKind::UnrealReflectedEnumDeclaration
    } else if name == "unreal_class_body"@ {
        NodeKind::UnrealClassBody
    } else if name == "type_definition"@ {
        NodeKind::TypeDefinition
    } else if name == "trailing_return_type"@ {
        NodeKind::TrailingReturnType
    } else if name == "subscript_expression"@ {
        NodeKind::SubscriptExpression
    } else if name == "string_literal"@ {
        NodeKind::StringLiteral
    } else if name == "sized_type_specifier"@ {
        NodeKind::SizedTypeSpecifier
    } else if name == "requires_clause"@ {
        NodeKind::RequiresClause
    } else if name == "range_based_for_statement"@ {
        NodeKind::RangeBasedForStatement
    } else if name == "qualified_unreal_type_identifier"@ {
        NodeKind::QualifiedUnrealTypeIdentifier
    } else if name == "pointer_expression"@ {
        NodeKind::PointerExpression
    } else if name == "optional_parameter_declaration"@ {
        NodeKind::OptionalParameterDeclaration
    } else if name == "new_expression"@ {
        NodeKind::NewExpression
    } else if name == "for_range_loop"@ {
        NodeKind::ForRangeLoop
    } else if name == "field_declaration_list"@ {
        NodeKind::FieldDeclarationList
    } else if name == "default_argument"@ {
        NodeKind::DefaultArgument
    } else if name == "cast_expression"@ {
        NodeKind::CastExpression
    } else if name == "call_expression"@ {
        NodeKind::CallExpression
    } else if name == "base_class_clause"@ {
        NodeKind::BaseClassClause
    } else if name == "true"@ {
        NodeKind::TrueLiteral
    } else if name == "false"@ {
        NodeKind::FalseLiteral
    } else {
        NodeKind::Other
    }
}

impl NodeKind {
    pub fn from_name(name: &str) -> (r: Self)
        ensures
            r == kind_named(name@),
    {
        if text::same(name, "identifier") {
            NodeKind::Identifier
        } else if text::same(name, "qualified_identifier") {
            NodeKind::QualifiedIdentifier
        } else if text::same(name, "type_identifier") {
            NodeKind::TypeIdentifier
        } else if text::same(name, "function_declarator") {
            NodeKind::FunctionDeclarator
        } else if text::same(name, "field_identifier") {
            NodeKind::FieldIdentifier
        } else if text::same(name, "parameter_declaration") {
            NodeKind::ParameterDeclaration
        } else if text::same(name, "compound_statement") {
            NodeKind::CompoundStatement
        } else if text::same(name, "reference_declarator") {
            NodeKind::ReferenceDeclarator
        } else if text::same(name, "pointer_declarator") {
            NodeKind::PointerDeclarator
        } else if text::same(name, "init_declarator") {
            NodeKind::InitDeclarator
        } else if text::same(name, "array_declarator") {
            NodeKind::ArrayDeclarator
        } else if text::same(name, "template_type") {
            NodeKind::TemplateType
        } else if text::same(name, "declaration") {
            NodeKind::Declaration
        } else if text::same(name, "template_argument_list") {
            NodeKind::TemplateArgumentList
        } else if text::same(name, "parenthesized_declarator") {
            NodeKind::ParenthesizedDeclarator
        } else if text::same(name, "bitfield_clause") {
            NodeKind::BitfieldClause
        } else if text::same(name, "function_definition") {
            NodeKind::FunctionDefinition
        } else if text::same(name, "struct_specifier") {
            NodeKind::StructSpecifier
        } else if text::same(name, "parameter_list") {
            NodeKind::ParameterList
        } else if text::same(name, "number_literal") {
            NodeKind::NumberLiteral
        } else if text::same(name, "if_statement") {
            NodeKind::IfStatement
        } else if text::same(name, "for_statement") {
            NodeKind::ForStatement
        } else if text::same(name, "field_expression") {
            NodeKind::FieldExpression
        } else if text::same(name, "field_declaration") {
            NodeKind::FieldDeclaration
        } else if text::same(name, "class_specifier") {
            NodeKind::ClassSpecifier
        } else if text::same(name, "while_statement") {
            NodeKind::WhileStatement
        } else if text::same(name, "unreal_function_definition") {
            NodeKind::UnrealFunctionDefinition
        } else if text::same(name, "type_descriptor") {
            NodeKind::TypeDescriptor
        } else if text::same(name, "throw_statement") {
            NodeKind::ThrowStatement
        } else if text::same(name, "template_method") {
            NodeKind::TemplateMethod
        } else if text::same(name, "template_function") {
            NodeKind::TemplateFunction
        } else if text::same(name, "template_declaration") {
            NodeKind::TemplateDeclaration
        } else if text::same(name, "return_statement") {
            NodeKind::ReturnStatement
        } else if text::same(name, "primitive_type") {
            NodeKind::PrimitiveType
        } else if text::same(name, "namespace_definition") {
            NodeKind::NamespaceDefinition
        } else if text::same(name, "else_clause") {
            NodeKind::ElseClause
        } else if text::same(name, "do_statement") {
            NodeKind::DoStatement
        } else if text::same(name, "co_return_statement") {
            NodeKind::CoReturnStatement
        } else if text::same(name, "char_literal") {
            NodeKind::CharLiteral
        } else if text::same(name, "assignment_expression") {
            NodeKind::AssignmentExpression
        } else if text::same(name, "unreal_reflected_struct_declaration") {
            NodeKind::UnrealReflectedStructDeclaration
        } else if text::same(name, "unreal_reflected_class_declaration") {
            NodeKind::UnrealReflectedClassDeclaration
        } else if text::same(name, "unary_expression") {
            NodeKind::UnaryExpression
        } else if text::same(name, "type_parameter_declaration") {
            NodeKind::TypeParameterDeclaration
        } else if text::same(name, "switch_statement") {
            NodeKind::SwitchStatement
        } else if text::same(name, "parenthesized_expression") {
            NodeKind::ParenthesizedExpression
        } else if text::same(name, "optional_type_parameter_declaration") {
            NodeKind::OptionalTypeParameterDeclaration
        } else if text::same(name, "null") {
            NodeKind::NullLiteral
        } else if text::same(name, "lambda_expression") {
            NodeKind::LambdaExpression
        } else if text::same(name, "expression_statement") {
            NodeKind::ExpressionStatement
        } else if text::same(name, "enum_specifier") {
            NodeKind::EnumSpecifier
        } else if text::same(name, "default_statement") {
            NodeKind::DefaultStatement
        } else if text::same(name, "continue_statement") {
            NodeKind::ContinueStatement
        } else if text::same(name, "conditional_expression") {
            NodeKind::ConditionalExpression
        } else if text::same(name, "condition_clause") {
            NodeKind::ConditionClause
        } else if text::same(name, "case_statement") {
            NodeKind::CaseStatement
        } else if text::same(name, "break_statement") {
            NodeKind::BreakStatement
        } else if text::same(name, "binary_expression") {
            NodeKind::BinaryExpression
        } else if text::same(name, "argument_list") {
            NodeKind::ArgumentList
        } else if text::same(name, "alias_declaration") {
            NodeKind::AliasDeclaration
        } else if text::same(name, "using_directive") {
            NodeKind::UsingDirective
        } else if text::same(name, "using_declaration") {
            NodeKind::UsingDeclaration
        } else if text::same(name, "unreal_struct_body") {
            NodeKind::UnrealStructBody
        } else if text::same(name, "unreal_reflected_function") {
            NodeKind::UnrealReflectedFunction
        } else if text::same(name, "unreal_reflected_enum_declaration") {
            NodeKind::UnrealReflectedEnumDeclaration
        } else if text::same(name, "unreal_class_body") {
            NodeKind::UnrealClassBody
        } else if text::same(name, "type_definition") {
            NodeKind::TypeDefinition
        } else if text::same(name, "trailing_return_type") {
            NodeKind::TrailingReturnType
        } else if text::same(name, "subscript_expression") {
            NodeKind::SubscriptExpression
        } else if text::same(name, "string_literal") {
            NodeKind::StringLiteral
        } else if text::same(name, "sized_type_specifier") {
            NodeKind::SizedTypeSpecifier
        } else if text::same(name, "requires_clause") {
            NodeKind::RequiresClause
        } else if text::same(name, "range_based_for_statement") {
            NodeKind::RangeBasedForStatement
        } else if text::same(name, "qualified_unreal_type_identifier") {
            NodeKind::QualifiedUnrealTypeIdentifier
        } else if text::same(name, "pointer_expression") {
            NodeKind::PointerExpression
        } else if text::same(name, "optional_parameter_declaration") {
            NodeKind::OptionalParameterDeclaration
        } else if text::same(name, "new_expression") {
            NodeKind::NewExpression
        } else if text::same(name, "for_range_loop") {
            NodeKind::ForRangeLoop
        } else if text::same(name, "field_declaration_list") {
            NodeKind::FieldDeclarationList
        } else if text::same(name, "default_argument") {
            NodeKind::DefaultArgument
        } else if text::same(name, "cast_expression") {
            NodeKind::CastExpression
        } else if text::same(name, "call_expression") {
            NodeKind::CallExpression
        } else if text::same(name, "base_class_clause") {
            NodeKind::BaseClassClause
        } else if text::same(name, "true") {
            NodeKind::TrueLiteral
        } else if text::same(name, "false") {
            NodeKind::FalseLiteral
        } else {
            NodeKind::Other
        }
    }
}

/// The fields by which a syntax node names its children.
#[derive(Clone, Copy, PartialEq, Eq, Structural, Debug)]
pub enum FieldName {
    Alternative,
    Argument,
    Arguments,
    Body,
    Condition,
    Consequence,
    Declarator,
    Field,
    Function,
    Left,
    Name,
    Operator,
    Parameters,
    Right,
    Scope,
    Type,
    Other,
}

/// The field that the grammar calls by this name.
pub open spec fn field_named(name: Seq<char>) -> FieldName {
    if name == "alternative"@ {
        FieldName::Alternative
    } else if name == "argument"@ {
        FieldName::Argument
    } else if name == "arguments"@ {
        FieldName::Arguments
    } else if name == "body"@ {
        FieldName::Body
    } else if name == "condition"@ {
        FieldName::Condition
    } else if name == "consequence"@ {
        FieldName::Consequence
    } else if name == "declarator"@ {
        FieldName::Declarator
    } else if name == "field"@ {
        FieldName::Field
    } else if name == "function"@ {
        FieldName::Function
    } else if name == "left"@ {
        FieldName::Left
    } else if name == "name"@ {
        FieldName::Name
    } else if name == "operator"@ {
        FieldName::Operator
    } else if name == "parameters"@ {
        FieldName::Parameters
    } else if name == "right"@ {
        FieldName::Right
    } else if name == "scope"@ {
        FieldName::Scope
    } else if name == "type"@ {
        FieldName::Type
    } else {
        FieldName::Other
    }
}

impl FieldName {
    pub fn from_name(name: &str) -> (r: Self)
        ensures
            r == field_named(name@),
    {
        if text::same(name, "alternative") {
            FieldName::Alternative
        } else if text::same(name, "argument") {
            FieldName::Argument
        } else if text::same(name, "arguments") {
            FieldName::Arguments
        } else if text::same(name, "body") {
            FieldName::Body
        } else if text::same(name, "condition") {
            FieldName::Condition
        } else if text::same(name, "consequence") {
            FieldName::Consequence
        } else if text::same(name, "declarator") {
            FieldName::Declarator
        } else if text::same(name, "field") {
            FieldName::Field
        } else if text::same(name, "function") {
            FieldName::Function
        } else if text::same(name, "left") {
            FieldName::Left
        } else if text::same(name, "name") {
            FieldName::Name
        } else if text::same(name, "operator") {
            FieldName::Operator
        } else if text::same(name, "parameters") {
            FieldName::Parameters
        } else if text::same(name, "right") {
            FieldName::Right
        } else if text::same(name, "scope") {
            FieldName::Scope
        } else if text::same(name, "type") {
            FieldName::Type
        } else {
            FieldName::Other
        }
    }
}
/// A node with its place in the source; `text` is what stands there. Of a number that is written
/// with a fraction or an exponent, `nonzero` says whether it is other than zero.
pub struct SyntaxNode {
    pub kind: NodeKind,
    pub named: bool,
    pub field: Option<FieldName>,
    pub text: Option<String>,
    pub nonzero: Option<bool>,
    pub start_byte: usize,
    pub end_byte: usize,
    pub start_row: usize,
    pub start_column: usize,
    pub end_row: usize,
    pub end_column: usize,
    pub parent: Option<usize>,
    pub children: Vec<usize>,
}

/// The nodes of a tree; a node is known by its position, and its children stand behind it.
pub struct SyntaxTree {
    pub nodes: Vec<SyntaxNode>,
}

impl SyntaxTree {
    pub open spec fn at(self, n: usize) -> SyntaxNode {
        self.nodes@[n as int]
    }

    pub open spec fn kids(self, n: usize) -> Seq<usize> {
        self.nodes@[n as int].children@
    }

    /// Children stand behind their parent and know it.
    pub open spec fn well_formed(self) -> bool {
        &&& forall|n: usize, k: int|
            n < self.nodes@.len() && 0 <= k < self.kids(n).len() ==> n < #[trigger] self.kids(n)[k]
                < self.nodes@.len() && self.at(self.kids(n)[k]).parent == Some(n)
        &&& forall|n: usize|
            n < self.nodes@.len() && (#[trigger] self.at(n)).parent is Some ==> self.at(n).parent->0
                < n
    }

    pub open spec fn has(self, n: usize) -> bool {
        self.well_formed() && n < self.nodes@.len()
    }

    /// The text of a node, empty where it has none.
    pub open spec fn text(self, n: usize) -> Seq<char> {
        match self.at(n).text {
            Some(s) => s@,
            None => Seq::empty(),
        }
    }

    pub open spec fn text_opt(self, n: usize) -> Option<Seq<char>> {
        text::opt_text(self.at(n).text)
    }

    /// The first child from position `k` on that stands in the field.
    pub open spec fn field_from(self, n: usize, f: FieldName, k: int) -> Option<usize>
        decreases self.kids(n).len() - k,
    {
        if k < 0 || k >= self.kids(n).len() {
            None
        } else if self.at(self.kids(n)[k]).field == Some(f) {
            Some(self.kids(n)[k])
        } else {
            self.field_from(n, f, k + 1)
        }
    }

    pub open spec fn by_field(self, n: usize, f: FieldName) -> Option<usize> {
        self.field_from(n, f, 0)
    }

    /// The child at a position.
    pub open spec fn child_at(self, n: usize, k: int) -> Option<usize> {
        if 0 <= k < self.kids(n).len() {
            Some(self.kids(n)[k])
        } else {
            None
        }
    }

    /// The named children from position `k` on.
    pub open spec fn named_from(self, n: usize, k: int) -> Seq<usize>
        decreases self.kids(n).len() - k,
    {
        if k < 0 || k >= self.kids(n).len() {
            Seq::empty()
        } else if self.at(self.kids(n)[k]).named {
            seq![self.kids(n)[k]] + self.named_from(n, k + 1)
        } else {
            self.named_from(n, k + 1)
        }
    }

    pub open spec fn named_kids(self, n: usize) -> Seq<usize> {
        self.named_from(n, 0)
    }

    pub open spec fn named_at(self, n: usize, k: int) -> Option<usize> {
        if 0 <= k < self.named_kids(n).len() {
            Some(self.named_kids(n)[k])
        } else {
            None
        }
    }

    /// The first node of the kind, in the order of the source, from the node downwards.
    pub open spec fn descendant(self, n: usize, kind: NodeKind) -> Option<usize>
        decreases self.nodes@.len() - n, self.kids(n).len() + 1,
        when self.has(n)
    {
        if self.at(n).kind == kind {
            Some(n)
        } else {
            self.descendant_from(n, kind, 0)
        }
    }

    /// The first such node below the children from position `k` on.
    pub open spec fn descendant_from(self, n: usize, kind: NodeKind, k: int) -> Option<usize>
        decreases self.nodes@.len() - n, self.kids(n).len() - k,
        when self.has(n) && 0 <= k <= self.kids(n).len()
    {
        if k >= self.kids(n).len() {
            None
        } else {
            match self.descendant(self.kids(n)[k], kind) {
                Some(x) => Some(x),
                None => self.descendant_from(n, kind, k + 1),
            }
        }
    }

    /// Takes the nodes if they form a tree.
    pub fn new(nodes: Vec<SyntaxNode>) -> (r: Option<SyntaxTree>)
        ensures
            r is Some <==> (SyntaxTree { nodes }).well_formed(),
            r matches Some(t) ==> t.nodes == nodes,
    {
        let tree = SyntaxTree { nodes };
        let n: usize = tree.nodes.len();
        let mut i: usize = 0;
        while i < n
            invariant
                n == tree.nodes@.len(),
                i <= n,
                tree.nodes == nodes,
                forall|m: usize, k: int|
                    m < i && 0 <= k < tree.kids(m).len() ==> m < #[trigger] tree.kids(m)[k] < n
                        && tree.at(tree.kids(m)[k]).parent == Some(m),
                forall|m: usize|
                    m < i && (#[trigger] tree.at(m)).parent is Some ==> tree.at(m).parent->0 < m,
            decreases n - i,
        {
            match tree.nodes[i].parent {
                Some(p) => {
                    if p >= i {
                        assert(!(tree.at(i).parent->0 < i));
                        return None;
                    }
                },
                None => {},
            }
            let c: usize = tree.nodes[i].children.len();
            let mut k: usize = 0;
            while k < c
                invariant
                    n == tree.nodes@.len(),
                    i < n,
                    c == tree.kids(i).len(),
                    k <= c,
                    tree.nodes == nodes,
                    forall|j: int|
                        0 <= j < k ==> i < #[trigger] tree.kids(i)[j] < n && tree.at(
                            tree.kids(i)[j],
                        ).parent == Some(i),
                decreases c - k,
            {
                let child: usize = tree.nodes[i].children[k];
                assert(child == tree.kids(i)[k as int]);
                if child <= i || child >= n {
                    return None;
                }
                match tree.nodes[child].parent {
                    Some(p) => {
                        if p != i {
                            return None;
                        }
                    },
                    None => {
                        return None;
                    },
                }
                k = k + 1;
            }
            i = i + 1;
        }
        Some(tree)
    }

    pub fn text_of(&self, n: usize) -> (r: &str)
        requires
            self.has(n),
        ensures
            r@ == self.text(n),
    {
        match &self.nodes[n].text {
            Some(s) => s.as_str(),
            None => {
                proof {
                    reveal_strlit("");
                }
                assert(""@ =~= Seq::<char>::empty());
                ""
            },
        }
    }

    pub fn child_by_field(&self, n: usize, f: FieldName) -> (r: Option<usize>)
        requires
            self.has(n),
        ensures
            r == self.by_field(n, f),
            r matches Some(x) ==> self.has(x) && x > n,
    {
        let c: usize = self.nodes[n].children.len();
        let mut k: usize = 0;
        while k < c
            invariant
                self.has(n),
                c == self.kids(n).len(),
                k <= c,
                self.by_field(n, f) == self.field_from(n, f, k as int),
            decreases c - k,
        {
            let child: usize = self.nodes[n].children[k];
            assert(child == self.kids(n)[k as int]);
            match self.nodes[child].field {
                Some(g) => {
                    if g == f {
                        return Some(child);
                    }
                },
                None => {},
            }
            k = k + 1;
        }
        None
    }

    pub fn child(&self, n: usize, k: usize) -> (r: Option<usize>)
        requires
            self.has(n),
        ensures
            r == self.child_at(n, k as int),
            r matches Some(x) ==> self.has(x) && x > n,
    {
        if k < self.nodes[n].children.len() {
            let child: usize = self.nodes[n].children[k];
            assert(child == self.kids(n)[k as int]);
            Some(child)
        } else {
            None
        }
    }

    pub fn named_children(&self, n: usize) -> (r: Vec<usize>)
        requires
            self.has(n),
        ensures
            r@ == self.named_kids(n),
            forall|k: int| 0 <= k < r@.len() ==> self.has(#[trigger] r@[k]) && r@[k] > n,
    {
        let mut r: Vec<usize> = Vec::new();
        let c: usize = self.nodes[n].children.len();
        let mut k: usize = 0;
        while k < c
            invariant
                self.has(n),
                c == self.kids(n).len(),
                k <= c,
                self.named_kids(n) =~= r@ + self.named_from(n, k as int),
                forall|j: int| 0 <= j < r@.len() ==> self.has(#[trigger] r@[j]) && r@[j] > n,
            decreases c - k,
        {
            let child: usize = self.nodes[n].children[k];
            assert(child == self.kids(n)[k as int]);
            if self.nodes[child].named {
                r.push(child);
            }
            k = k + 1;
        }
        r
    }

    pub fn named_child(&self, n: usize, k: usize) -> (r: Option<usize>)
        requires
            self.has(n),
        ensures
            r == self.named_at(n, k as int),
            r matches Some(x) ==> self.has(x) && x > n,
    {
        let list = self.named_children(n);
        if k < list.len() {
            Some(list[k])
        } else {
            None
        }
    }

    pub fn find_descendant(&self, n: usize, kind: NodeKind) -> (r: Option<usize>)
        requires
            self.has(n),
        ensures
            r == self.descendant(n, kind),
            r matches Some(x) ==> self.has(x) && x >= n && self.at(x).kind == kind,
        decreases self.nodes@.len() - n,
    {
        if self.nodes[n].kind == kind {
            return Some(n);
        }
        let c: usize = self.nodes[n].children.len();
        let mut k: usize = 0;
        while k < c
            invariant
                self.has(n),
                c == self.kids(n).len(),
                k <= c,
                self.descendant(n, kind) == self.descendant_from(n, kind, k as int),
            decreases c - k,
        {
            let child: usize = self.nodes[n].children[k];
            assert(child == self.kids(n)[k as int]);
            match self.find_descendant(child, kind) {
                Some(x) => {
                    return Some(x);
                },
                None => {},
            }
            k = k + 1;
        }
        None
    }
}

/// What is found below a node stands there.
pub proof fn lemma_descendant(t: SyntaxTree, n: usize, kind: NodeKind)
    requires
        t.has(n),
    ensures
        t.descendant(n, kind) matches Some(x) ==> t.has(x) && x >= n && t.at(x).kind == kind,
    decreases t.nodes@.len() - n, t.kids(n).len() + 1,
{
    if t.at(n).kind != kind {
        lemma_descendant_from(t, n, kind, 0);
    }
}

proof fn lemma_descendant_from(t: SyntaxTree, n: usize, kind: NodeKind, k: int)
    requires
        t.has(n),
        0 <= k <= t.kids(n).len(),
    ensures
        t.descendant_from(n, kind, k) matches Some(x) ==> t.has(x) && x > n && t.at(x).kind == kind,
    decreases t.nodes@.len() - n, t.kids(n).len() - k,
{
    if k < t.kids(n).len() {
        lemma_descendant(t, t.kids(n)[k], kind);
        lemma_descendant_from(t, n, kind, k + 1);
    }
}

pub proof fn lemma_by_field(t: SyntaxTree, n: usize, f: FieldName)
    requires
        t.has(n),
    ensures
        t.by_field(n, f) matches Some(x) ==> t.has(x) && x > n,
{
    lemma_field_from(t, n, f, 0);
}

proof fn lemma_field_from(t: SyntaxTree, n: usize, f: FieldName, k: int)
    requires
        t.has(n),
    ensures
        t.field_from(n, f, k) matches Some(x) ==> t.has(x) && x > n,
    decreases t.kids(n).len() - k,
{
    if 0 <= k < t.kids(n).len() {
        lemma_field_from(t, n, f, k + 1);
    }
}

pub proof fn lemma_named(t: SyntaxTree, n: usize, k: int)
    requires
        t.has(n),
    ensures
        forall|j: int|
            0 <= j < t.named_from(n, k).len() ==> t.has(#[trigger] t.named_from(n, k)[j])
                && t.named_from(n, k)[j] > n,
    decreases t.kids(n).len() - k,
{
    if 0 <= k < t.kids(n).len() {
        lemma_named(t, n, k + 1);
        assert forall|j: int| 0 <= j < t.named_from(n, k).len() implies t.has(
            #[trigger] t.named_from(n, k)[j],
        ) && t.named_from(n, k)[j] > n by {
            if t.at(t.kids(n)[k]).named && j > 0 {
                assert(t.named_from(n, k)[j] == t.named_from(n, k + 1)[j - 1]);
            } else if !t.at(t.kids(n)[k]).named {
                assert(t.named_from(n, k)[j] == t.named_from(n, k + 1)[j]);
            }
        }
    }
}

/// A declarator that wraps another one.
pub open spec fn wraps_declarator(kind: NodeKind) -> bool {
    matches!(
        kind,
        NodeKind::FunctionDeclarator | NodeKind::PointerDeclarator | NodeKind::ReferenceDeclarator
            | NodeKind::ArrayDeclarator | NodeKind::ParenthesizedDeclarator
            | NodeKind::InitDeclarator | NodeKind::BitfieldClause
    )
}

pub fn is_wrapping_declarator(kind: NodeKind) -> (r: bool)
    ensures
        r == wraps_declarator(kind),
{
    matches!(
        kind,
        NodeKind::FunctionDeclarator | NodeKind::PointerDeclarator | NodeKind::ReferenceDeclarator
            | NodeKind::ArrayDeclarator | NodeKind::ParenthesizedDeclarator
            | NodeKind::InitDeclarator | NodeKind::BitfieldClause
    )
}

pub open spec fn names_something(kind: NodeKind) -> bool {
    matches!(
        kind,
        NodeKind::Identifier | NodeKind::FieldIdentifier | NodeKind::TypeIdentifier
            | NodeKind::QualifiedIdentifier
    )
}

pub open spec fn declarator_from(t: SyntaxTree, n: usize, k: int) -> Option<usize>
    decreases t.kids(n).len() - k,
{
    if k < 0 || k >= t.kids(n).len() {
        None
    } else if t.at(t.kids(n)[k]).named && (names_something(t.at(t.kids(n)[k]).kind)
        || wraps_declarator(t.at(t.kids(n)[k]).kind)) {
        Some(t.kids(n)[k])
    } else {
        declarator_from(t, n, k + 1)
    }
}

/// The declarator inside a declarator: the one in the field, or else the first that looks like one.
pub open spec fn next_declarator(t: SyntaxTree, n: usize) -> Option<usize> {
    match t.by_field(n, FieldName::Declarator) {
        Some(x) => Some(x),
        None => declarator_from(t, n, 0),
    }
}

pub proof fn lemma_next_declarator(t: SyntaxTree, n: usize)
    requires
        t.has(n),
    ensures
        next_declarator(t, n) matches Some(x) ==> t.has(x) && x > n,
{
    lemma_by_field(t, n, FieldName::Declarator);
    lemma_declarator_from(t, n, 0);
}

proof fn lemma_declarator_from(t: SyntaxTree, n: usize, k: int)
    requires
        t.has(n),
    ensures
        declarator_from(t, n, k) matches Some(x) ==> t.has(x) && x > n,
    decreases t.kids(n).len() - k,
{
    if 0 <= k < t.kids(n).len() {
        lemma_declarator_from(t, n, k + 1);
    }
}

pub fn next_declarator_node(t: &SyntaxTree, n: usize) -> (r: Option<usize>)
    requires
        t.has(n),
    ensures
        r == next_declarator(*t, n),
        r matches Some(x) ==> t.has(x) && x > n,
{
    match t.child_by_field(n, FieldName::Declarator) {
        Some(x) => {
            return Some(x);
        },
        None => {},
    }
    let c: usize = t.nodes[n].children.len();
    let mut k: usize = 0;
    while k < c
        invariant
            t.has(n),
            c == t.kids(n).len(),
            k <= c,
            next_declarator(*t, n) == declarator_from(*t, n, k as int),
        decreases c - k,
    {
        let child: usize = t.nodes[n].children[k];
        assert(child == t.kids(n)[k as int]);
        if t.nodes[child].named {
            let kind = t.nodes[child].kind;
            if is_wrapping_declarator(kind) || matches!(
                kind,
                NodeKind::Identifier | NodeKind::FieldIdentifier | NodeKind::TypeIdentifier
                    | NodeKind::QualifiedIdentifier
            ) {
                return Some(child);
            }
        }
        k = k + 1;
    }
    None
}

/// The node that holds the name which a declarator declares.
pub open spec fn name_node(t: SyntaxTree, n: usize) -> Option<usize>
    decreases t.nodes@.len() - n, t.kids(n).len() + 1,
    when t.has(n)
{
    let kind = t.at(n).kind;
    if kind == NodeKind::Identifier || kind == NodeKind::FieldIdentifier || kind
        == NodeKind::TypeIdentifier {
        Some(n)
    } else if kind == NodeKind::QualifiedIdentifier {
        t.by_field(n, FieldName::Name)
    } else if wraps_declarator(kind) {
        match next_declarator(t, n) {
            Some(d) => {
                proof {
                    lemma_next_declarator(t, n);
                }
                name_node(t, d)
            },
            None => None,
        }
    } else {
        name_node_from(t, n, 0)
    }
}

pub open spec fn name_node_from(t: SyntaxTree, n: usize, k: int) -> Option<usize>
    decreases t.nodes@.len() - n, t.kids(n).len() - k,
    when t.has(n) && 0 <= k <= t.kids(n).len()
{
    if k >= t.kids(n).len() {
        None
    } else {
        match name_node(t, t.kids(n)[k]) {
            Some(x) => Some(x),
            None => name_node_from(t, n, k + 1),
        }
    }
}

pub fn find_name_node(t: &SyntaxTree, n: usize) -> (r: Option<usize>)
    requires
        t.has(n),
    ensures
        r == name_node(*t, n),
        r matches Some(x) ==> t.has(x) && x >= n,
    decreases t.nodes@.len() - n,
{
    let kind = t.nodes[n].kind;
    if kind == NodeKind::Identifier || kind == NodeKind::FieldIdentifier || kind
        == NodeKind::TypeIdentifier {
        return Some(n);
    }
    if kind == NodeKind::QualifiedIdentifier {
        return t.child_by_field(n, FieldName::Name);
    }
    if is_wrapping_declarator(kind) {
        return match next_declarator_node(t, n) {
            Some(d) => find_name_node(t, d),
            None => None,
        };
    }
    let c: usize = t.nodes[n].children.len();
    let mut k: usize = 0;
    while k < c
        invariant
            t.has(n),
            c == t.kids(n).len(),
            k <= c,
            name_node(*t, n) == name_node_from(*t, n, k as int),
        decreases c - k,
    {
        let child: usize = t.nodes[n].children[k];
        assert(child == t.kids(n)[k as int]);
        match find_name_node(t, child) {
            Some(x) => {
                return Some(x);
            },
            None => {},
        }
        k = k + 1;
    }
    None
}

/// The first child of one of two kinds.
pub open spec fn direct_child_from(t: SyntaxTree, n: usize, a: NodeKind, b: NodeKind, k: int) -> Option<
    usize,
>
    decreases t.kids(n).len() - k,
{
    if k < 0 || k >= t.kids(n).len() {
        None
    } else if t.at(t.kids(n)[k]).kind == a || t.at(t.kids(n)[k]).kind == b {
        Some(t.kids(n)[k])
    } else {
        direct_child_from(t, n, a, b, k + 1)
    }
}

pub fn find_direct_child(t: &SyntaxTree, n: usize, a: NodeKind, b: NodeKind) -> (r: Option<usize>)
    requires
        t.has(n),
    ensures
        r == direct_child_from(*t, n, a, b, 0),
        r matches Some(x) ==> t.has(x) && x > n,
{
    let c: usize = t.nodes[n].children.len();
    let mut k: usize = 0;
    while k < c
        invariant
            t.has(n),
            c == t.kids(n).len(),
            k <= c,
            direct_child_from(*t, n, a, b, 0) == direct_child_from(*t, n, a, b, k as int),
        decreases c - k,
    {
        let child: usize = t.nodes[n].children[k];
        assert(child == t.kids(n)[k as int]);
        if t.nodes[child].kind == a || t.nodes[child].kind == b {
            return Some(child);
        }
        k = k + 1;
    }
    None
}

} // verus!
