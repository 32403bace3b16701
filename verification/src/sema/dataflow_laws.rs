//! What the warnings about the flow of data mean for the source.
use vstd::prelude::*;

use super::dataflow::{
    after_children, after_condition, after_declaration, after_identifier, after_initializer,
    after_node, after_parameter, after_shadow, after_target, condition_of, const_value,
    declared_node, function_issues, function_name, guarantees_return, has_initializer, is_read,
    is_unused, local_named, needs_return, nothing_known, operation_value, shadows, signed_operand,
    signed_value, unused_issue, unused_variables_are_reported, Env, IssueView, Known,
};
use super::expr::field_or_child;
use super::lookup::found;
use super::members::{enclosing_return_type, first_of, scope_of};
use super::names::clean;
use super::symbol::SymbolId;
use super::syntax::{lemma_by_field, lemma_descendant, lemma_named, FieldName, NodeKind, SyntaxTree};
use super::types::{BuiltinType, TypeShape};
use super::SemaView;
use crate::text;

verus! {

// ---------------------------------------------------------------------------
// Constant values
// ---------------------------------------------------------------------------
/// A comparison of constants is 1 where it holds of the numbers and 0 where it does not; so are the
/// conjunction and the disjunction of two conditions.
pub proof fn comparisons_have_their_truth(l: i64, r: i64)
    ensures
        operation_value("<"@, l, r) == Some(if l < r { 1i64 } else { 0i64 }),
        operation_value("<="@, l, r) == Some(if l <= r { 1i64 } else { 0i64 }),
        operation_value(">"@, l, r) == Some(if l > r { 1i64 } else { 0i64 }),
        operation_value(">="@, l, r) == Some(if l >= r { 1i64 } else { 0i64 }),
        operation_value("=="@, l, r) == Some(if l == r { 1i64 } else { 0i64 }),
        operation_value("!="@, l, r) == Some(if l != r { 1i64 } else { 0i64 }),
        operation_value("&&"@, l, r) == Some(if l != 0 && r != 0 { 1i64 } else { 0i64 }),
        operation_value("||"@, l, r) == Some(if l != 0 || r != 0 { 1i64 } else { 0i64 }),
{
    lemma_operators_differ();
}

/// Sums, differences and products of constants are those of the numbers, where a number holds them.
/// A quotient and what it leaves over make up the number again, and nothing is divided by zero.
pub proof fn arithmetic_on_constants_is_that_of_numbers(l: i64, r: i64)
    ensures
        i64::MIN <= l + r <= i64::MAX ==> operation_value("+"@, l, r) == Some((l + r) as i64),
        i64::MIN <= l - r <= i64::MAX ==> operation_value("-"@, l, r) == Some((l - r) as i64),
        i64::MIN <= l * r <= i64::MAX ==> operation_value("*"@, l, r) == Some((l * r) as i64),
        operation_value("/"@, l, 0) is None,
        operation_value("%"@, l, 0) is None,
        0 <= l && 0 < r ==> operation_value("/"@, l, r) == Some((l as int / r as int) as i64)
            && operation_value("%"@, l, r) == Some((l as int % r as int) as i64),
{
    lemma_operators_differ();
}

proof fn lemma_operators_differ()
    ensures
        "<"@.len() == 1 && "<"@[0] == '<',
        ">"@.len() == 1 && ">"@[0] == '>',
        "+"@.len() == 1 && "+"@[0] == '+',
        "-"@.len() == 1 && "-"@[0] == '-',
        "*"@.len() == 1 && "*"@[0] == '*',
        "/"@.len() == 1 && "/"@[0] == '/',
        "%"@.len() == 1 && "%"@[0] == '%',
        "<="@.len() == 2 && "<="@[0] == '<',
        ">="@.len() == 2 && ">="@[0] == '>',
        "=="@.len() == 2 && "=="@[0] == '=',
        "!="@.len() == 2 && "!="@[0] == '!',
        "&&"@.len() == 2 && "&&"@[0] == '&',
        "||"@.len() == 2 && "||"@[0] == '|',
{
    reveal_strlit("<");
    reveal_strlit(">");
    reveal_strlit("+");
    reveal_strlit("-");
    reveal_strlit("*");
    reveal_strlit("/");
    reveal_strlit("%");
    reveal_strlit("<=");
    reveal_strlit(">=");
    reveal_strlit("==");
    reveal_strlit("!=");
    reveal_strlit("&&");
    reveal_strlit("||");
}

/// A negation turns zero into one and all else into zero; a minus takes the number from zero.
pub proof fn signs_change_constants(s: Seq<char>, v: i64)
    ensures
        text::starts(s, "!"@) ==> signed_value(s, v) == Some(if v == 0 { 1i64 } else { 0i64 }),
        text::starts(s, "-"@) && v != i64::MIN ==> signed_value(s, v) == Some((0 - v) as i64),
        text::starts(s, "+"@) ==> signed_value(s, v) == Some(v),
{
    reveal_strlit("!");
    reveal_strlit("-");
    reveal_strlit("+");
    if s.len() > 0 {
        assert(s.subrange(0, 1)[0] == s[0]);
    }
}

/// The literals of truth and of nothing are one, zero and zero.
pub proof fn truth_has_its_value(c: SemaView, t: SyntaxTree, n: usize, constants: Map<u32, i64>)
    requires
        t.has(n),
    ensures
        t.at(n).kind == NodeKind::TrueLiteral ==> const_value(c, t, n, constants) == Some(1i64),
        t.at(n).kind == NodeKind::FalseLiteral || t.at(n).kind == NodeKind::NullLiteral
            ==> const_value(c, t, n, constants) == Some(0i64),
{
}

// ---------------------------------------------------------------------------
// What is read from a function
// ---------------------------------------------------------------------------
/// The text of a declaration makes what it declares constant.
pub open spec fn written_const(s: Seq<char>) -> bool {
    text::has(s, "constexpr "@) || text::has(s, " const "@) || text::starts(s, "const "@)
}

/// A declaration declares this local variable.
pub open spec fn declares(e: Env, d: usize, id: SymbolId) -> bool {
    &&& e.has(d)
    &&& declared_node(e.t, d) matches Some(m)
    &&& local_named(e.c, e.t, m, text::trimmed(e.t.text(m))) == Some(id)
}

/// The variable is declared constant.
pub open spec fn declared_const(e: Env, id: SymbolId) -> bool {
    exists|d: usize| #[trigger] declares(e, d, id) && written_const(e.t.text(d))
}

/// The variable is declared without a value.
pub open spec fn declared_bare(e: Env, id: SymbolId) -> bool {
    exists|d: usize| #[trigger]
        declares(e, d, id) && e.t.at(d).kind != NodeKind::ParameterDeclaration && e.t.descendant(
            d,
            NodeKind::InitDeclarator,
        ) is None && !text::has_char(e.t.text(d), '=')
}

/// The variable is declared under a name that is to be used.
pub open spec fn declared_watched(e: Env, id: SymbolId) -> bool {
    exists|d: usize| #[trigger]
        declares(e, d, id) && !text::starts(
            text::trimmed(e.t.text(declared_node(e.t, d)->0)),
            "_"@,
        )
}

/// An identifier reads the variable.
pub open spec fn reads(e: Env, n: usize, id: SymbolId) -> bool {
    e.has(n) && is_read(e.t, n) && first_of(
        found(e.c, scope_of(e.c, e.t, n), text::trimmed(e.t.text(n))),
    ) == Some(id)
}

pub open spec fn read_somewhere(e: Env, id: SymbolId) -> bool {
    exists|n: usize| #[trigger] reads(e, n, id)
}

/// The value of an expression rests on a name that is no constant, or on none that is known.
pub open spec fn rests_on_variable(e: Env, n: usize) -> bool
    decreases e.t.nodes@.len() - n,
    when e.has(n)
{
    let t = e.t;
    let kind = t.at(n).kind;
    if kind == NodeKind::Identifier || kind == NodeKind::FieldIdentifier {
        match first_of(found(e.c, scope_of(e.c, t, n), text::trimmed(t.text(n)))) {
            Some(id) => !declared_const(e, id),
            None => true,
        }
    } else if kind == NodeKind::ParenthesizedExpression {
        proof {
            lemma_named(t, n, 0);
        }
        match t.named_at(n, 0) {
            Some(m) => rests_on_variable(e, m),
            None => false,
        }
    } else if kind == NodeKind::UnaryExpression {
        proof {
            lemma_by_field(t, n, FieldName::Argument);
            lemma_named(t, n, 0);
        }
        match signed_operand(t, n) {
            Some(m) => rests_on_variable(e, m),
            None => false,
        }
    } else if kind == NodeKind::BinaryExpression {
        proof {
            lemma_by_field(t, n, FieldName::Left);
            lemma_by_field(t, n, FieldName::Right);
        }
        match (field_or_child(t, n, FieldName::Left, 0), field_or_child(t, n, FieldName::Right, 2)) {
            (Some(l), Some(r)) => rests_on_variable(e, l) || rests_on_variable(e, r),
            _ => false,
        }
    } else {
        false
    }
}

/// An issue stands at a node.
pub open spec fn issue_stands(e: Env, issue: IssueView, n: usize) -> bool {
    &&& issue.line == e.t.at(n).start_row as u32
    &&& issue.character == e.t.at(n).start_column as u32
    &&& issue.end_line == e.t.at(n).end_row as u32
    &&& issue.end_character == e.t.at(n).end_column as u32
}

/// The issue stands at the condition of a statement, whose value rests on no variable.
pub open spec fn at_settled_condition(e: Env, issue: IssueView, s: usize) -> bool {
    &&& e.has(s)
    &&& e.t.at(s).kind == NodeKind::IfStatement || e.t.at(s).kind == NodeKind::WhileStatement
        || e.t.at(s).kind == NodeKind::ForStatement || e.t.at(s).kind == NodeKind::DoStatement
    &&& condition_of(e.t, s) matches Some(m)
    &&& issue_stands(e, issue, m)
    &&& !rests_on_variable(e, m)
}

/// The issue stands at an identifier that reads a variable declared without a value.
pub open spec fn at_bare_read(e: Env, issue: IssueView, n: usize, id: SymbolId) -> bool {
    reads(e, n, id) && declared_bare(e, id) && issue_stands(e, issue, n)
}

/// The issue stands at a name that hides a variable of a scope around.
pub open spec fn at_shadow(e: Env, issue: IssueView, m: usize) -> bool {
    issue_stands(e, issue, m) && shadows(e.c, e.t, m, text::trimmed(e.t.text(m)))
}

/// Every issue has its ground in the source.
pub open spec fn grounded(e: Env, issue: IssueView) -> bool {
    &&& issue.code == "UECPP-DF-002"@ || issue.code == "UECPP-DF-003"@ || issue.code
        == "UECPP-DF-005"@
    &&& issue.code == "UECPP-DF-005"@ ==> exists|s: usize| #[trigger]
        at_settled_condition(e, issue, s)
    &&& issue.code == "UECPP-DF-002"@ ==> exists|n: usize, id: SymbolId| #[trigger]
        at_bare_read(e, issue, n, id)
    &&& issue.code == "UECPP-DF-003"@ ==> exists|m: usize| #[trigger] at_shadow(e, issue, m)
}

/// What is known while a function is read has its ground in the source.
pub open spec fn well_read(e: Env, k: Known) -> bool {
    &&& forall|id: u32| #[trigger]
        k.constants.contains_key(id) ==> declared_const(e, SymbolId(id))
    &&& forall|id: u32| #[trigger]
        k.vars.contains_key(id) && !k.vars[id].initialized ==> declared_bare(e, SymbolId(id))
    &&& forall|id: u32| #[trigger]
        k.vars.contains_key(id) && k.vars[id].used ==> read_somewhere(e, SymbolId(id))
    &&& forall|id: u32| #[trigger]
        k.vars.contains_key(id) && k.vars[id].track_unused ==> declared_watched(e, SymbolId(id))
    &&& forall|i: int| 0 <= i < k.issues.len() ==> grounded(e, #[trigger] k.issues[i])
}

proof fn lemma_codes()
    ensures
        "UECPP-DF-001"@ != "UECPP-DF-002"@,
        "UECPP-DF-001"@ != "UECPP-DF-003"@,
        "UECPP-DF-001"@ != "UECPP-DF-004"@,
        "UECPP-DF-001"@ != "UECPP-DF-005"@,
        "UECPP-DF-002"@ != "UECPP-DF-003"@,
        "UECPP-DF-002"@ != "UECPP-DF-004"@,
        "UECPP-DF-002"@ != "UECPP-DF-005"@,
        "UECPP-DF-003"@ != "UECPP-DF-004"@,
        "UECPP-DF-003"@ != "UECPP-DF-005"@,
        "UECPP-DF-004"@ != "UECPP-DF-005"@,
{
    reveal_strlit("UECPP-DF-001");
    reveal_strlit("UECPP-DF-002");
    reveal_strlit("UECPP-DF-003");
    reveal_strlit("UECPP-DF-004");
    reveal_strlit("UECPP-DF-005");
    assert("UECPP-DF-001"@[11] == '1');
    assert("UECPP-DF-002"@[11] == '2');
    assert("UECPP-DF-003"@[11] == '3');
    assert("UECPP-DF-004"@[11] == '4');
    assert("UECPP-DF-005"@[11] == '5');
}

/// An expression that rests on a variable has no constant value.
proof fn lemma_no_value(e: Env, n: usize, constants: Map<u32, i64>)
    requires
        e.has(n),
        rests_on_variable(e, n),
        forall|id: u32| #[trigger]
            constants.contains_key(id) ==> declared_const(e, SymbolId(id)),
    ensures
        const_value(e.c, e.t, n, constants) is None,
    decreases e.t.nodes@.len() - n,
{
    let t = e.t;
    let kind = t.at(n).kind;
    if kind == NodeKind::Identifier || kind == NodeKind::FieldIdentifier {
        if let Some(id) = first_of(found(e.c, scope_of(e.c, t, n), text::trimmed(t.text(n)))) {
            assert(SymbolId(id.0) == id);
        }
    } else if kind == NodeKind::ParenthesizedExpression {
        lemma_named(t, n, 0);
        if let Some(m) = t.named_at(n, 0) {
            lemma_no_value(e, m, constants);
        }
    } else if kind == NodeKind::UnaryExpression {
        lemma_by_field(t, n, FieldName::Argument);
        lemma_named(t, n, 0);
        if let Some(m) = signed_operand(t, n) {
            lemma_no_value(e, m, constants);
        }
    } else if kind == NodeKind::BinaryExpression {
        lemma_by_field(t, n, FieldName::Left);
        lemma_by_field(t, n, FieldName::Right);
        let l = field_or_child(t, n, FieldName::Left, 0)->0;
        let r = field_or_child(t, n, FieldName::Right, 2)->0;
        if rests_on_variable(e, l) {
            lemma_no_value(e, l, constants);
        } else {
            lemma_no_value(e, r, constants);
        }
    }
}

proof fn lemma_shadow_step(e: Env, k: Known, m: usize, head: Seq<char>)
    requires
        well_read(e, k),
    ensures
        well_read(e, after_shadow(e, k, m, text::trimmed(e.t.text(m)), head)),
{
    lemma_codes();
    let name = text::trimmed(e.t.text(m));
    let now = after_shadow(e, k, m, name, head);
    if shadows(e.c, e.t, m, name) {
        let issue = now.issues[k.issues.len() as int];
        assert(at_shadow(e, issue, m));
        assert forall|i: int| 0 <= i < now.issues.len() implies grounded(
            e,
            #[trigger] now.issues[i],
        ) by {
            if i < k.issues.len() {
                assert(now.issues[i] == k.issues[i]);
            }
        }
        assert(forall|id: u32| #[trigger] now.vars.contains_key(id) <==> k.vars.contains_key(id));
    }
}

proof fn lemma_declaration_step(e: Env, n: usize, k: Known)
    requires
        e.has(n),
        well_read(e, k),
    ensures
        well_read(e, after_declaration(e, n, k)),
{
    if let Some(m) = declared_node(e.t, n) {
        let name = text::trimmed(e.t.text(m));
        if let Some(id) = local_named(e.c, e.t, m, name) {
            if name.len() > 0 {
                lemma_shadow_step(e, k, m, "Local variable "@);
                let noted = after_shadow(e, k, m, name, "Local variable "@);
                let now = after_declaration(e, n, k);
                assert(declares(e, n, id));
                assert(SymbolId(id.0) == id);
                assert(now.issues == noted.issues);
                assert forall|x: u32| #[trigger] now.constants.contains_key(x) implies declared_const(
                    e,
                    SymbolId(x),
                ) by {
                    if x != id.0 {
                        assert(noted.constants.contains_key(x));
                    } else if !noted.constants.contains_key(x) {
                        assert(written_const(e.t.text(n)));
                    }
                }
                assert forall|x: u32| #[trigger] now.vars.contains_key(x) && !now.vars[x].initialized implies declared_bare(
                    e,
                    SymbolId(x),
                ) by {
                    if x != id.0 {
                        assert(noted.vars.contains_key(x));
                    } else {
                        assert(declares(e, n, id));
                    }
                }
                assert forall|x: u32| #[trigger] now.vars.contains_key(x) && now.vars[x].used implies read_somewhere(
                    e,
                    SymbolId(x),
                ) by {
                    assert(noted.vars.contains_key(x));
                }
                assert forall|x: u32| #[trigger] now.vars.contains_key(x) && now.vars[x].track_unused implies declared_watched(
                    e,
                    SymbolId(x),
                ) by {
                    if x != id.0 {
                        assert(noted.vars.contains_key(x));
                    } else {
                        assert(declares(e, n, id));
                    }
                }
            }
        }
    }
}

proof fn lemma_parameter_step(e: Env, n: usize, k: Known)
    requires
        e.has(n),
        well_read(e, k),
    ensures
        well_read(e, after_parameter(e, n, k)),
{
    if let Some(m) = declared_node(e.t, n) {
        let name = text::trimmed(e.t.text(m));
        if name.len() > 0 {
            lemma_shadow_step(e, k, m, "Parameter "@);
            let noted = after_shadow(e, k, m, name, "Parameter "@);
            if let Some(id) = local_named(e.c, e.t, m, name) {
                let now = after_parameter(e, n, k);
                assert(now.issues == noted.issues);
                assert forall|x: u32| #[trigger] now.vars.contains_key(x) implies x == id.0
                    || noted.vars.contains_key(x) by {}
                assert(forall|x: u32| x != id.0 && #[trigger] now.vars.contains_key(x)
                    ==> noted.vars.contains_key(x) && now.vars[x] == noted.vars[x]);
            }
        }
    }
}

proof fn lemma_identifier_step(e: Env, n: usize, k: Known)
    requires
        e.has(n),
        well_read(e, k),
    ensures
        well_read(e, after_identifier(e, n, k)),
{
    lemma_codes();
    let name = text::trimmed(e.t.text(n));
    let now = after_identifier(e, n, k);
    if is_read(e.t, n) && name.len() > 0 {
        if let Some(id) = first_of(found(e.c, scope_of(e.c, e.t, n), name)) {
            if k.vars.contains_key(id.0) {
                assert(reads(e, n, id));
                assert(SymbolId(id.0) == id);
                assert(forall|x: u32| #[trigger] now.vars.contains_key(x) ==> k.vars.contains_key(x)
                    && now.vars[x].initialized == k.vars[x].initialized && now.vars[x].track_unused
                    == k.vars[x].track_unused && (x != id.0 ==> now.vars[x] == k.vars[x]));
                assert forall|x: u32| #[trigger] now.vars.contains_key(x) && now.vars[x].used implies read_somewhere(
                    e,
                    SymbolId(x),
                ) by {
                    assert(k.vars.contains_key(x));
                }
                assert forall|i: int| 0 <= i < now.issues.len() implies grounded(
                    e,
                    #[trigger] now.issues[i],
                ) by {
                    if i < k.issues.len() {
                        assert(now.issues[i] == k.issues[i]);
                    } else {
                        assert(declared_bare(e, id));
                        assert(at_bare_read(e, now.issues[i], n, id));
                    }
                }
            }
        }
    }
}

proof fn lemma_target_step(e: Env, n: usize, k: Known)
    requires
        well_read(e, k),
    ensures
        well_read(e, after_target(e, n, k)),
{
    let now = after_target(e, n, k);
    assert(forall|x: u32| #[trigger] now.constants.contains_key(x) ==> k.constants.contains_key(x));
    assert(forall|x: u32| #[trigger] now.vars.contains_key(x) ==> k.vars.contains_key(x)
        && now.vars[x].used == k.vars[x].used && now.vars[x].track_unused == k.vars[x].track_unused
        && (!now.vars[x].initialized ==> !k.vars[x].initialized));
}

proof fn lemma_condition_step(e: Env, n: usize, k: Known)
    requires
        e.has(n),
        e.t.at(n).kind == NodeKind::IfStatement || e.t.at(n).kind == NodeKind::WhileStatement
            || e.t.at(n).kind == NodeKind::ForStatement || e.t.at(n).kind == NodeKind::DoStatement,
        well_read(e, k),
    ensures
        well_read(e, after_condition(e, n, k)),
{
    lemma_codes();
    let now = after_condition(e, n, k);
    if let Some(m) = condition_of(e.t, n) {
        lemma_condition_there(e.t, n);
        if rests_on_variable(e, m) {
            lemma_no_value(e, m, k.constants);
        }
        if const_value(e.c, e.t, m, k.constants) is Some {
            assert(at_settled_condition(e, now.issues[k.issues.len() as int], n));
            assert forall|i: int| 0 <= i < now.issues.len() implies grounded(
                e,
                #[trigger] now.issues[i],
            ) by {
                if i < k.issues.len() {
                    assert(now.issues[i] == k.issues[i]);
                }
            }
        }
    }
}

proof fn lemma_condition_there(t: SyntaxTree, n: usize)
    requires
        t.has(n),
    ensures
        condition_of(t, n) matches Some(m) ==> t.has(m),
{
    lemma_by_field(t, n, FieldName::Condition);
    lemma_clause_there(t, n, 0);
    let clause = match t.by_field(n, FieldName::Condition) {
        Some(m) => Some(m),
        None => super::dataflow::clause_from(t, n, 0),
    };
    if let Some(m) = clause {
        lemma_named(t, m, 0);
    }
}

proof fn lemma_clause_there(t: SyntaxTree, n: usize, k: int)
    requires
        t.has(n),
    ensures
        super::dataflow::clause_from(t, n, k) matches Some(m) ==> t.has(m),
    decreases t.kids(n).len() - k,
{
    if 0 <= k < t.kids(n).len() {
        lemma_clause_there(t, n, k + 1);
    }
}

/// Whatever is read, what is known of it has its ground in the source: only what is declared
/// constant is a constant, only what is declared without a value is without one, only what is read
/// is used, and every issue stands where the source gives rise to it.
pub proof fn what_is_known_has_its_ground(e: Env, n: usize, k: Known)
    requires
        e.has(n),
        well_read(e, k),
    ensures
        well_read(e, after_node(e, n, k)),
    decreases e.t.nodes@.len() - n, 1nat, 0nat,
{
    let kind = e.t.at(n).kind;
    if kind == NodeKind::Declaration {
        lemma_by_field(e.t, n, FieldName::Declarator);
        lemma_declaration_step(e, n, k);
        let declared = after_declaration(e, n, k);
        if let Some(d) = e.t.by_field(n, FieldName::Declarator) {
            lemma_initializer_read(e, d, 0, declared);
        }
    } else if kind == NodeKind::ParameterDeclaration {
        lemma_parameter_step(e, n, k);
    } else if kind == NodeKind::AssignmentExpression {
        lemma_by_field(e.t, n, FieldName::Left);
        lemma_by_field(e.t, n, FieldName::Right);
        let right = match field_or_child(e.t, n, FieldName::Right, 2) {
            Some(r) => {
                what_is_known_has_its_ground(e, r, k);
                after_node(e, r, k)
            },
            None => k,
        };
        if let Some(l) = field_or_child(e.t, n, FieldName::Left, 0) {
            if e.t.at(l).kind == NodeKind::Identifier {
                lemma_target_step(e, l, right);
            } else {
                what_is_known_has_its_ground(e, l, right);
            }
        }
    } else if kind == NodeKind::IfStatement || kind == NodeKind::WhileStatement || kind
        == NodeKind::ForStatement || kind == NodeKind::DoStatement {
        lemma_condition_step(e, n, k);
        lemma_children_read(e, n, 0, after_condition(e, n, k));
    } else if kind == NodeKind::Identifier {
        lemma_identifier_step(e, n, k);
    } else {
        lemma_children_read(e, n, 0, k);
    }
}

proof fn lemma_children_read(e: Env, n: usize, i: int, k: Known)
    requires
        e.has(n),
        0 <= i <= e.t.kids(n).len(),
        well_read(e, k),
    ensures
        well_read(e, after_children(e, n, i, k)),
    decreases e.t.nodes@.len() - n, 0nat, e.t.kids(n).len() - i,
{
    if i < e.t.kids(n).len() {
        what_is_known_has_its_ground(e, e.t.kids(n)[i], k);
        lemma_children_read(e, n, i + 1, after_node(e, e.t.kids(n)[i], k));
    }
}

proof fn lemma_initializer_read(e: Env, n: usize, i: int, k: Known)
    requires
        e.has(n),
        0 <= i <= e.t.kids(n).len(),
        well_read(e, k),
    ensures
        well_read(e, after_initializer(e, n, i, k)),
    decreases e.t.nodes@.len() - n, 0nat, e.t.kids(n).len() - i,
{
    if i < e.t.kids(n).len() {
        let child = e.t.kids(n)[i];
        if e.t.at(child).kind == NodeKind::Identifier || e.t.at(child).kind
            == NodeKind::FieldIdentifier {
            lemma_initializer_read(e, n, i + 1, k);
        } else {
            what_is_known_has_its_ground(e, child, k);
            lemma_initializer_read(e, n, i + 1, after_node(e, child, k));
        }
    }
}

// ---------------------------------------------------------------------------
// Single steps
// ---------------------------------------------------------------------------
/// A declared variable is not used yet. It has a value where one is written, and is watched unless
/// its name begins with an underscore or its type guards a resource.
pub proof fn declared_variables_start_unused(e: Env, n: usize, k: Known, id: SymbolId)
    requires
        e.has(n),
        declares(e, n, id),
        text::trimmed(e.t.text(declared_node(e.t, n)->0)).len() > 0,
        e.t.at(n).kind == NodeKind::Declaration,
    ensures
        ({
            let now = after_declaration(e, n, k);
            let name = text::trimmed(e.t.text(declared_node(e.t, n)->0));
            let written = match e.t.by_field(n, FieldName::Type) {
                Some(m) => clean(e.t.text(m)),
                None => Seq::empty(),
            };
            let guards = exists|i: int|
                0 <= i < e.prefixes.len() && text::starts(written, #[trigger] e.prefixes[i]);
            &&& now.vars.contains_key(id.0)
            &&& now.vars[id.0].name == name
            &&& !now.vars[id.0].used
            &&& now.vars[id.0].initialized <==> e.t.descendant(n, NodeKind::InitDeclarator) is Some
                || text::has_char(e.t.text(n), '=')
            &&& now.vars[id.0].track_unused <==> !text::starts(name, "_"@) && !guards
            &&& now.order == k.order.push(id)
            &&& forall|x: u32|
                x != id.0 ==> (#[trigger] now.vars.contains_key(x) <==> k.vars.contains_key(x))
        }),
{
}

/// A parameter has a value and need not be used.
pub proof fn parameters_need_not_be_used(e: Env, n: usize, k: Known, id: SymbolId)
    requires
        e.has(n),
        declares(e, n, id),
        text::trimmed(e.t.text(declared_node(e.t, n)->0)).len() > 0,
    ensures
        after_parameter(e, n, k).vars.contains_key(id.0),
        after_parameter(e, n, k).vars[id.0].initialized,
        !after_parameter(e, n, k).vars[id.0].track_unused,
        after_parameter(e, n, k).constants == k.constants,
        after_parameter(e, n, k).order == k.order,
{
}

/// Reading a known variable marks it as used, and is reported exactly where it has no value yet.
pub proof fn reading_uses_a_variable(e: Env, n: usize, k: Known, id: SymbolId)
    requires
        e.has(n),
        reads(e, n, id),
        text::trimmed(e.t.text(n)).len() > 0,
        k.vars.contains_key(id.0),
    ensures
        after_identifier(e, n, k).vars[id.0].used,
        after_identifier(e, n, k).vars[id.0].initialized == k.vars[id.0].initialized,
        k.vars[id.0].initialized ==> after_identifier(e, n, k).issues == k.issues,
        !k.vars[id.0].initialized ==> ({
            let issues = after_identifier(e, n, k).issues;
            &&& issues.len() == k.issues.len() + 1
            &&& issues.last().code == "UECPP-DF-002"@
            &&& issues.last().message == "Local variable "@ + k.vars[id.0].name
                + " may be used before it is initialized."@
            &&& issue_stands(e, issues.last(), n)
        }),
        after_identifier(e, n, k).constants == k.constants,
{
}

/// Assigning to a known variable gives it a value, which is no constant, and does not use it: it may
/// be read from then on without a report.
pub proof fn assigning_gives_a_value(e: Env, n: usize, m: usize, k: Known, id: SymbolId)
    requires
        e.has(n),
        e.has(m),
        first_of(found(e.c, scope_of(e.c, e.t, n), text::trimmed(e.t.text(n)))) == Some(id),
        reads(e, m, id),
        k.vars.contains_key(id.0),
    ensures
        after_target(e, n, k).vars[id.0].initialized,
        after_target(e, n, k).vars[id.0].used == k.vars[id.0].used,
        !after_target(e, n, k).constants.contains_key(id.0),
        after_target(e, n, k).issues == k.issues,
        after_identifier(e, m, after_target(e, n, k)).issues == k.issues,
{
}

/// A condition that has a constant value is reported, and one that has none is not.
pub proof fn constant_conditions_are_reported(e: Env, n: usize, k: Known, m: usize)
    requires
        e.has(n),
        condition_of(e.t, n) == Some(m),
    ensures
        const_value(e.c, e.t, m, k.constants) is None ==> after_condition(e, n, k) == k,
        const_value(e.c, e.t, m, k.constants) matches Some(v) ==> {
            let issues = after_condition(e, n, k).issues;
            &&& issues.len() == k.issues.len() + 1
            &&& issues.last().code == "UECPP-DF-005"@
            &&& v != 0 ==> issues.last().message == "Condition is always true."@
            &&& v == 0 ==> issues.last().message == "Condition is always false."@
            &&& issue_stands(e, issues.last(), m)
        },
{
    reveal_strlit("Condition is always ");
    reveal_strlit("true");
    reveal_strlit("false");
    reveal_strlit(".");
    reveal_strlit("Condition is always true.");
    reveal_strlit("Condition is always false.");
    assert("Condition is always "@ + "true"@ + "."@ =~= "Condition is always true."@);
    assert("Condition is always "@ + "false"@ + "."@ =~= "Condition is always false."@);
}

/// A constant has the value that its declaration gives it.
pub proof fn constants_have_their_initial_value(e: Env, n: usize, k: Known, id: SymbolId)
    requires
        e.has(n),
        declares(e, n, id),
        !k.constants.contains_key(id.0),
        after_declaration(e, n, k).constants.contains_key(id.0),
    ensures
        ({
            let d = e.t.by_field(n, FieldName::Declarator)->0;
            let x = super::dataflow::initializer(e.t, d)->0;
            &&& written_const(e.t.text(n))
            &&& e.t.by_field(n, FieldName::Declarator) is Some
            &&& super::dataflow::initializer(e.t, d) is Some
            &&& const_value(e.c, e.t, x, k.constants) == Some(
                after_declaration(e, n, k).constants[id.0],
            )
        }),
{
}

// ---------------------------------------------------------------------------
// A whole function
// ---------------------------------------------------------------------------
/// A variable that is declared, watched and never read is reported under its name.
pub open spec fn names_unread(e: Env, issue: IssueView, id: SymbolId, name: Seq<char>) -> bool {
    declared_watched(e, id) && issue.message == "Local variable "@ + name + " is never used."@
}

/// Every warning about a function has its ground in the source. A condition is called constant only
/// where its value rests on no variable that is not declared constant; a variable is called
/// uninitialised only where it is read and was declared without a value; a name is said to shadow
/// another only where it hides a variable; a return is called missing only where a value is to be
/// returned and control may reach the end; and a variable is called unused only where it is declared
/// under a name that is to be used.
pub proof fn warnings_have_their_ground(e: Env, n: usize, i: int)
    requires
        e.has(n),
        0 <= i < function_issues(e, n).len(),
    ensures
        ({
            let issue = function_issues(e, n)[i];
            ||| issue.code == "UECPP-DF-005"@ && exists|s: usize| #[trigger]
                at_settled_condition(e, issue, s)
            ||| issue.code == "UECPP-DF-002"@ && exists|x: usize, id: SymbolId| #[trigger]
                at_bare_read(e, issue, x, id)
            ||| issue.code == "UECPP-DF-003"@ && exists|m: usize| #[trigger] at_shadow(e, issue, m)
            ||| issue.code == "UECPP-DF-004"@ && needs_return(e.c, e.t, n) && (e.t.descendant(
                n,
                NodeKind::CompoundStatement,
            ) matches Some(body) && !guarantees_return(e.t, body))
            ||| issue.code == "UECPP-DF-001"@ && exists|id: SymbolId, name: Seq<char>| #[trigger]
                names_unread(e, issue, id, name)
        }),
{
    lemma_codes();
    let all = function_issues(e, n);
    let body = e.t.descendant(n, NodeKind::CompoundStatement)->0;
    lemma_descendant(e.t, n, NodeKind::CompoundStatement);
    assert(well_read(e, nothing_known()));
    lemma_children_read(e, body, 0, nothing_known());
    let k = after_children(e, body, 0, nothing_known());
    let unused = super::dataflow::unused_from(k.vars, k.order, 0);
    if i < k.issues.len() {
        assert(all[i] == k.issues[i]);
        assert(grounded(e, k.issues[i]));
    } else if i >= all.len() - unused.len() {
        let j = i - (all.len() - unused.len());
        assert(all[i] == unused[j]);
        assert(unused.contains(all[i]));
        unused_variables_are_reported(k.vars, k.order, 0, all[i]);
        let x = choose|x: int|
            0 <= x && #[trigger] is_unused(k.vars, k.order, x) && all[i] == unused_issue(
                k.vars[k.order[x].0],
            );
        let id = k.order[x];
        assert(k.vars.contains_key(id.0));
        assert(SymbolId(id.0) == id);
        assert(names_unread(e, all[i], id, k.vars[id.0].name));
    }
}

/// Where the value of every condition rests on a variable, none is called constant.
pub proof fn variable_conditions_are_not_called_constant(e: Env, n: usize, i: int)
    requires
        e.has(n),
        0 <= i < function_issues(e, n).len(),
        forall|s: usize|
            e.has(s) ==> (#[trigger] condition_of(e.t, s) matches Some(m) ==> rests_on_variable(
                e,
                m,
            )),
    ensures
        function_issues(e, n)[i].code != "UECPP-DF-005"@,
{
    lemma_codes();
    warnings_have_their_ground(e, n, i);
    let issue = function_issues(e, n)[i];
    if issue.code == "UECPP-DF-005"@ {
        let s = choose|s: usize| #[trigger] at_settled_condition(e, issue, s);
        assert(condition_of(e.t, s) is Some);
    }
}

/// A function that has to return a value, whose end control may reach, is reported at its name.
pub proof fn missing_returns_are_reported(e: Env, n: usize, body: usize, m: usize)
    requires
        e.has(n),
        e.t.descendant(n, NodeKind::CompoundStatement) == Some(body),
        function_name(e.t, n) == Some(m),
    ensures
        (exists|i: int|
            0 <= i < function_issues(e, n).len() && (#[trigger] function_issues(e, n)[i]).code
                == "UECPP-DF-004"@ && issue_stands(e, function_issues(e, n)[i], m)) <==> needs_return(
            e.c,
            e.t,
            n,
        ) && !guarantees_return(e.t, body),
{
    lemma_codes();
    let all = function_issues(e, n);
    let k = after_children(e, body, 0, nothing_known());
    if needs_return(e.c, e.t, n) && !guarantees_return(e.t, body) {
        assert(all[k.issues.len() as int].code == "UECPP-DF-004"@);
        assert(issue_stands(e, all[k.issues.len() as int], m));
    }
    if exists|i: int|
        0 <= i < all.len() && (#[trigger] all[i]).code == "UECPP-DF-004"@ && issue_stands(
            e,
            all[i],
            m,
        ) {
        let i = choose|i: int|
            0 <= i < all.len() && (#[trigger] all[i]).code == "UECPP-DF-004"@ && issue_stands(
                e,
                all[i],
                m,
            );
        warnings_have_their_ground(e, n, i);
    }
}

/// A function has to return a value where it is not marked as never returning and the type that it
/// returns is known and not void.
pub proof fn values_are_owed_unless_void(e: Env, n: usize)
    ensures
        e.c.source is Some && text::has(e.t.text(n), "[[noreturn]]"@) ==> !needs_return(
            e.c,
            e.t,
            n,
        ),
        enclosing_return_type(e.c, e.t, n) is None ==> !needs_return(e.c, e.t, n),
        enclosing_return_type(e.c, e.t, n) matches Some(id) ==> {
            &&& e.c.kind(id) == Some(TypeShape::Builtin(BuiltinType::Void)) ==> !needs_return(
                e.c,
                e.t,
                n,
            )
            &&& e.c.source is Some && !text::has(e.t.text(n), "[[noreturn]]"@) && e.c.kind(id)
                is Some && (e.c.kind(id)->0 is Class || e.c.kind(id)->0 is Pointer || e.c.kind(
                id,
            )->0 is Reference || e.c.kind(id)->0 is Enum || e.c.kind(id) == Some(
                TypeShape::Builtin(BuiltinType::Int32),
            ) || e.c.kind(id) == Some(TypeShape::Builtin(BuiltinType::Bool))) ==> needs_return(
                e.c,
                e.t,
                n,
            )
        },
{
}

/// A watched variable that nothing in the source reads is reported as unused.
pub proof fn unread_variables_are_reported(e: Env, n: usize, body: usize, x: int)
    requires
        e.has(n),
        e.t.descendant(n, NodeKind::CompoundStatement) == Some(body),
        ({
            let k = after_children(e, body, 0, nothing_known());
            &&& 0 <= x < k.order.len()
            &&& k.vars.contains_key(k.order[x].0)
            &&& k.vars[k.order[x].0].track_unused
            &&& !read_somewhere(e, k.order[x])
        }),
    ensures
        ({
            let var = after_children(e, body, 0, nothing_known()).vars[after_children(
                e,
                body,
                0,
                nothing_known(),
            ).order[x].0];
            exists|i: int|
                0 <= i < function_issues(e, n).len() && (#[trigger] function_issues(e, n)[i]).code
                    == "UECPP-DF-001"@ && function_issues(e, n)[i].message == "Local variable "@
                    + var.name + " is never used."@ && function_issues(e, n)[i].line
                    == var.decl_line && function_issues(e, n)[i].character == var.decl_col
        }),
{
    let all = function_issues(e, n);
    lemma_descendant(e.t, n, NodeKind::CompoundStatement);
    assert(well_read(e, nothing_known()));
    lemma_children_read(e, body, 0, nothing_known());
    let k = after_children(e, body, 0, nothing_known());
    let id = k.order[x];
    assert(SymbolId(id.0) == id);
    let issue = unused_issue(k.vars[id.0]);
    unused_variables_are_reported(k.vars, k.order, 0, issue);
    assert(is_unused(k.vars, k.order, x));
    let unused = super::dataflow::unused_from(k.vars, k.order, 0);
    let j = choose|j: int| 0 <= j < unused.len() && unused[j] == issue;
    let at = all.len() - unused.len() + j;
    assert(all[at] == unused[j]);
}

} // verus!
