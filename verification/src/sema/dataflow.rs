//! What the local variables of a function are used for.
use std::collections::HashMap;
use vstd::prelude::*;

use super::cfg::{block_views, build_cfg, function_blocks, BlockId, Cfg};
use super::expr::{child_or, field_or_child};
use super::lookup::found;
use super::members::{declared_around, enclosing_return_type, first_of, scope_of};
use super::names::{clean, clean_type_string};
use super::symbol::{Storage, SymbolId, SymbolKind, SymbolShape};
use super::syntax::{
    is_wrapping_declarator, lemma_by_field, lemma_named, wraps_declarator,
    FieldName, NodeKind, SyntaxTree,
};
use super::types::{BuiltinType, TypeKind, TypeShape};
use super::{SemaContext, SemaView};
use crate::text;

verus! {

broadcast use vstd::std_specs::hash::group_hash_axioms;

#[derive(Debug)]
pub struct DataflowIssue {
    pub code: &'static str,
    pub message: String,
    pub line: u32,
    pub character: u32,
    pub end_line: u32,
    pub end_character: u32,
}

#[verifier::ext_equal]
pub struct IssueView {
    pub code: Seq<char>,
    pub message: Seq<char>,
    pub line: u32,
    pub character: u32,
    pub end_line: u32,
    pub end_character: u32,
}

impl View for DataflowIssue {
    type V = IssueView;

    open spec fn view(&self) -> IssueView {
        IssueView {
            code: self.code@,
            message: self.message@,
            line: self.line,
            character: self.character,
            end_line: self.end_line,
            end_character: self.end_character,
        }
    }
}

pub open spec fn issue_views(v: Seq<DataflowIssue>) -> Seq<IssueView> {
    v.map_values(|i: DataflowIssue| i@)
}

#[derive(Debug)]
pub struct DataflowResult {
    pub _cfg: Cfg,
    pub issues: Vec<DataflowIssue>,
}

struct LocalVarState {
    name: String,
    decl_line: u32,
    decl_col: u32,
    decl_end_col: u32,
    initialized: bool,
    used: bool,
    track_unused: bool,
}

/// A local variable as a mathematical value.
#[verifier::ext_equal]
pub struct VarView {
    pub name: Seq<char>,
    pub decl_line: u32,
    pub decl_col: u32,
    pub decl_end_col: u32,
    pub initialized: bool,
    pub used: bool,
    pub track_unused: bool,
}

impl LocalVarState {
    spec fn view(&self) -> VarView {
        VarView {
            name: self.name@,
            decl_line: self.decl_line,
            decl_col: self.decl_col,
            decl_end_col: self.decl_end_col,
            initialized: self.initialized,
            used: self.used,
            track_unused: self.track_unused,
        }
    }
}

/// What is known while a function is read: the variables, those of them that are constant, the
/// order of their declarations, and the issues.
#[verifier::ext_equal]
pub struct Known {
    pub vars: Map<u32, VarView>,
    pub constants: Map<u32, i64>,
    pub order: Seq<SymbolId>,
    pub issues: Seq<IssueView>,
}

/// What a function is read against.
pub struct Env {
    pub c: SemaView,
    pub t: SyntaxTree,
    pub prefixes: Seq<Seq<char>>,
}

impl Env {
    pub open spec fn has(self, n: usize) -> bool {
        self.t.has(n)
    }
}

pub open spec fn issue_at(code: Seq<char>, message: Seq<char>, t: SyntaxTree, n: usize) -> IssueView {
    IssueView {
        code,
        message,
        line: t.at(n).start_row as u32,
        character: t.at(n).start_column as u32,
        end_line: t.at(n).end_row as u32,
        end_character: t.at(n).end_column as u32,
    }
}

pub open spec fn with_issue(k: Known, i: IssueView) -> Known {
    Known { issues: k.issues.push(i), ..k }
}

/// The node that holds the name of what is declared.
pub open spec fn own_name(t: SyntaxTree, n: usize) -> Option<usize>
    decreases t.nodes@.len() - n, t.kids(n).len() + 1,
    when t.has(n)
{
    let kind = t.at(n).kind;
    if kind == NodeKind::Identifier || kind == NodeKind::FieldIdentifier {
        Some(n)
    } else if wraps_declarator(kind) {
        proof {
            lemma_by_field(t, n, FieldName::Declarator);
        }
        match t.by_field(n, FieldName::Declarator) {
            Some(d) => own_name(t, d),
            None => None,
        }
    } else {
        own_name_from(t, n, 0)
    }
}

pub open spec fn own_name_from(t: SyntaxTree, n: usize, k: int) -> Option<usize>
    decreases t.nodes@.len() - n, t.kids(n).len() - k,
    when t.has(n) && 0 <= k <= t.kids(n).len()
{
    if k >= t.kids(n).len() {
        None
    } else {
        match own_name(t, t.kids(n)[k]) {
            Some(x) => Some(x),
            None => own_name_from(t, n, k + 1),
        }
    }
}

fn find_name_node(t: &SyntaxTree, n: usize) -> (r: Option<usize>)
    requires
        t.has(n),
    ensures
        r == own_name(*t, n),
        r matches Some(x) ==> t.has(x),
    decreases t.nodes@.len() - n,
{
    let kind = t.nodes[n].kind;
    if kind == NodeKind::Identifier || kind == NodeKind::FieldIdentifier {
        return Some(n);
    }
    if is_wrapping_declarator(kind) {
        return match t.child_by_field(n, FieldName::Declarator) {
            Some(d) => find_name_node(t, d),
            None => None,
        };
    }
    let c: usize = t.nodes[n].children.len();
    let mut k: usize = 0;
    while k < c
        invariant
            t.has(n),
            c == t.kids(n).len(),
            k <= c,
            own_name(*t, n) == own_name_from(*t, n, k as int),
        decreases c - k,
    {
        let child: usize = t.nodes[n].children[k];
        assert(child == t.kids(n)[k as int]);
        match find_name_node(t, child) {
            Some(x) => {
                return Some(x);
            },
            None => {},
        }
        k = k + 1;
    }
    None
}

/// The name node of what a declaration declares.
pub open spec fn declared_node(t: SyntaxTree, n: usize) -> Option<usize> {
    match t.by_field(n, FieldName::Declarator) {
        Some(d) => own_name(t, d),
        None => None,
    }
}

fn declared_name_node(t: &SyntaxTree, n: usize) -> (r: Option<usize>)
    requires
        t.has(n),
    ensures
        r == declared_node(*t, n),
        r matches Some(x) ==> t.has(x),
{
    match t.child_by_field(n, FieldName::Declarator) {
        Some(d) => find_name_node(t, d),
        None => None,
    }
}

/// Whether a symbol is a local variable or a parameter of this scope.
pub open spec fn is_local(c: SemaView, id: SymbolId, scope: super::scope::ScopeId) -> bool {
    match c.symbols.symbol(id) {
        None => false,
        Some(s) => s.scope == scope && match s.kind {
            SymbolShape::Variable { storage, .. } => storage == Storage::Local || storage
                == Storage::Parameter,
            _ => false,
        },
    }
}

pub open spec fn first_local(c: SemaView, ids: Seq<SymbolId>, scope: super::scope::ScopeId, k: int) -> Option<
    SymbolId,
>
    decreases ids.len() - k,
{
    if k < 0 || k >= ids.len() {
        None
    } else if is_local(c, ids[k], scope) {
        Some(ids[k])
    } else {
        first_local(c, ids, scope, k + 1)
    }
}

/// The local variable of this name that is declared in the scope of a node.
pub open spec fn local_named(c: SemaView, t: SyntaxTree, n: usize, name: Seq<char>) -> Option<SymbolId> {
    first_local(c, found(c, scope_of(c, t, n), name), scope_of(c, t, n), 0)
}

pub open spec fn is_variable(c: SemaView, id: SymbolId) -> bool {
    match c.symbols.kind(id) {
        Some(kind) => kind is Variable,
        None => false,
    }
}

/// Whether the name hides a variable of a scope around.
pub open spec fn shadows(c: SemaView, t: SyntaxTree, n: usize, name: Seq<char>) -> bool {
    exists|k: int|
        0 <= k < declared_around(c, t, n, name).len() && is_variable(
            c,
            #[trigger] declared_around(c, t, n, name)[k],
        )
}

fn local_symbol_for_name(ctx: &SemaContext, t: &SyntaxTree, n: usize, name: &str) -> (r: Option<SymbolId>)
    requires
        t.has(n),
    ensures
        r == local_named(ctx@, *t, n, name@),
{
    let scope = ctx.scope_for_node(t, n);
    let ids = ctx.lookup_name_at_node(t, n, name);
    let c: usize = ids.len();
    let mut i: usize = 0;
    while i < c
        invariant
            c == ids@.len(),
            i <= c,
            local_named(ctx@, *t, n, name@) == first_local(ctx@, ids@, scope, i as int),
        decreases c - i,
    {
        match ctx.symbols.get(ids[i]) {
            Some(symbol) => {
                if symbol.scope == scope && matches!(
                    symbol.kind,
                    SymbolKind::Variable { storage: Storage::Local | Storage::Parameter, .. }
                ) {
                    return Some(ids[i]);
                }
            },
            None => {},
        }
        i = i + 1;
    }
    None
}

fn hides_outer_variable(ctx: &SemaContext, t: &SyntaxTree, n: usize, name: &str) -> (r: bool)
    requires
        t.has(n),
    ensures
        r == shadows(ctx@, *t, n, name@),
{
    let ids = ctx.lookup_name_in_parent_scopes(t, n, name);
    let c: usize = ids.len();
    let mut i: usize = 0;
    while i < c
        invariant
            ids@ == declared_around(ctx@, *t, n, name@),
            c == ids@.len(),
            i <= c,
            forall|j: int| 0 <= j < i ==> !is_variable(ctx@, #[trigger] ids@[j]),
        decreases c - i,
    {
        match ctx.symbols.get(ids[i]) {
            Some(symbol) => {
                if matches!(symbol.kind, SymbolKind::Variable { .. }) {
                    assert(is_variable(ctx@, ids@[i as int]));
                    return true;
                }
            },
            None => {},
        }
        assert(!is_variable(ctx@, ids@[i as int]));
        i = i + 1;
    }
    false
}

/// Whether the type guards a resource, so that declaring it is use enough.
pub open spec fn is_raii(prefixes: Seq<Seq<char>>, s: Seq<char>) -> bool {
    exists|k: int| 0 <= k < prefixes.len() && text::starts(s, #[trigger] prefixes[k])
}

fn is_raii_type(prefixes: &Vec<String>, s: &str) -> (r: bool)
    ensures
        r == is_raii(text::texts(prefixes@), s@),
{
    let ghost p = text::texts(prefixes@);
    let n: usize = prefixes.len();
    let mut i: usize = 0;
    while i < n
        invariant
            p == text::texts(prefixes@),
            n == prefixes@.len(),
            i <= n,
            forall|k: int| 0 <= k < i ==> !text::starts(s@, #[trigger] p[k]),
        decreases n - i,
    {
        assert(p[i as int] == prefixes@[i as int]@);
        if text::starts_with(s, &prefixes[i]) {
            return true;
        }
        i = i + 1;
    }
    false
}

pub open spec fn is_const_like(s: Seq<char>) -> bool {
    text::has(s, "constexpr "@) || text::has(s, " const "@) || text::starts(s, "const "@)
}

pub open spec fn has_initializer(t: SyntaxTree, n: usize) -> bool {
    t.at(n).kind == NodeKind::ParameterDeclaration || t.descendant(n, NodeKind::InitDeclarator) is Some
        || text::has_char(t.text(n), '=')
}

pub open spec fn same_place(t: SyntaxTree, a: usize, b: usize) -> bool {
    t.at(a).start_byte == t.at(b).start_byte && t.at(a).end_byte == t.at(b).end_byte
}

fn stand_alike(t: &SyntaxTree, a: usize, b: usize) -> (r: bool)
    requires
        t.has(a),
        t.has(b),
    ensures
        r == same_place(*t, a, b),
{
    t.nodes[a].start_byte == t.nodes[b].start_byte && t.nodes[a].end_byte == t.nodes[b].end_byte
}

/// The first named child from position `k` on that is not the inner declarator.
pub open spec fn value_child(t: SyntaxTree, n: usize, inner: Option<usize>, k: int) -> Option<usize>
    decreases t.kids(n).len() - k,
{
    if k < 0 || k >= t.kids(n).len() {
        None
    } else if t.at(t.kids(n)[k]).named && !(inner is Some && same_place(
        t,
        inner->0,
        t.kids(n)[k],
    )) {
        Some(t.kids(n)[k])
    } else {
        value_child(t, n, inner, k + 1)
    }
}

/// The expression that initialises what is declared.
pub open spec fn initializer(t: SyntaxTree, n: usize) -> Option<usize>
    decreases t.nodes@.len() - n, t.kids(n).len() + 1,
    when t.has(n)
{
    let own = if t.at(n).kind == NodeKind::InitDeclarator {
        value_child(t, n, t.by_field(n, FieldName::Declarator), 0)
    } else {
        None
    };
    match own {
        Some(x) => Some(x),
        None => initializer_from(t, n, 0),
    }
}

pub open spec fn initializer_from(t: SyntaxTree, n: usize, k: int) -> Option<usize>
    decreases t.nodes@.len() - n, t.kids(n).len() - k,
    when t.has(n) && 0 <= k <= t.kids(n).len()
{
    if k >= t.kids(n).len() {
        None
    } else {
        match initializer(t, t.kids(n)[k]) {
            Some(x) => Some(x),
            None => initializer_from(t, n, k + 1),
        }
    }
}

fn find_initializer_expression(t: &SyntaxTree, n: usize) -> (r: Option<usize>)
    requires
        t.has(n),
    ensures
        r == initializer(*t, n),
        r matches Some(x) ==> t.has(x),
    decreases t.nodes@.len() - n,
{
    let c: usize = t.nodes[n].children.len();
    if t.nodes[n].kind == NodeKind::InitDeclarator {
        let inner = t.child_by_field(n, FieldName::Declarator);
        let mut k: usize = 0;
        while k < c
            invariant
                t.has(n),
                t.at(n).kind == NodeKind::InitDeclarator,
                c == t.kids(n).len(),
                k <= c,
                inner == t.by_field(n, FieldName::Declarator),
                inner matches Some(x) ==> t.has(x),
                value_child(*t, n, inner, 0) == value_child(*t, n, inner, k as int),
            decreases c - k,
        {
            let child: usize = t.nodes[n].children[k];
            assert(child == t.kids(n)[k as int]);
            if t.nodes[child].named {
                let is_inner = match inner {
                    Some(x) => stand_alike(t, x, child),
                    None => false,
                };
                if !is_inner {
                    return Some(child);
                }
            }
            k = k + 1;
        }
    }
    let mut k: usize = 0;
    while k < c
        invariant
            t.has(n),
            c == t.kids(n).len(),
            k <= c,
            initializer(*t, n) == initializer_from(*t, n, k as int),
        decreases c - k,
    {
        let child: usize = t.nodes[n].children[k];
        assert(child == t.kids(n)[k as int]);
        match find_initializer_expression(t, child) {
            Some(x) => {
                return Some(x);
            },
            None => {},
        }
        k = k + 1;
    }
    None
}

pub open spec fn is_ascii_letter() -> spec_fn(char) -> bool {
    |c: char| text::ascii_alpha(c)
}

/// The number without the letters behind it.
pub open spec fn without_suffix(s: Seq<char>) -> Seq<char> {
    text::trim_end_by(s, is_ascii_letter())
}

fn strip_number_suffix(s: &str) -> (r: &str)
    ensures
        r@ == without_suffix(s@),
{
    let v = text::chars_of(s);
    let n: usize = v.len();
    let mut j: usize = n;
    assert(s@.subrange(0, n as int) =~= s@);
    while j > 0 && text::is_ascii_alpha(v[j - 1])
        invariant
            v@ == s@,
            n == v@.len(),
            j <= n,
            without_suffix(s@) == without_suffix(s@.subrange(0, j as int)),
        decreases j,
    {
        assert(s@.subrange(0, j as int).subrange(0, j - 1) =~= s@.subrange(0, j - 1));
        j = j - 1;
    }
    s.substring_char(0, j)
}

pub open spec fn hex_digit(c: char) -> Option<int> {
    if '0' <= c && c <= '9' {
        Some(c as int - '0' as int)
    } else if 'a' <= c && c <= 'f' {
        Some(c as int - 'a' as int + 10)
    } else if 'A' <= c && c <= 'F' {
        Some(c as int - 'A' as int + 10)
    } else {
        None
    }
}

/// The number that the digits write, behind what was read before.
pub open spec fn hex_from(s: Seq<char>, i: int, before: int) -> Option<int>
    decreases s.len() - i,
{
    if i < 0 || i >= s.len() {
        Some(before)
    } else {
        match hex_digit(s[i]) {
            Some(d) => hex_from(s, i + 1, 16 * before + d),
            None => None,
        }
    }
}

/// The number that a hexadecimal text writes, where it fits.
pub open spec fn hex_value(s: Seq<char>) -> Option<i64> {
    let negative = s.len() > 0 && s[0] == '-';
    let start: int = if s.len() > 0 && (s[0] == '-' || s[0] == '+') {
        1
    } else {
        0
    };
    if start >= s.len() {
        None
    } else {
        match hex_from(s, start, 0) {
            None => None,
            Some(v) => {
                let w = if negative {
                    -v
                } else {
                    v
                };
                if i64::MIN <= w <= i64::MAX {
                    Some(w as i64)
                } else {
                    None
                }
            },
        }
    }
}

proof fn lemma_hex_grows(s: Seq<char>, i: int, before: int)
    requires
        before >= 0,
    ensures
        hex_from(s, i, before) matches Some(v) ==> v >= before,
    decreases s.len() - i,
{
    if 0 <= i < s.len() {
        match hex_digit(s[i]) {
            Some(d) => {
                lemma_hex_grows(s, i + 1, 16 * before + d);
            },
            None => {},
        }
    }
}

fn hex_digit_of(c: char) -> (r: Option<u8>)
    ensures
        match r {
            Some(d) => hex_digit(c) == Some(d as int) && d < 16,
            None => hex_digit(c) is None,
        },
{
    let n = c as u32;
    if n >= 48 && n <= 57 {
        Some((n - 48) as u8)
    } else if n >= 97 && n <= 102 {
        Some((n - 87) as u8)
    } else if n >= 65 && n <= 70 {
        Some((n - 55) as u8)
    } else {
        None
    }
}

fn parse_hex(s: &str) -> (r: Option<i64>)
    ensures
        r == hex_value(s@),
{
    let v = text::chars_of(s);
    let n: usize = v.len();
    let negative = n > 0 && v[0] == '-';
    let start: usize = if n > 0 && (v[0] == '-' || v[0] == '+') {
        1
    } else {
        0
    };
    if start >= n {
        return None;
    }
    let mut total: i128 = 0;
    let mut too_large = false;
    let mut i: usize = start;
    while i < n
        invariant
            v@ == s@,
            n == v@.len(),
            start <= i <= n,
            0 <= total <= 9223372036854775808,
            !too_large ==> hex_from(s@, start as int, 0) == hex_from(s@, i as int, total as int),
            too_large ==> (hex_from(s@, start as int, 0) matches Some(w) ==> w
                > 9223372036854775808),
            hex_value(s@) == (match hex_from(s@, start as int, 0) {
                None => None,
                Some(w) => {
                    let signed = if negative {
                        -w
                    } else {
                        w
                    };
                    if i64::MIN <= signed <= i64::MAX {
                        Some(signed as i64)
                    } else {
                        None
                    }
                },
            }),
        decreases n - i,
    {
        match hex_digit_of(v[i]) {
            None => {
                return None;
            },
            Some(d) => {
                if !too_large {
                    let next: i128 = 16 * total + d as i128;
                    if next > 9223372036854775808 {
                        proof {
                            lemma_hex_grows(s@, i + 1, next as int);
                        }
                        too_large = true;
                    } else {
                        total = next;
                    }
                }
            },
        }
        i = i + 1;
    }
    if too_large {
        return None;
    }
    let signed: i128 = if negative {
        -total
    } else {
        total
    };
    if signed >= -9223372036854775808 && signed <= 9223372036854775807 {
        Some(signed as i64)
    } else {
        None
    }
}

/// The value of a number as written; of one with a fraction only whether it is other than zero.
pub open spec fn number_value(s: Seq<char>, nonzero: Option<bool>) -> Option<i64> {
    let trimmed = text::trimmed(s);
    let plain = without_suffix(trimmed);
    if trimmed.len() == 0 {
        None
    } else if text::starts(plain, "0x"@) || text::starts(plain, "0X"@) {
        hex_value(
            text::without_prefixes(text::without_prefixes(plain, "0x"@), "0X"@),
        )
    } else {
        match text::integer_value(plain) {
            Some(v) => if i64::MIN <= v <= i64::MAX {
                Some(v as i64)
            } else {
                truth_value(nonzero)
            },
            None => truth_value(nonzero),
        }
    }
}

pub open spec fn truth_value(b: Option<bool>) -> Option<i64> {
    match b {
        Some(true) => Some(1),
        Some(false) => Some(0),
        None => None,
    }
}

fn parse_numeric_literal(s: &str, nonzero: Option<bool>) -> (r: Option<i64>)
    ensures
        r == number_value(s@, nonzero),
{
    let trimmed = text::trim(s);
    if trimmed.is_empty() {
        return None;
    }
    let plain = strip_number_suffix(trimmed);
    proof {
        reveal_strlit("0x");
        reveal_strlit("0X");
    }
    if text::starts_with(plain, "0x") || text::starts_with(plain, "0X") {
        return parse_hex(
            text::trim_start_text(text::trim_start_text(plain, "0x"), "0X"),
        );
    }
    match text::parse_i64(plain) {
        Some(v) => Some(v),
        None => match nonzero {
            Some(true) => Some(1),
            Some(false) => Some(0),
            None => None,
        },
    }
}

/// The operator of a binary expression.
pub open spec fn operator_of(t: SyntaxTree, n: usize) -> Option<Seq<char>> {
    match t.by_field(n, FieldName::Operator) {
        Some(m) => Some(t.text(m)),
        None => operator_in(t.text(n)),
    }
}

/// The first operator that a text holds.
pub open spec fn operator_in(s: Seq<char>) -> Option<Seq<char>> {
    if text::has(s, "||"@) {
        Some("||"@)
    } else if text::has(s, "&&"@) {
        Some("&&"@)
    } else if text::has(s, "=="@) {
        Some("=="@)
    } else if text::has(s, "!="@) {
        Some("!="@)
    } else if text::has(s, "<="@) {
        Some("<="@)
    } else if text::has(s, ">="@) {
        Some(">="@)
    } else if text::has(s, "<"@) {
        Some("<"@)
    } else if text::has(s, ">"@) {
        Some(">"@)
    } else if text::has(s, "+"@) {
        Some("+"@)
    } else if text::has(s, "-"@) {
        Some("-"@)
    } else if text::has(s, "*"@) {
        Some("*"@)
    } else if text::has(s, "/"@) {
        Some("/"@)
    } else if text::has(s, "%"@) {
        Some("%"@)
    } else {
        None
    }
}

fn operator_text(t: &SyntaxTree, n: usize) -> (r: Option<String>)
    requires
        t.has(n),
    ensures
        text::opt_text(r) == operator_of(*t, n),
{
    match t.child_by_field(n, FieldName::Operator) {
        Some(m) => {
            return Some(text::copy_of(t.text_of(m)));
        },
        None => {},
    }
    let s = t.text_of(n);
    let found = if text::contains_text(s, "||") {
        "||"
    } else if text::contains_text(s, "&&") {
        "&&"
    } else if text::contains_text(s, "==") {
        "=="
    } else if text::contains_text(s, "!=") {
        "!="
    } else if text::contains_text(s, "<=") {
        "<="
    } else if text::contains_text(s, ">=") {
        ">="
    } else if text::contains_text(s, "<") {
        "<"
    } else if text::contains_text(s, ">") {
        ">"
    } else if text::contains_text(s, "+") {
        "+"
    } else if text::contains_text(s, "-") {
        "-"
    } else if text::contains_text(s, "*") {
        "*"
    } else if text::contains_text(s, "/") {
        "/"
    } else if text::contains_text(s, "%") {
        "%"
    } else {
        return None;
    };
    Some(text::copy_of(found))
}

pub open spec fn as_number(b: bool) -> i64 {
    if b {
        1
    } else {
        0
    }
}

fn number_of(b: bool) -> (r: i64)
    ensures
        r == as_number(b),
{
    if b {
        1
    } else {
        0
    }
}

/// The value of an operation. Sums, differences and products wrap; a quotient that no number
/// holds has no value.
pub open spec fn operation_value(op: Seq<char>, l: i64, r: i64) -> Option<i64> {
    if op == "||"@ {
        Some(as_number(l != 0 || r != 0))
    } else if op == "&&"@ {
        Some(as_number(l != 0 && r != 0))
    } else if op == "=="@ {
        Some(as_number(l == r))
    } else if op == "!="@ {
        Some(as_number(l != r))
    } else if op == "<"@ {
        Some(as_number(l < r))
    } else if op == "<="@ {
        Some(as_number(l <= r))
    } else if op == ">"@ {
        Some(as_number(l > r))
    } else if op == ">="@ {
        Some(as_number(l >= r))
    } else if op == "+"@ {
        Some(l.wrapping_add(r))
    } else if op == "-"@ {
        Some(l.wrapping_sub(r))
    } else if op == "*"@ {
        Some(l.wrapping_mul(r))
    } else if op == "/"@ {
        l.checked_div(r)
    } else if op == "%"@ {
        l.checked_rem(r)
    } else {
        None
    }
}

fn operate(op: &str, l: i64, r: i64) -> (v: Option<i64>)
    ensures
        v == operation_value(op@, l, r),
{
    if text::same(op, "||") {
        Some(number_of(l != 0 || r != 0))
    } else if text::same(op, "&&") {
        Some(number_of(l != 0 && r != 0))
    } else if text::same(op, "==") {
        Some(number_of(l == r))
    } else if text::same(op, "!=") {
        Some(number_of(l != r))
    } else if text::same(op, "<") {
        Some(number_of(l < r))
    } else if text::same(op, "<=") {
        Some(number_of(l <= r))
    } else if text::same(op, ">") {
        Some(number_of(l > r))
    } else if text::same(op, ">=") {
        Some(number_of(l >= r))
    } else if text::same(op, "+") {
        Some(l.wrapping_add(r))
    } else if text::same(op, "-") {
        Some(l.wrapping_sub(r))
    } else if text::same(op, "*") {
        Some(l.wrapping_mul(r))
    } else if text::same(op, "/") {
        l.checked_div(r)
    } else if text::same(op, "%") {
        l.checked_rem(r)
    } else {
        None
    }
}

/// The value of a sign or a negation.
pub open spec fn signed_value(s: Seq<char>, v: i64) -> Option<i64> {
    if text::starts(s, "!"@) {
        Some(as_number(v == 0))
    } else if text::starts(s, "-"@) {
        Some(0i64.wrapping_sub(v))
    } else if text::starts(s, "+"@) {
        Some(v)
    } else {
        None
    }
}

fn apply_sign(s: &str, v: i64) -> (r: Option<i64>)
    ensures
        r == signed_value(s@, v),
{
    if text::starts_with(s, "!") {
        Some(number_of(v == 0))
    } else if text::starts_with(s, "-") {
        let zero: i64 = 0;
        Some(zero.wrapping_sub(v))
    } else if text::starts_with(s, "+") {
        Some(v)
    } else {
        None
    }
}

/// The operand of a sign: the one in the field, or else the last named child.
pub open spec fn signed_operand(t: SyntaxTree, n: usize) -> Option<usize> {
    match t.by_field(n, FieldName::Argument) {
        Some(m) => Some(m),
        None => t.named_at(n, t.named_kids(n).len() - 1),
    }
}

pub open spec fn constant_of(c: SemaView, t: SyntaxTree, n: usize, constants: Map<u32, i64>) -> Option<i64> {
    match first_of(found(c, scope_of(c, t, n), text::trimmed(t.text(n)))) {
        Some(id) => if constants.contains_key(id.0) {
            Some(constants[id.0])
        } else {
            None
        },
        None => None,
    }
}

/// The value of a constant expression.
pub open spec fn const_value(c: SemaView, t: SyntaxTree, n: usize, constants: Map<u32, i64>) -> Option<i64>
    decreases t.nodes@.len() - n,
    when t.has(n)
{
    let kind = t.at(n).kind;
    if kind == NodeKind::TrueLiteral {
        Some(1)
    } else if kind == NodeKind::FalseLiteral || kind == NodeKind::NullLiteral {
        Some(0)
    } else if kind == NodeKind::NumberLiteral {
        number_value(t.text(n), t.at(n).nonzero)
    } else if kind == NodeKind::Identifier || kind == NodeKind::FieldIdentifier {
        constant_of(c, t, n, constants)
    } else if kind == NodeKind::ParenthesizedExpression {
        proof {
            lemma_named(t, n, 0);
        }
        match t.named_at(n, 0) {
            Some(m) => const_value(c, t, m, constants),
            None => None,
        }
    } else if kind == NodeKind::UnaryExpression {
        proof {
            lemma_by_field(t, n, FieldName::Argument);
            lemma_named(t, n, 0);
        }
        match signed_operand(t, n) {
            None => None,
            Some(m) => match const_value(c, t, m, constants) {
                None => None,
                Some(v) => signed_value(text::trimmed_start(t.text(n)), v),
            },
        }
    } else if kind == NodeKind::BinaryExpression {
        proof {
            lemma_by_field(t, n, FieldName::Left);
            lemma_by_field(t, n, FieldName::Right);
        }
        match (field_or_child(t, n, FieldName::Left, 0), field_or_child(t, n, FieldName::Right, 2)) {
            (Some(l), Some(r)) => match (
                const_value(c, t, l, constants),
                const_value(c, t, r, constants),
                operator_of(t, n),
            ) {
                (Some(x), Some(y), Some(op)) => operation_value(op, x, y),
                _ => None,
            },
            _ => None,
        }
    } else if kind == NodeKind::ConditionalExpression {
        proof {
            lemma_by_field(t, n, FieldName::Condition);
            lemma_by_field(t, n, FieldName::Consequence);
            lemma_by_field(t, n, FieldName::Alternative);
        }
        match (
            t.by_field(n, FieldName::Condition),
            t.by_field(n, FieldName::Consequence),
            t.by_field(n, FieldName::Alternative),
        ) {
            (Some(condition), Some(consequence), Some(alternative)) => match const_value(
                c,
                t,
                condition,
                constants,
            ) {
                None => None,
                Some(v) => if v != 0 {
                    const_value(c, t, consequence, constants)
                } else {
                    const_value(c, t, alternative, constants)
                },
            },
            _ => None,
        }
    } else {
        None
    }
}

fn evaluate_const_expr(ctx: &SemaContext, t: &SyntaxTree, n: usize, constants: &HashMap<u32, i64>) -> (r:
    Option<i64>)
    requires
        t.has(n),
    ensures
        r == const_value(ctx@, *t, n, constants@),
    decreases t.nodes@.len() - n,
{
    match t.nodes[n].kind {
        NodeKind::TrueLiteral => Some(1),
        NodeKind::FalseLiteral | NodeKind::NullLiteral => Some(0),
        NodeKind::NumberLiteral => parse_numeric_literal(t.text_of(n), t.nodes[n].nonzero),
        NodeKind::Identifier | NodeKind::FieldIdentifier => {
            match ctx.resolve_symbol_at_node(t, n, text::trim(t.text_of(n))) {
                Some(id) => match constants.get(&id.0) {
                    Some(v) => Some(*v),
                    None => None,
                },
                None => None,
            }
        },
        NodeKind::ParenthesizedExpression => match t.named_child(n, 0) {
            Some(m) => evaluate_const_expr(ctx, t, m, constants),
            None => None,
        },
        NodeKind::UnaryExpression => {
            let operand = match t.child_by_field(n, FieldName::Argument) {
                Some(m) => Some(m),
                None => {
                    let list = t.named_children(n);
                    let c: usize = list.len();
                    if c > 0 {
                        Some(list[c - 1])
                    } else {
                        None
                    }
                },
            };
            match operand {
                None => None,
                Some(m) => match evaluate_const_expr(ctx, t, m, constants) {
                    None => None,
                    Some(v) => apply_sign(text::trim_start(t.text_of(n)), v),
                },
            }
        },
        NodeKind::BinaryExpression => {
            match (child_or(t, n, FieldName::Left, 0), child_or(t, n, FieldName::Right, 2)) {
                (Some(l), Some(r)) => {
                    let left = evaluate_const_expr(ctx, t, l, constants);
                    let right = evaluate_const_expr(ctx, t, r, constants);
                    match (left, right, operator_text(t, n)) {
                        (Some(x), Some(y), Some(op)) => operate(&op, x, y),
                        _ => None,
                    }
                },
                _ => None,
            }
        },
        NodeKind::ConditionalExpression => {
            match (
                t.child_by_field(n, FieldName::Condition),
                t.child_by_field(n, FieldName::Consequence),
                t.child_by_field(n, FieldName::Alternative),
            ) {
                (Some(condition), Some(consequence), Some(alternative)) => {
                    match evaluate_const_expr(ctx, t, condition, constants) {
                        None => None,
                        Some(v) => {
                            if v != 0 {
                                evaluate_const_expr(ctx, t, consequence, constants)
                            } else {
                                evaluate_const_expr(ctx, t, alternative, constants)
                            }
                        },
                    }
                },
                _ => None,
            }
        },
        _ => None,
    }
}

/// The first condition clause among the children from position `k` on.
pub open spec fn clause_from(t: SyntaxTree, n: usize, k: int) -> Option<usize>
    decreases t.kids(n).len() - k,
{
    if k < 0 || k >= t.kids(n).len() {
        None
    } else if t.at(t.kids(n)[k]).kind == NodeKind::ConditionClause {
        Some(t.kids(n)[k])
    } else {
        clause_from(t, n, k + 1)
    }
}

/// The condition of a statement that branches or repeats.
pub open spec fn condition_of(t: SyntaxTree, n: usize) -> Option<usize> {
    let clause = match t.by_field(n, FieldName::Condition) {
        Some(m) => Some(m),
        None => clause_from(t, n, 0),
    };
    match clause {
        None => None,
        Some(m) => if t.at(m).kind == NodeKind::ConditionClause {
            t.named_at(m, 0)
        } else {
            Some(m)
        },
    }
}

fn control_condition_node(t: &SyntaxTree, n: usize) -> (r: Option<usize>)
    requires
        t.has(n),
    ensures
        r == condition_of(*t, n),
        r matches Some(m) ==> t.has(m),
{
    let clause = match t.child_by_field(n, FieldName::Condition) {
        Some(m) => Some(m),
        None => super::syntax::find_direct_child(
            t,
            n,
            NodeKind::ConditionClause,
            NodeKind::ConditionClause,
        ),
    };
    proof {
        lemma_clause(*t, n, 0);
    }
    match clause {
        None => None,
        Some(m) => {
            if t.nodes[m].kind == NodeKind::ConditionClause {
                t.named_child(m, 0)
            } else {
                Some(m)
            }
        },
    }
}

proof fn lemma_clause(t: SyntaxTree, n: usize, k: int)
    ensures
        clause_from(t, n, k) == super::syntax::direct_child_from(
            t,
            n,
            NodeKind::ConditionClause,
            NodeKind::ConditionClause,
            k,
        ),
    decreases t.kids(n).len() - k,
{
    if 0 <= k < t.kids(n).len() {
        lemma_clause(t, n, k + 1);
    }
}

/// Whether an identifier is read where it stands.
pub open spec fn is_read(t: SyntaxTree, n: usize) -> bool {
    match t.at(n).parent {
        None => true,
        Some(p) => {
            let kind = t.at(p).kind;
            let declares = matches!(
                kind,
                NodeKind::Declaration | NodeKind::FieldDeclaration | NodeKind::ParameterDeclaration
                    | NodeKind::ClassSpecifier | NodeKind::StructSpecifier
                    | NodeKind::EnumSpecifier | NodeKind::NamespaceDefinition
            ) && stands_at(t, declared_node(t, p), n);
            let assigned = kind == NodeKind::AssignmentExpression && stands_at(
                t,
                field_or_child(t, p, FieldName::Left, 0),
                n,
            );
            let selected = kind == NodeKind::FieldExpression && stands_at(
                t,
                t.by_field(p, FieldName::Field),
                n,
            );
            !declares && !assigned && !selected
        },
    }
}

pub open spec fn stands_at(t: SyntaxTree, m: Option<usize>, n: usize) -> bool {
    match m {
        Some(m) => same_place(t, m, n),
        None => false,
    }
}

fn is_at(t: &SyntaxTree, m: Option<usize>, n: usize) -> (r: bool)
    requires
        t.has(n),
        m matches Some(x) ==> t.has(x),
    ensures
        r == stands_at(*t, m, n),
{
    match m {
        Some(m) => stand_alike(t, m, n),
        None => false,
    }
}

fn is_identifier_read(t: &SyntaxTree, n: usize) -> (r: bool)
    requires
        t.has(n),
    ensures
        r == is_read(*t, n),
{
    assert(t.at(n).parent == t.nodes@[n as int].parent);
    match t.nodes[n].parent {
        None => true,
        Some(p) => {
            let kind = t.nodes[p].kind;
            if matches!(
                kind,
                NodeKind::Declaration | NodeKind::FieldDeclaration | NodeKind::ParameterDeclaration
                    | NodeKind::ClassSpecifier | NodeKind::StructSpecifier
                    | NodeKind::EnumSpecifier | NodeKind::NamespaceDefinition
            ) && is_at(t, declared_name_node(t, p), n) {
                return false;
            }
            if kind == NodeKind::AssignmentExpression && is_at(
                t,
                child_or(t, p, FieldName::Left, 0),
                n,
            ) {
                return false;
            }
            if kind == NodeKind::FieldExpression && is_at(
                t,
                t.child_by_field(p, FieldName::Field),
                n,
            ) {
                return false;
            }
            true
        },
    }
}

/// The variable that a name node declares.
pub open spec fn declared_var(t: SyntaxTree, m: usize, name: Seq<char>, initialized: bool, track: bool) -> VarView {
    VarView {
        name,
        decl_line: t.at(m).start_row as u32,
        decl_col: t.at(m).start_column as u32,
        decl_end_col: t.at(m).end_column as u32,
        initialized,
        used: false,
        track_unused: track,
    }
}

/// What is known after a hidden outer variable was noted.
pub open spec fn after_shadow(e: Env, k: Known, m: usize, name: Seq<char>, head: Seq<char>) -> Known {
    if shadows(e.c, e.t, m, name) {
        with_issue(
            k,
            issue_at("UECPP-DF-003"@, head + name + " shadows an outer declaration."@, e.t, m),
        )
    } else {
        k
    }
}

/// What is known after the declaration of a local variable.
pub open spec fn after_declaration(e: Env, n: usize, k: Known) -> Known {
    match declared_node(e.t, n) {
        None => k,
        Some(m) => {
            let name = text::trimmed(e.t.text(m));
            if name.len() == 0 {
                k
            } else {
                match local_named(e.c, e.t, m, name) {
                    None => k,
                    Some(id) => {
                        let noted = after_shadow(e, k, m, name, "Local variable "@);
                        let written = match e.t.by_field(n, FieldName::Type) {
                            Some(ty) => clean(e.t.text(ty)),
                            None => Seq::empty(),
                        };
                        let track = !text::starts(name, "_"@) && !is_raii(e.prefixes, written);
                        let value = match e.t.by_field(n, FieldName::Declarator) {
                            Some(d) => match initializer(e.t, d) {
                                Some(x) => const_value(e.c, e.t, x, noted.constants),
                                None => None,
                            },
                            None => None,
                        };
                        Known {
                            vars: noted.vars.insert(
                                id.0,
                                declared_var(e.t, m, name, has_initializer(e.t, n), track),
                            ),
                            order: noted.order.push(id),
                            constants: if is_const_like(e.t.text(n)) && value is Some {
                                noted.constants.insert(id.0, value->0)
                            } else {
                                noted.constants
                            },
                            ..noted
                        }
                    },
                }
            }
        },
    }
}

/// What is known after a parameter.
pub open spec fn after_parameter(e: Env, n: usize, k: Known) -> Known {
    match declared_node(e.t, n) {
        None => k,
        Some(m) => {
            let name = text::trimmed(e.t.text(m));
            if name.len() == 0 {
                k
            } else {
                let noted = after_shadow(e, k, m, name, "Parameter "@);
                match local_named(e.c, e.t, m, name) {
                    None => noted,
                    Some(id) => Known {
                        vars: noted.vars.insert(id.0, declared_var(e.t, m, name, true, false)),
                        ..noted
                    },
                }
            }
        },
    }
}

/// What is known after an identifier.
pub open spec fn after_identifier(e: Env, n: usize, k: Known) -> Known {
    let name = text::trimmed(e.t.text(n));
    if !is_read(e.t, n) || name.len() == 0 {
        k
    } else {
        match first_of(found(e.c, scope_of(e.c, e.t, n), name)) {
            None => k,
            Some(id) => if !k.vars.contains_key(id.0) {
                k
            } else {
                let var = k.vars[id.0];
                let noted = if var.initialized {
                    k
                } else {
                    with_issue(
                        k,
                        issue_at(
                            "UECPP-DF-002"@,
                            "Local variable "@ + var.name
                                + " may be used before it is initialized."@,
                            e.t,
                            n,
                        ),
                    )
                };
                Known { vars: noted.vars.insert(id.0, VarView { used: true, ..var }), ..noted }
            },
        }
    }
}

/// What is known after a name was assigned to.
pub open spec fn after_target(e: Env, n: usize, k: Known) -> Known {
    match first_of(found(e.c, scope_of(e.c, e.t, n), text::trimmed(e.t.text(n)))) {
        None => k,
        Some(id) => Known {
            vars: if k.vars.contains_key(id.0) {
                k.vars.insert(id.0, VarView { initialized: true, ..k.vars[id.0] })
            } else {
                k.vars
            },
            constants: k.constants.remove(id.0),
            ..k
        },
    }
}

/// What is known after a constant condition was noted.
pub open spec fn after_condition(e: Env, n: usize, k: Known) -> Known {
    match condition_of(e.t, n) {
        None => k,
        Some(m) => match const_value(e.c, e.t, m, k.constants) {
            None => k,
            Some(v) => with_issue(
                k,
                issue_at(
                    "UECPP-DF-005"@,
                    "Condition is always "@ + (if v == 0 {
                        "false"@
                    } else {
                        "true"@
                    }) + "."@,
                    e.t,
                    m,
                ),
            ),
        },
    }
}

/// What is known after a node was read.
pub open spec fn after_node(e: Env, n: usize, k: Known) -> Known
    decreases e.t.nodes@.len() - n, 1nat, 0nat,
    when e.has(n)
{
    let kind = e.t.at(n).kind;
    if kind == NodeKind::Declaration {
        proof {
            lemma_by_field(e.t, n, FieldName::Declarator);
        }
        let declared = after_declaration(e, n, k);
        match e.t.by_field(n, FieldName::Declarator) {
            Some(d) => after_initializer(e, d, 0, declared),
            None => declared,
        }
    } else if kind == NodeKind::ParameterDeclaration {
        after_parameter(e, n, k)
    } else if kind == NodeKind::AssignmentExpression {
        proof {
            lemma_by_field(e.t, n, FieldName::Left);
            lemma_by_field(e.t, n, FieldName::Right);
        }
        let right = match field_or_child(e.t, n, FieldName::Right, 2) {
            Some(r) => after_node(e, r, k),
            None => k,
        };
        match field_or_child(e.t, n, FieldName::Left, 0) {
            None => right,
            Some(l) => if e.t.at(l).kind == NodeKind::Identifier {
                after_target(e, l, right)
            } else {
                after_node(e, l, right)
            },
        }
    } else if kind == NodeKind::IfStatement || kind == NodeKind::WhileStatement || kind
        == NodeKind::ForStatement || kind == NodeKind::DoStatement {
        after_children(e, n, 0, after_condition(e, n, k))
    } else if kind == NodeKind::Identifier {
        after_identifier(e, n, k)
    } else {
        after_children(e, n, 0, k)
    }
}

/// What is known after the children from position `i` on.
pub open spec fn after_children(e: Env, n: usize, i: int, k: Known) -> Known
    decreases e.t.nodes@.len() - n, 0nat, e.t.kids(n).len() - i,
    when e.has(n) && 0 <= i <= e.t.kids(n).len()
{
    if i >= e.t.kids(n).len() {
        k
    } else {
        after_children(e, n, i + 1, after_node(e, e.t.kids(n)[i], k))
    }
}

/// What is known after the children of a declarator from position `i` on, but for its name.
pub open spec fn after_initializer(e: Env, n: usize, i: int, k: Known) -> Known
    decreases e.t.nodes@.len() - n, 0nat, e.t.kids(n).len() - i,
    when e.has(n) && 0 <= i <= e.t.kids(n).len()
{
    if i >= e.t.kids(n).len() {
        k
    } else {
        let child = e.t.kids(n)[i];
        if e.t.at(child).kind == NodeKind::Identifier || e.t.at(child).kind
            == NodeKind::FieldIdentifier {
            after_initializer(e, n, i + 1, k)
        } else {
            after_initializer(e, n, i + 1, after_node(e, child, k))
        }
    }
}

/// Whether control never runs behind a statement without a return.
pub open spec fn guarantees_return(t: SyntaxTree, n: usize) -> bool
    decreases t.nodes@.len() - n, 1nat, 0nat,
    when t.has(n)
{
    let kind = t.at(n).kind;
    if kind == NodeKind::ReturnStatement || kind == NodeKind::CoReturnStatement || kind
        == NodeKind::ThrowStatement {
        true
    } else if kind == NodeKind::CompoundStatement || kind == NodeKind::ElseClause {
        some_guarantees_return(t, n, 0)
    } else if kind == NodeKind::IfStatement {
        proof {
            lemma_by_field(t, n, FieldName::Consequence);
            lemma_by_field(t, n, FieldName::Alternative);
        }
        match (t.by_field(n, FieldName::Consequence), t.by_field(n, FieldName::Alternative)) {
            (Some(a), Some(b)) => guarantees_return(t, a) && guarantees_return(t, b),
            _ => false,
        }
    } else {
        false
    }
}

pub open spec fn some_guarantees_return(t: SyntaxTree, n: usize, k: int) -> bool
    decreases t.nodes@.len() - n, 0nat, t.named_kids(n).len() - k,
    when t.has(n) && 0 <= k <= t.named_kids(n).len()
{
    if k >= t.named_kids(n).len() {
        false
    } else {
        proof {
            lemma_named(t, n, 0);
        }
        guarantees_return(t, t.named_kids(n)[k]) || some_guarantees_return(t, n, k + 1)
    }
}

fn statement_guarantees_return(t: &SyntaxTree, n: usize) -> (r: bool)
    requires
        t.has(n),
    ensures
        r == guarantees_return(*t, n),
    decreases t.nodes@.len() - n,
{
    match t.nodes[n].kind {
        NodeKind::ReturnStatement | NodeKind::CoReturnStatement | NodeKind::ThrowStatement => true,
        NodeKind::CompoundStatement | NodeKind::ElseClause => {
            let named = t.named_children(n);
            let c: usize = named.len();
            let mut k: usize = 0;
            while k < c
                invariant
                    t.has(n),
                    t.at(n).kind == NodeKind::CompoundStatement || t.at(n).kind
                        == NodeKind::ElseClause,
                    named@ == t.named_kids(n),
                    forall|j: int|
                        0 <= j < named@.len() ==> t.has(#[trigger] named@[j]) && named@[j] > n,
                    c == named@.len(),
                    k <= c,
                    guarantees_return(*t, n) == some_guarantees_return(*t, n, k as int),
                decreases c - k,
            {
                if statement_guarantees_return(t, named[k]) {
                    return true;
                }
                k = k + 1;
            }
            false
        },
        NodeKind::IfStatement => {
            match (
                t.child_by_field(n, FieldName::Consequence),
                t.child_by_field(n, FieldName::Alternative),
            ) {
                (Some(a), Some(b)) => statement_guarantees_return(t, a)
                    && statement_guarantees_return(t, b),
                _ => false,
            }
        },
        _ => false,
    }
}

/// Whether a function has to return a value.
pub open spec fn needs_return(c: SemaView, t: SyntaxTree, n: usize) -> bool {
    let whole = match c.source {
        Some(_) => t.text(n),
        None => Seq::empty(),
    };
    !text::has(whole, "[[noreturn]]"@) && match enclosing_return_type(c, t, n) {
        None => false,
        Some(id) => {
            let kind = c.kind(id);
            !(kind == Some(TypeShape::Builtin(BuiltinType::Void)) || kind == Some(TypeShape::Auto)
                || kind == Some(TypeShape::Unknown))
        },
    }
}

fn function_requires_return_value(ctx: &SemaContext, t: &SyntaxTree, n: usize) -> (r: bool)
    requires
        t.has(n),
    ensures
        r == needs_return(ctx@, *t, n),
{
    let whole = match &ctx.source {
        Some(_) => t.text_of(n),
        None => {
            proof {
                reveal_strlit("");
            }
            assert(""@ =~= Seq::<char>::empty());
            ""
        },
    };
    if text::contains_text(whole, "[[noreturn]]") {
        return false;
    }
    match ctx.enclosing_function_return_type(t, n) {
        None => false,
        Some(id) => !matches!(
            ctx.types.get(id),
            Some(TypeKind::Builtin(BuiltinType::Void)) | Some(TypeKind::Auto) | Some(TypeKind::Unknown)
        ),
    }
}

/// The node that names a function.
pub open spec fn function_name(t: SyntaxTree, n: usize) -> Option<usize> {
    match super::pattern::function_declarator(t, n) {
        Some(d) => own_name(t, d),
        None => None,
    }
}

/// The issue of a variable that is never used.
pub open spec fn unused_issue(v: VarView) -> IssueView {
    IssueView {
        code: "UECPP-DF-001"@,
        message: "Local variable "@ + v.name + " is never used."@,
        line: v.decl_line,
        character: v.decl_col,
        end_line: v.decl_line,
        end_character: v.decl_end_col,
    }
}

/// The issues of the variables, from position `k` on, that are never used.
pub open spec fn unused_from(vars: Map<u32, VarView>, order: Seq<SymbolId>, k: int) -> Seq<IssueView>
    decreases order.len() - k,
{
    if k < 0 || k >= order.len() {
        Seq::empty()
    } else {
        let rest = unused_from(vars, order, k + 1);
        if vars.contains_key(order[k].0) && vars[order[k].0].track_unused && !vars[order[k].0].used {
            seq![unused_issue(vars[order[k].0])] + rest
        } else {
            rest
        }
    }
}

pub open spec fn nothing_known() -> Known {
    Known {
        vars: Map::empty(),
        constants: Map::empty(),
        order: Seq::empty(),
        issues: Seq::empty(),
    }
}

/// The issues of a function.
pub open spec fn function_issues(e: Env, n: usize) -> Seq<IssueView> {
    match e.t.descendant(n, NodeKind::CompoundStatement) {
        None => Seq::empty(),
        Some(body) => {
            let k = after_children(e, body, 0, nothing_known());
            let missing = if needs_return(e.c, e.t, n) && !guarantees_return(e.t, body) {
                match function_name(e.t, n) {
                    Some(m) => seq![
                        issue_at(
                            "UECPP-DF-004"@,
                            "Non-void function "@ + text::trimmed(e.t.text(m))
                                + " can reach the end without returning a value."@,
                            e.t,
                            m,
                        ),
                    ],
                    None => Seq::empty(),
                }
            } else {
                Seq::empty()
            };
            k.issues + missing + unused_from(k.vars, k.order, 0)
        },
    }
}

pub open spec fn is_function(kind: NodeKind) -> bool {
    kind == NodeKind::FunctionDefinition || kind == NodeKind::UnrealFunctionDefinition
}

/// The functions from a node downwards, in the order of the source.
pub open spec fn functions_in(t: SyntaxTree, n: usize) -> Seq<usize>
    decreases t.nodes@.len() - n, t.kids(n).len() + 1,
    when t.has(n)
{
    (if is_function(t.at(n).kind) {
        seq![n]
    } else {
        Seq::empty()
    }) + functions_from(t, n, 0)
}

pub open spec fn functions_from(t: SyntaxTree, n: usize, k: int) -> Seq<usize>
    decreases t.nodes@.len() - n, t.kids(n).len() - k,
    when t.has(n) && 0 <= k <= t.kids(n).len()
{
    if k >= t.kids(n).len() {
        Seq::empty()
    } else {
        functions_in(t, t.kids(n)[k]) + functions_from(t, n, k + 1)
    }
}

fn collect_functions(t: &SyntaxTree, n: usize, out: &mut Vec<usize>)
    requires
        t.has(n),
        forall|j: int| 0 <= j < old(out)@.len() ==> t.has(#[trigger] old(out)@[j]),
    ensures
        final(out)@ == old(out)@ + functions_in(*t, n),
        forall|j: int| 0 <= j < final(out)@.len() ==> t.has(#[trigger] final(out)@[j]),
    decreases t.nodes@.len() - n,
{
    let ghost start = out@;
    let kind = t.nodes[n].kind;
    if kind == NodeKind::FunctionDefinition || kind == NodeKind::UnrealFunctionDefinition {
        out.push(n);
    }
    let c: usize = t.nodes[n].children.len();
    let mut k: usize = 0;
    while k < c
        invariant
            t.has(n),
            c == t.kids(n).len(),
            k <= c,
            start + functions_in(*t, n) =~= out@ + functions_from(*t, n, k as int),
            forall|j: int| 0 <= j < out@.len() ==> t.has(#[trigger] out@[j]),
        decreases c - k,
    {
        let child: usize = t.nodes[n].children[k];
        assert(child == t.kids(n)[k as int]);
        collect_functions(t, child, out);
        k = k + 1;
    }
    assert(out@ =~= start + functions_in(*t, n));
}

struct Reader<'a> {
    ctx: &'a SemaContext,
    t: &'a SyntaxTree,
    prefixes: &'a Vec<String>,
    vars: HashMap<u32, LocalVarState>,
    constants: HashMap<u32, i64>,
    order: Vec<SymbolId>,
    issues: Vec<DataflowIssue>,
}

fn copy_var(v: &LocalVarState) -> (r: LocalVarState)
    ensures
        r.view() == v.view(),
{
    LocalVarState {
        name: text::copy_of(&v.name),
        decl_line: v.decl_line,
        decl_col: v.decl_col,
        decl_end_col: v.decl_end_col,
        initialized: v.initialized,
        used: v.used,
        track_unused: v.track_unused,
    }
}

fn make_issue(code: &'static str, message: String, t: &SyntaxTree, n: usize) -> (r: DataflowIssue)
    requires
        t.has(n),
    ensures
        r@ == issue_at(code@, message@, *t, n),
{
    let node = &t.nodes[n];
    DataflowIssue {
        code,
        message,
        line: node.start_row as u32,
        character: node.start_column as u32,
        end_line: node.end_row as u32,
        end_character: node.end_column as u32,
    }
}

impl<'a> Reader<'a> {
    spec fn env(&self) -> Env {
        Env { c: self.ctx@, t: *self.t, prefixes: text::texts(self.prefixes@) }
    }

    spec fn known(&self) -> Known {
        Known {
            vars: self.vars@.map_values(|v: LocalVarState| v.view()),
            constants: self.constants@,
            order: self.order@,
            issues: issue_views(self.issues@),
        }
    }

    fn set_var(&mut self, id: SymbolId, v: LocalVarState)
        ensures
            final(self).env() == old(self).env(),
            final(self).known() == (Known {
                vars: old(self).known().vars.insert(id.0, v.view()),
                ..old(self).known()
            }),
    {
        self.vars.insert(id.0, v);
        assert(self.known().vars =~= old(self).known().vars.insert(id.0, v.view()));
    }

    fn add_issue(&mut self, i: DataflowIssue)
        ensures
            final(self).env() == old(self).env(),
            final(self).known() == with_issue(old(self).known(), i@),
    {
        self.issues.push(i);
        assert(self.known().issues =~= old(self).known().issues.push(i@));
    }

    fn note_shadow(&mut self, m: usize, name: &str, head: &str)
        requires
            old(self).env().has(m),
        ensures
            final(self).env() == old(self).env(),
            final(self).known() == after_shadow(
                old(self).env(),
                old(self).known(),
                m,
                name@,
                head@,
            ),
    {
        if hides_outer_variable(self.ctx, self.t, m, name) {
            let message = text::concat3(head, name, " shadows an outer declaration.");
            let issue = make_issue("UECPP-DF-003", message, self.t, m);
            self.add_issue(issue);
        }
    }

    fn handle_declaration(&mut self, n: usize)
        requires
            old(self).env().has(n),
        ensures
            final(self).env() == old(self).env(),
            final(self).known() == after_declaration(old(self).env(), n, old(self).known()),
    {
        let t = self.t;
        let m = match declared_name_node(t, n) {
            Some(m) => m,
            None => {
                return ;
            },
        };
        let name = text::trim(t.text_of(m));
        if name.is_empty() {
            return ;
        }
        let id = match local_symbol_for_name(self.ctx, t, m, name) {
            Some(id) => id,
            None => {
                return ;
            },
        };
        self.note_shadow(m, name, "Local variable ");
        let initialized = declaration_has_initializer(t, n);
        let written = match t.child_by_field(n, FieldName::Type) {
            Some(ty) => clean_type_string(t.text_of(ty)),
            None => String::new(),
        };
        let track = !text::starts_with(name, "_") && !is_raii_type(self.prefixes, &written);
        let node = &t.nodes[m];
        let var = LocalVarState {
            name: text::copy_of(name),
            decl_line: node.start_row as u32,
            decl_col: node.start_column as u32,
            decl_end_col: node.end_column as u32,
            initialized,
            used: false,
            track_unused: track,
        };
        self.set_var(id, var);
        self.order.push(id);
        if is_const_like_declaration(t.text_of(n)) {
            match t.child_by_field(n, FieldName::Declarator) {
                Some(d) => {
                    match find_initializer_expression(t, d) {
                        Some(x) => {
                            match evaluate_const_expr(self.ctx, t, x, &self.constants) {
                                Some(v) => {
                                    self.constants.insert(id.0, v);
                                },
                                None => {},
                            }
                        },
                        None => {},
                    }
                },
                None => {},
            }
        }
    }

    fn handle_parameter(&mut self, n: usize)
        requires
            old(self).env().has(n),
        ensures
            final(self).env() == old(self).env(),
            final(self).known() == after_parameter(old(self).env(), n, old(self).known()),
    {
        let t = self.t;
        let m = match declared_name_node(t, n) {
            Some(m) => m,
            None => {
                return ;
            },
        };
        let name = text::trim(t.text_of(m));
        if name.is_empty() {
            return ;
        }
        self.note_shadow(m, name, "Parameter ");
        match local_symbol_for_name(self.ctx, t, m, name) {
            Some(id) => {
                let node = &t.nodes[m];
                let var = LocalVarState {
                    name: text::copy_of(name),
                    decl_line: node.start_row as u32,
                    decl_col: node.start_column as u32,
                    decl_end_col: node.end_column as u32,
                    initialized: true,
                    used: false,
                    track_unused: false,
                };
                self.set_var(id, var);
            },
            None => {},
        }
    }

    fn handle_identifier_use(&mut self, n: usize)
        requires
            old(self).env().has(n),
        ensures
            final(self).env() == old(self).env(),
            final(self).known() == after_identifier(old(self).env(), n, old(self).known()),
    {
        let t = self.t;
        if !is_identifier_read(t, n) {
            return ;
        }
        let name = text::trim(t.text_of(n));
        if name.is_empty() {
            return ;
        }
        let id = match self.ctx.resolve_symbol_at_node(t, n, name) {
            Some(id) => id,
            None => {
                return ;
            },
        };
        let mut var = match self.vars.get(&id.0) {
            Some(v) => copy_var(v),
            None => {
                return ;
            },
        };
        if !var.initialized {
            let message = text::concat3(
                "Local variable ",
                &var.name,
                " may be used before it is initialized.",
            );
            let issue = make_issue("UECPP-DF-002", message, t, n);
            self.add_issue(issue);
        }
        var.used = true;
        self.set_var(id, var);
    }

    fn handle_target(&mut self, n: usize)
        requires
            old(self).env().has(n),
        ensures
            final(self).env() == old(self).env(),
            final(self).known() == after_target(old(self).env(), n, old(self).known()),
    {
        let t = self.t;
        match self.ctx.resolve_symbol_at_node(t, n, text::trim(t.text_of(n))) {
            None => {},
            Some(id) => {
                let var = match self.vars.get(&id.0) {
                    Some(v) => Some(copy_var(v)),
                    None => None,
                };
                match var {
                    Some(v) => {
                        let mut next = v;
                        next.initialized = true;
                        self.set_var(id, next);
                    },
                    None => {},
                }
                self.constants.remove(&id.0);
            },
        }
    }

    fn note_condition(&mut self, n: usize)
        requires
            old(self).env().has(n),
        ensures
            final(self).env() == old(self).env(),
            final(self).known() == after_condition(old(self).env(), n, old(self).known()),
    {
        let t = self.t;
        match control_condition_node(t, n) {
            None => {},
            Some(m) => {
                match evaluate_const_expr(self.ctx, t, m, &self.constants) {
                    None => {},
                    Some(v) => {
                        let which = if v == 0 {
                            "false"
                        } else {
                            "true"
                        };
                        let message = text::concat3("Condition is always ", which, ".");
                        let issue = make_issue("UECPP-DF-005", message, t, m);
                        self.add_issue(issue);
                    },
                }
            },
        }
    }

    fn analyze_node(&mut self, n: usize)
        requires
            old(self).env().has(n),
        ensures
            final(self).env() == old(self).env(),
            final(self).known() == after_node(old(self).env(), n, old(self).known()),
        decreases old(self).t.nodes@.len() - n, 1nat,
    {
        let t = self.t;
        match t.nodes[n].kind {
            NodeKind::Declaration => {
                self.handle_declaration(n);
                match t.child_by_field(n, FieldName::Declarator) {
                    Some(d) => {
                        self.analyze_declaration_initializer(d);
                    },
                    None => {},
                }
            },
            NodeKind::ParameterDeclaration => {
                self.handle_parameter(n);
            },
            NodeKind::AssignmentExpression => {
                match child_or(t, n, FieldName::Right, 2) {
                    Some(r) => {
                        self.analyze_node(r);
                    },
                    None => {},
                }
                match child_or(t, n, FieldName::Left, 0) {
                    Some(l) => {
                        if t.nodes[l].kind == NodeKind::Identifier {
                            self.handle_target(l);
                        } else {
                            self.analyze_node(l);
                        }
                    },
                    None => {},
                }
            },
            NodeKind::IfStatement
            | NodeKind::WhileStatement
            | NodeKind::ForStatement
            | NodeKind::DoStatement => {
                self.note_condition(n);
                self.walk_children(n);
            },
            NodeKind::Identifier => {
                self.handle_identifier_use(n);
            },
            _ => {
                self.walk_children(n);
            },
        }
    }

    fn walk_children(&mut self, n: usize)
        requires
            old(self).env().has(n),
        ensures
            final(self).env() == old(self).env(),
            final(self).known() == after_children(old(self).env(), n, 0, old(self).known()),
        decreases old(self).t.nodes@.len() - n, 0nat,
    {
        let t = self.t;
        let ghost e = self.env();
        let ghost whole = after_children(e, n, 0, self.known());
        let c: usize = t.nodes[n].children.len();
        let mut i: usize = 0;
        while i < c
            invariant
                self.env() == e,
                *t == e.t,
                t == self.t,
                old(self).t == t,
                e.has(n),
                c == t.kids(n).len(),
                i <= c,
                whole == after_children(e, n, i as int, self.known()),
            decreases c - i,
        {
            let child: usize = t.nodes[n].children[i];
            assert(child == t.kids(n)[i as int]);
            self.analyze_node(child);
            i = i + 1;
        }
    }

    fn analyze_declaration_initializer(&mut self, n: usize)
        requires
            old(self).env().has(n),
        ensures
            final(self).env() == old(self).env(),
            final(self).known() == after_initializer(old(self).env(), n, 0, old(self).known()),
        decreases old(self).t.nodes@.len() - n, 0nat,
    {
        let t = self.t;
        let ghost e = self.env();
        let ghost whole = after_initializer(e, n, 0, self.known());
        let c: usize = t.nodes[n].children.len();
        let mut i: usize = 0;
        while i < c
            invariant
                self.env() == e,
                *t == e.t,
                t == self.t,
                old(self).t == t,
                e.has(n),
                c == t.kids(n).len(),
                i <= c,
                whole == after_initializer(e, n, i as int, self.known()),
            decreases c - i,
        {
            let child: usize = t.nodes[n].children[i];
            assert(child == t.kids(n)[i as int]);
            let kind = t.nodes[child].kind;
            if !(kind == NodeKind::Identifier || kind == NodeKind::FieldIdentifier) {
                self.analyze_node(child);
            }
            i = i + 1;
        }
    }

    fn note_unused(&mut self)
        ensures
            final(self).env() == old(self).env(),
            final(self).known() == (Known {
                issues: old(self).known().issues + unused_from(
                    old(self).known().vars,
                    old(self).known().order,
                    0,
                ),
                ..old(self).known()
            }),
    {
        let ghost k = self.known();
        let ghost e = self.env();
        let n: usize = self.order.len();
        let mut i: usize = 0;
        assert(k.issues + unused_from(k.vars, k.order, 0) =~= self.known().issues + unused_from(
            k.vars,
            k.order,
            0,
        ));
        while i < n
            invariant
                self.env() == e,
                self.known().vars == k.vars,
                self.known().constants == k.constants,
                self.known().order == k.order,
                n == k.order.len(),
                i <= n,
                k.issues + unused_from(k.vars, k.order, 0) == self.known().issues + unused_from(
                    k.vars,
                    k.order,
                    i as int,
                ),
            decreases n - i,
        {
            let id = self.order[i];
            let ghost before = self.known().issues;
            let issue = match self.vars.get(&id.0) {
                Some(v) => {
                    if v.track_unused && !v.used {
                        Some(
                            DataflowIssue {
                                code: "UECPP-DF-001",
                                message: text::concat3(
                                    "Local variable ",
                                    &v.name,
                                    " is never used.",
                                ),
                                line: v.decl_line,
                                character: v.decl_col,
                                end_line: v.decl_line,
                                end_character: v.decl_end_col,
                            },
                        )
                    } else {
                        None
                    }
                },
                None => None,
            };
            match issue {
                Some(x) => {
                    self.add_issue(x);
                    assert(before + (seq![x@] + unused_from(k.vars, k.order, i + 1))
                        =~= self.known().issues + unused_from(k.vars, k.order, i + 1));
                },
                None => {},
            }
            i = i + 1;
        }
        assert(self.known().issues =~= k.issues + unused_from(k.vars, k.order, 0));
    }
}

fn declaration_has_initializer(t: &SyntaxTree, n: usize) -> (r: bool)
    requires
        t.has(n),
    ensures
        r == has_initializer(*t, n),
{
    if t.nodes[n].kind == NodeKind::ParameterDeclaration {
        return true;
    }
    match t.find_descendant(n, NodeKind::InitDeclarator) {
        Some(_) => true,
        None => text::contains_char(t.text_of(n), '='),
    }
}

fn is_const_like_declaration(s: &str) -> (r: bool)
    ensures
        r == is_const_like(s@),
{
    text::contains_text(s, "constexpr ") || text::contains_text(s, " const ") || text::starts_with(
        s,
        "const ",
    )
}

/// Reads one function.
pub fn analyze_function(t: &SyntaxTree, n: usize, ctx: &SemaContext, prefixes: &Vec<String>) -> (r:
    DataflowResult)
    requires
        t.has(n),
    ensures
        issue_views(r.issues@) == function_issues(
            Env { c: ctx@, t: *t, prefixes: text::texts(prefixes@) },
            n,
        ),
        block_views(r._cfg.blocks@) == function_blocks(*t, n),
        r._cfg.entry == BlockId(0),
        r._cfg.exit == BlockId(1),
{
    let cfg = build_cfg(t, n);
    let mut reader = Reader {
        ctx,
        t,
        prefixes,
        vars: HashMap::new(),
        constants: HashMap::new(),
        order: Vec::new(),
        issues: Vec::new(),
    };
    assert(reader.known() =~= nothing_known());
    match t.find_descendant(n, NodeKind::CompoundStatement) {
        Some(body) => {
            reader.walk_children(body);
            if function_requires_return_value(ctx, t, n) && !statement_guarantees_return(t, body) {
                let name = match super::pattern::function_declarator_of(t, n) {
                    Some(d) => find_name_node(t, d),
                    None => None,
                };
                match name {
                    Some(m) => {
                        let message = text::concat3(
                            "Non-void function ",
                            text::trim(t.text_of(m)),
                            " can reach the end without returning a value.",
                        );
                        let issue = make_issue("UECPP-DF-004", message, t, m);
                        reader.add_issue(issue);
                    },
                    None => {},
                }
            }
            reader.note_unused();
            assert(reader.known().issues =~= function_issues(reader.env(), n));
        },
        None => {},
    }
    DataflowResult { _cfg: cfg, issues: reader.issues }
}

pub open spec fn result_issues(v: Seq<DataflowResult>) -> Seq<Seq<IssueView>> {
    v.map_values(|r: DataflowResult| issue_views(r.issues@))
}

/// Reads every function below the root.
pub fn analyze(t: &SyntaxTree, root: usize, ctx: &SemaContext, prefixes: &Vec<String>) -> (r: Vec<
    DataflowResult,
>)
    requires
        t.has(root),
    ensures
        result_issues(r@) == functions_in(*t, root).map_values(
            |n: usize|
                function_issues(Env { c: ctx@, t: *t, prefixes: text::texts(prefixes@) }, n),
        ),
        forall|i: int|
            0 <= i < r@.len() ==> block_views((#[trigger] r@[i])._cfg.blocks@) == function_blocks(
                *t,
                functions_in(*t, root)[i],
            ) && r@[i]._cfg.entry == BlockId(0) && r@[i]._cfg.exit == BlockId(1),
{
    let ghost e = Env { c: ctx@, t: *t, prefixes: text::texts(prefixes@) };
    let mut list: Vec<usize> = Vec::new();
    collect_functions(t, root, &mut list);
    assert(list@ =~= functions_in(*t, root));
    let mut r: Vec<DataflowResult> = Vec::new();
    let n: usize = list.len();
    let mut i: usize = 0;
    while i < n
        invariant
            list@ == functions_in(*t, root),
            n == list@.len(),
            i <= n,
            forall|j: int| 0 <= j < list@.len() ==> t.has(#[trigger] list@[j]),
            e == (Env { c: ctx@, t: *t, prefixes: text::texts(prefixes@) }),
            r@.len() == i,
            forall|j: int|
                0 <= j < i ==> issue_views((#[trigger] r@[j]).issues@) == function_issues(
                    e,
                    list@[j],
                ) && block_views(r@[j]._cfg.blocks@) == function_blocks(*t, list@[j])
                    && r@[j]._cfg.entry == BlockId(0) && r@[j]._cfg.exit == BlockId(1),
        decreases n - i,
    {
        r.push(analyze_function(t, list[i], ctx, prefixes));
        i = i + 1;
    }
    assert(result_issues(r@) =~= functions_in(*t, root).map_values(
        |n: usize|
            function_issues(Env { c: ctx@, t: *t, prefixes: text::texts(prefixes@) }, n),
    ));
    r
}

/// The variable at a position of the order is watched and never used.
pub open spec fn is_unused(vars: Map<u32, VarView>, order: Seq<SymbolId>, i: int) -> bool {
    0 <= i < order.len() && vars.contains_key(order[i].0) && vars[order[i].0].track_unused
        && !vars[order[i].0].used
}

/// The variables that are reported as unused are those that are watched and never used.
pub proof fn unused_variables_are_reported(
    vars: Map<u32, VarView>,
    order: Seq<SymbolId>,
    k: int,
    issue: IssueView,
)
    requires
        0 <= k <= order.len(),
    ensures
        unused_from(vars, order, k).contains(issue) <==> exists|i: int|
            k <= i && #[trigger] is_unused(vars, order, i) && issue == unused_issue(
                vars[order[i].0],
            ),
    decreases order.len() - k,
{
    let r = unused_from(vars, order, k);
    if k < order.len() {
        unused_variables_are_reported(vars, order, k + 1, issue);
        let rest = unused_from(vars, order, k + 1);
        if is_unused(vars, order, k) {
            if r.contains(issue) {
                let j = choose|j: int| 0 <= j < r.len() && r[j] == issue;
                if j > 0 {
                    assert(rest[j - 1] == issue);
                    assert(rest.contains(issue));
                }
            }
            if rest.contains(issue) {
                let j = choose|j: int| 0 <= j < rest.len() && rest[j] == issue;
                assert(r[j + 1] == issue);
            }
            if issue == unused_issue(vars[order[k].0]) {
                assert(r[0] == issue);
            }
        }
        if exists|i: int|
            k <= i && #[trigger] is_unused(vars, order, i) && issue == unused_issue(
                vars[order[i].0],
            ) {
            let i = choose|i: int|
                k <= i && #[trigger] is_unused(vars, order, i) && issue == unused_issue(
                    vars[order[i].0],
                );
            if i > k {
                assert(k + 1 <= i && is_unused(vars, order, i));
            }
        }
    }
}

} // verus!
