//! Which scope, type and signature is meant where a name stands.
use vstd::prelude::*;

use super::members::{
    attached, binding, bound_to, declared_outwards, first_type, member_signature, member_type,
    owner_bindings, paired, receiver_args, returned, returned_outwards, scope_of, signature_of,
    substitute_or_same, type_of_symbol,
};
use super::resolve::{existing_clean, existing_type, named_type};
use super::scope::ScopeId;
use super::symbol::{SymbolId, SymbolShape};
use super::syntax::SyntaxTree;
use super::types::{ArgShape, BuiltinType, TypeId, TypeShape};
use super::{canonical, param_name, ParamShape, SemaView};
use crate::text;

verus! {

// ---------------------------------------------------------------------------
// Scopes
// ---------------------------------------------------------------------------
proof fn lemma_attached(
    list: Seq<(usize, usize, ScopeId)>,
    start: usize,
    end: usize,
    upto: int,
    i: int,
)
    requires
        0 <= i < upto <= list.len(),
        list[i].0 == start && list[i].1 == end,
        forall|j: int|
            i < j < upto ==> !((#[trigger] list[j]).0 == start && list[j].1 == end),
    ensures
        attached(list, start, end, upto) == Some(list[i].2),
    decreases upto,
{
    if i < upto - 1 {
        assert(!(list[upto - 1].0 == start && list[upto - 1].1 == end));
        lemma_attached(list, start, end, upto - 1, i);
    }
}

proof fn lemma_not_attached(list: Seq<(usize, usize, ScopeId)>, start: usize, end: usize, upto: int)
    requires
        0 <= upto <= list.len(),
        forall|j: int|
            0 <= j < upto ==> !((#[trigger] list[j]).0 == start && list[j].1 == end),
    ensures
        attached(list, start, end, upto) is None,
    decreases upto,
{
    if upto > 0 {
        lemma_not_attached(list, start, end, upto - 1);
    }
}

/// A node stands in the scope that was last opened for exactly its stretch of the source; where none
/// was, in that of its parent, and a root in the global one.
pub proof fn nodes_stand_in_the_nearest_scope(c: SemaView, t: SyntaxTree, n: usize, i: int)
    requires
        t.has(n),
        forall|j: int|
            i < j < c.node_scopes.len() ==> !((#[trigger] c.node_scopes[j]).0 == t.at(n).start_byte
                && c.node_scopes[j].1 == t.at(n).end_byte),
    ensures
        0 <= i < c.node_scopes.len() && c.node_scopes[i].0 == t.at(n).start_byte
            && c.node_scopes[i].1 == t.at(n).end_byte ==> scope_of(c, t, n) == c.node_scopes[i].2,
        i == -1 ==> scope_of(c, t, n) == match t.at(n).parent {
            Some(p) => scope_of(c, t, p),
            None => c.scopes.global,
        },
{
    let start = t.at(n).start_byte;
    let end = t.at(n).end_byte;
    let len = c.node_scopes.len() as int;
    if 0 <= i < len && c.node_scopes[i].0 == start && c.node_scopes[i].1 == end {
        lemma_attached(c.node_scopes, start, end, len, i);
    }
    if i == -1 {
        lemma_not_attached(c.node_scopes, start, end, len);
    }
}

/// A name means what the innermost scope that declares it says; a scope that does not is looked
/// through to the one around it, and beyond the outermost it means nothing.
pub proof fn names_mean_the_innermost(c: SemaView, id: ScopeId, name: Seq<char>, steps: nat)
    requires
        steps > 0,
        c.scopes.scope(id) is Some,
    ensures
        c.scopes.named(id, name).len() > 0 ==> declared_outwards(c, Some(id), name, steps)
            == c.scopes.named(id, name),
        c.scopes.named(id, name).len() == 0 ==> declared_outwards(c, Some(id), name, steps)
            == declared_outwards(c, c.scopes.parent(id), name, (steps - 1) as nat),
        declared_outwards(c, None, name, steps).len() == 0,
{
}

/// In a function the type is returned that the function's type says, and in a method that of the
/// method; in any other scope, that of the function around it.
pub proof fn returns_are_those_of_the_innermost_function(c: SemaView, id: ScopeId, steps: nat)
    requires
        steps > 0,
    ensures
        ({
            let kind = c.symbols.kind(c.owners[id.0]);
            let owned = c.owners.contains_key(id.0);
            let found = returned_outwards(c, Some(id), steps);
            let outside = returned_outwards(c, c.scopes.parent(id), (steps - 1) as nat);
            &&& !owned ==> found == outside
            &&& owned && (kind matches Some(SymbolShape::Method { type_id, .. }) && c.kind(type_id)
                matches Some(TypeShape::Function { return_t, .. })) ==> found is Some && c.kind(
                kind->0->Method_type_id,
            )->0->return_t == found->0
            &&& owned && (kind matches Some(SymbolShape::Function { decls }) && decls.len() > 0)
                ==> found == returned(c, kind->0->decls[0].type_id)
            &&& owned && (kind is Some && (kind->0 is Class || kind->0 is Variable)) ==> found
                == outside
        }),
{
}

// ---------------------------------------------------------------------------
// Types of symbols
// ---------------------------------------------------------------------------
/// The first symbol of a list that has a type gives the type of the list.
pub proof fn the_first_typed_symbol_counts(c: SemaView, ids: Seq<SymbolId>, k: int, i: int)
    requires
        0 <= k <= i < ids.len(),
        type_of_symbol(c, ids[i]) is Some,
        forall|j: int| k <= j < i ==> type_of_symbol(c, #[trigger] ids[j]) is None,
    ensures
        first_type(c, ids, k) == type_of_symbol(c, ids[i]),
    decreases i - k,
{
    if k < i {
        assert(type_of_symbol(c, ids[k]) is None);
        the_first_typed_symbol_counts(c, ids, k + 1, i);
    }
}

/// Variables, fields and methods have the type that they were declared with, a function that of its
/// first declaration.
pub proof fn symbols_have_their_declared_types(c: SemaView, id: SymbolId)
    ensures
        c.symbols.kind(id) matches Some(SymbolShape::Variable { type_id, .. }) ==> type_of_symbol(
            c,
            id,
        ) == Some(type_id),
        c.symbols.kind(id) matches Some(SymbolShape::Field { type_id, .. }) ==> type_of_symbol(c, id)
            == Some(type_id),
        c.symbols.kind(id) matches Some(SymbolShape::Method { type_id, .. }) ==> type_of_symbol(
            c,
            id,
        ) == Some(type_id),
        c.symbols.kind(id) matches Some(SymbolShape::Function { decls }) ==> decls.len() > 0
            ==> type_of_symbol(c, id) == Some(decls[0].type_id),
        c.symbols.kind(id) is None ==> type_of_symbol(c, id) is None,
{
}

// ---------------------------------------------------------------------------
// Members of instances
// ---------------------------------------------------------------------------
proof fn lemma_binding(b: Seq<(Seq<char>, ArgShape)>, name: Seq<char>, upto: int, i: int)
    requires
        0 <= i < upto <= b.len(),
        b[i].0 == name,
        forall|j: int| i < j < upto ==> (#[trigger] b[j]).0 != name,
    ensures
        binding(b, name, upto) == Some(b[i].1),
    decreases upto,
{
    if i < upto - 1 {
        assert(b[upto - 1].0 != name);
        lemma_binding(b, name, upto - 1, i);
    }
}

/// Each parameter of a template stands for the argument in the same place.
pub proof fn parameters_stand_for_arguments_in_place(
    params: Seq<ParamShape>,
    args: Seq<ArgShape>,
    i: int,
)
    requires
        0 <= i < params.len(),
        i < args.len(),
        forall|j: int|
            0 <= j < params.len() && j != i ==> param_name(#[trigger] params[j]) != param_name(
                params[i],
            ),
    ensures
        bound_to(paired(params, args), param_name(params[i])) == Some(args[i]),
        paired(params, args).len() <= params.len(),
        paired(params, args).len() <= args.len(),
{
    let b = paired(params, args);
    assert forall|j: int| i < j < b.len() implies (#[trigger] b[j]).0 != param_name(params[i]) by {
        assert(b[j].0 == param_name(params[j]));
    }
    lemma_binding(b, param_name(params[i]), b.len() as int, i);
}

/// A receiver brings the arguments of the template that it is an instance of, points to an instance
/// of or refers to one; any other brings none.
pub proof fn receivers_bring_their_arguments(c: SemaView, receiver: TypeId, inner: TypeId)
    ensures
        c.kind(receiver) matches Some(TypeShape::Template { args, .. }) ==> receiver_args(c, receiver)
            == Some(args),
        (c.kind(receiver) matches Some(TypeShape::Pointer { pointee, .. }) && pointee == inner)
            ==> receiver_args(c, receiver) == match c.kind(inner) {
            Some(TypeShape::Template { args, .. }) => Some(args),
            _ => None,
        },
        (c.kind(receiver) matches Some(TypeShape::Reference { referent, .. }) && referent == inner)
            ==> receiver_args(c, receiver) == match c.kind(inner) {
            Some(TypeShape::Template { args, .. }) => Some(args),
            _ => None,
        },
        c.kind(receiver) matches Some(TypeShape::Class(_)) ==> receiver_args(c, receiver) is None,
{
}

/// A member of a class that is no template has on every receiver the type and the signature that it
/// was declared with; so has one on a receiver that is no instance.
pub proof fn plain_members_keep_their_types(c: SemaView, receiver: TypeId, id: SymbolId)
    requires
        c.symbols.kind(id) matches Some(SymbolShape::Method { owner, .. })
            && (!c.template_params.contains_key(owner.0) || receiver_args(
            c,
            canonical(c, receiver, 32),
        ) is None),
    ensures
        member_type(c, receiver, id) == type_of_symbol(c, id),
        member_signature(c, receiver, id) == signature_of(c, type_of_symbol(c, id)->0),
{
}

/// On an instance, the types of a method's parameters and what it returns are those that were
/// declared, with the parameters of the template replaced; nothing else about it changes.
pub proof fn members_of_instances_are_replaced(
    c: SemaView,
    receiver: TypeId,
    id: SymbolId,
    b: Seq<(Seq<char>, ArgShape)>,
    i: int,
)
    requires
        c.symbols.kind(id) matches Some(SymbolShape::Method { owner, .. }) && owner_bindings(
            c,
            receiver,
            owner,
        ) == Some(b),
        signature_of(c, type_of_symbol(c, id)->0) is Some,
    ensures
        ({
            let s = signature_of(c, type_of_symbol(c, id)->0)->0;
            let r = member_signature(c, receiver, id);
            &&& r is Some
            &&& r->0.return_t == substitute_or_same(c, s.return_t, b)
            &&& r->0.params.len() == s.params.len()
            &&& 0 <= i < s.params.len() ==> r->0.params[i] == substitute_or_same(c, s.params[i], b)
            &&& r->0.min_arity == s.min_arity && r->0.is_variadic == s.is_variadic
            &&& r->0.is_const_member == s.is_const_member
        }),
{
}

// ---------------------------------------------------------------------------
// Written types
// ---------------------------------------------------------------------------
/// The names of the language's own types stand for these, whatever is declared.
pub proof fn builtin_names_stand_for_their_types(c: SemaView)
    ensures
        named_type(c, "void"@) == Some(c.types.void_t),
        named_type(c, "bool"@) == Some(c.types.bool_t),
        named_type(c, "int"@) == Some(c.types.int32_t),
        named_type(c, "int32"@) == named_type(c, "int"@),
        named_type(c, "uint32"@) == Some(c.types.uint32_t),
        named_type(c, "float"@) == Some(c.types.float_t),
        named_type(c, "double"@) == Some(c.types.double_t),
        named_type(c, "TCHAR"@) == named_type(c, "char"@),
        named_type(c, "ANSICHAR"@) == named_type(c, "char"@),
        c.char_t is Some ==> named_type(c, "char"@) == c.char_t,
{
    reveal_strlit("void");
    reveal_strlit("bool");
    reveal_strlit("char");
    reveal_strlit("ANSICHAR");
    reveal_strlit("TCHAR");
    reveal_strlit("int");
    reveal_strlit("int32");
    reveal_strlit("uint32");
    reveal_strlit("float");
    reveal_strlit("double");
    assert("void"@.len() == 4 && "bool"@.len() == 4 && "char"@.len() == 4 && "ANSICHAR"@.len() == 8
        && "TCHAR"@.len() == 5 && "int"@.len() == 3 && "int32"@.len() == 5 && "uint32"@.len() == 6
        && "float"@.len() == 5 && "double"@.len() == 6);
    assert("void"@[0] == 'v' && "bool"@[0] == 'b' && "char"@[0] == 'c' && "TCHAR"@[0] == 'T'
        && "int32"@[0] == 'i' && "uint32"@[0] == 'u' && "float"@[0] == 'f' && "double"@[0] == 'd');
}

/// The text is that of a type without anything around or behind it.
pub open spec fn bare(s: Seq<char>) -> bool {
    &&& s.len() > 0
    &&& super::names::clean(s) == s
    &&& text::trimmed(s) == s
    &&& !text::white_space(s.last()) && !text::white_space(s[0])
}

proof fn lemma_sign_behind(s: Seq<char>, sign: Seq<char>)
    requires
        bare(s),
        sign == "*"@ || sign == "&"@ || sign == "[]"@,
    ensures
        text::trimmed(s + sign) == s + sign,
        super::names::clean(s + sign) == s + sign,
        text::trimmed_end(s) == s,
        (s + sign).subrange(0, (s + sign).len() - sign.len()) == s,
        text::ends(s + sign, sign),
{
    reveal_strlit("*");
    reveal_strlit("&");
    reveal_strlit("[]");
    reveal_strlit("const ");
    reveal_strlit("class ");
    reveal_strlit("struct ");
    reveal_strlit("enum ");
    let none = Seq::<char>::empty();
    let w = s + sign;
    crate::text_laws::trimming_leaves_what_stands_between(none, w, none);
    assert(none + w + none =~= w);
    assert(w.subrange(0, w.len() - sign.len()) =~= s);
    assert(w.subrange(w.len() - sign.len(), w.len() as int) =~= sign);
    super::name_laws::names_are_left_bare(s);
    lemma_no_word(s, sign, "const "@);
    lemma_no_word(s, sign, "class "@);
    lemma_no_word(s, sign, "struct "@);
    lemma_no_word(s, sign, "enum "@);
}

proof fn lemma_no_word(s: Seq<char>, sign: Seq<char>, word: Seq<char>)
    requires
        !text::starts(s, word),
        word.len() > 0,
        word.last() == ' ',
        forall|i: int| 0 <= i < word.len() - 1 ==> #[trigger] word[i] != '*' && word[i] != '&'
            && word[i] != '[' && word[i] != ']',
        sign.len() > 0,
        forall|i: int|
            0 <= i < sign.len() ==> #[trigger] sign[i] == '*' || sign[i] == '&' || sign[i] == '['
                || sign[i] == ']',
    ensures
        !text::starts(s + sign, word),
{
    let w = s + sign;
    if text::starts(w, word) {
        if word.len() <= s.len() {
            assert(s.subrange(0, word.len() as int) =~= w.subrange(0, word.len() as int));
        } else {
            let i = s.len() as int;
            assert(w.subrange(0, word.len() as int)[i] == w[i]);
            assert(w[i] == sign[0]);
            assert(word[i] == sign[0]);
        }
    }
}

/// A star behind a type stands for a pointer to it, an ampersand for a reference and brackets for an
/// array; where the type is not known, none of these is.
pub proof fn signs_behind_a_type_are_read(c: SemaView, s: Seq<char>)
    requires
        bare(s),
    ensures
        existing_type(c, s) is None ==> existing_type(c, s + "*"@) is None && existing_type(
            c,
            s + "&"@,
        ) is None && existing_type(c, s + "[]"@) is None,
        existing_type(c, s) is Some ==> {
            let id = existing_type(c, s)->0;
            &&& existing_type(c, s + "*"@) == super::pointer_to(c, id)
            &&& existing_type(c, s + "&"@) == super::reference_to(c, id)
            &&& existing_type(c, s + "[]"@) == super::array_of(c, id)
        },
{
    reveal_strlit("*");
    reveal_strlit("&");
    reveal_strlit("[]");
    lemma_sign_behind(s, "*"@);
    lemma_sign_behind(s, "&"@);
    lemma_sign_behind(s, "[]"@);
    let p = s + "*"@;
    let r = s + "&"@;
    assert(p.subrange(p.len() - 1, p.len() as int)[0] == '*');
    assert(p.subrange(p.len() - 2, p.len() as int)[1] == '*');
    assert(r.subrange(r.len() - 2, r.len() as int)[1] == '&');
    assert(!text::ends(p, "[]"@) && !text::ends(p, "&"@) && !text::ends(r, "[]"@));
    assert(existing_clean(c, p) == match existing_clean(c, s) {
        Some(x) => super::pointer_to(c, x),
        None => None,
    });
    assert(existing_clean(c, r) == match existing_clean(c, s) {
        Some(x) => super::reference_to(c, x),
        None => None,
    });
}

} // verus!
