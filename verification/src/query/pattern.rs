//! What a search pattern looks like, and the forms in which it is handed to a store.
use vstd::prelude::*;

use crate::text;

verus! {

pub open spec fn identifier_char(c: char) -> bool {
    c == '_' || c == ':' || text::ascii_alnum(c)
}

/// The text reads as a name, perhaps a qualified one.
pub open spec fn identifier(s: Seq<char>) -> bool {
    &&& s.len() > 0
    &&& (s[0] == '_' || text::ascii_alpha(s[0]))
    &&& forall|i: int| 1 <= i < s.len() ==> identifier_char(#[trigger] s[i])
}

pub fn is_identifier_query(query: &str) -> (r: bool)
    ensures
        r == identifier(query@),
{
    let v = text::chars_of(query);
    let n: usize = v.len();
    if n == 0 {
        return false;
    }
    if !(v[0] == '_' || text::is_ascii_alpha(v[0])) {
        return false;
    }
    let mut i: usize = 1;
    while i < n
        invariant
            v@ == query@,
            n == v@.len(),
            1 <= i <= n,
            forall|j: int| 1 <= j < i ==> identifier_char(#[trigger] query@[j]),
        decreases n - i,
    {
        let c = v[i];
        if !(c == '_' || c == ':' || text::is_ascii_alnum(c)) {
            assert(!identifier_char(query@[i as int]));
            return false;
        }
        i = i + 1;
    }
    true
}

pub open spec fn type_letter(c: char) -> bool {
    c == 'u' || c == 'a' || c == 'f' || c == 'e' || c == 'i'
}

/// The text reads as the name of a type with the prefix that Unreal gives it.
pub open spec fn unreal_type(query: Seq<char>) -> bool {
    let s = text::trimmed(query);
    &&& text::byte_len(s) >= 8
    &&& !text::has_char(s, '_')
    &&& !text::has(s, "::"@)
    &&& identifier(s)
    &&& type_letter(text::lower_char(s[0]))
}

pub fn looks_like_unreal_type_query(query: &str) -> (r: bool)
    ensures
        r == unreal_type(query@),
{
    let s = text::trim(query);
    if text::bytes_in(s) < 8 || text::contains_char(s, '_') || text::contains_text(s, "::")
        || !is_identifier_query(s) {
        return false;
    }
    let c = text::to_lower_char(s.get_char(0));
    c == 'u' || c == 'a' || c == 'f' || c == 'e' || c == 'i'
}

/// The text asks for a type by its name.
pub open spec fn type_query(query: Seq<char>) -> bool {
    identifier(query) && (text::has(query, "::"@) || text::ascii_upper(query[0]) || unreal_type(
        query,
    ))
}

pub fn is_explicit_type_query(query: &str) -> (r: bool)
    ensures
        r == type_query(query@),
{
    if !is_identifier_query(query) {
        return false;
    }
    text::contains_text(query, "::") || text::is_ascii_upper(query.get_char(0))
        || looks_like_unreal_type_query(query)
}

/// The letters and digits of a text, in lower case.
pub open spec fn compact(s: Seq<char>) -> Seq<char> {
    compact_upto(s, s.len() as int)
}

pub open spec fn compact_upto(s: Seq<char>, upto: int) -> Seq<char>
    decreases upto,
{
    if upto <= 0 {
        Seq::empty()
    } else if text::ascii_alnum(s[upto - 1]) {
        compact_upto(s, upto - 1).push(text::lower_char(s[upto - 1]))
    } else {
        compact_upto(s, upto - 1)
    }
}

pub fn compact_identifier(input: &str) -> (r: String)
    ensures
        r@ == compact(input@),
{
    let v = text::chars_of(input);
    let n: usize = v.len();
    let mut out: Vec<char> = Vec::new();
    let mut i: usize = 0;
    while i < n
        invariant
            v@ == input@,
            n == v@.len(),
            i <= n,
            out@ == compact_upto(input@, i as int),
        decreases n - i,
    {
        if text::is_ascii_alnum(v[i]) {
            out.push(text::to_lower_char(v[i]));
        }
        i = i + 1;
    }
    text::string_of(out.as_slice())
}

/// What a character must be to stand in a compacted name.
pub open spec fn compact_char(c: char) -> bool {
    text::ascii_lower(c) || text::ascii_digit(c)
}

/// Compacting leaves lower-case letters and digits only.
pub proof fn compact_holds_letters_and_digits(s: Seq<char>)
    ensures
        forall|i: int| 0 <= i < compact(s).len() ==> compact_char(#[trigger] compact(s)[i]),
{
    lemma_compact_chars(s, s.len() as int);
}

proof fn lemma_compact_chars(s: Seq<char>, upto: int)
    requires
        upto <= s.len(),
    ensures
        forall|i: int|
            0 <= i < compact_upto(s, upto).len() ==> compact_char(
                #[trigger] compact_upto(s, upto)[i],
            ),
    decreases upto,
{
    if upto > 0 {
        lemma_compact_chars(s, upto - 1);
        let before = compact_upto(s, upto - 1);
        let c = s[upto - 1];
        if text::ascii_upper(c) {
            assert(text::lower_char(c) as u32 == c as u32 + 32);
        }
        assert forall|i: int| 0 <= i < compact_upto(s, upto).len() implies compact_char(
            #[trigger] compact_upto(s, upto)[i],
        ) by {
            if i < before.len() {
                assert(compact_upto(s, upto)[i] == before[i]);
            }
        }
    }
}

pub open spec fn class_like(kind: Seq<char>) -> bool {
    kind == "class"@ || kind == "struct"@ || kind == "enum"@ || kind == "UCLASS"@ || kind
        == "USTRUCT"@ || kind == "UENUM"@ || kind == "UINTERFACE"@
}

pub fn is_class_like_symbol_type(kind: &str) -> (r: bool)
    ensures
        r == class_like(kind@),
{
    text::same(kind, "class") || text::same(kind, "struct") || text::same(kind, "enum")
        || text::same(kind, "UCLASS") || text::same(kind, "USTRUCT") || text::same(kind, "UENUM")
        || text::same(kind, "UINTERFACE")
}

/// The words of a text in lower case.
pub open spec fn tokens(s: Seq<char>) -> Seq<Seq<char>> {
    text::words(s).map_values(|w: Seq<char>| text::lower(w))
}

pub fn search_tokens(input: &str) -> (r: Vec<String>)
    ensures
        text::texts(r@) == tokens(input@),
{
    let words = text::split_words(input);
    let ghost list = text::words(input@);
    let n: usize = words.len();
    assert(n == list.len());
    let mut r: Vec<String> = Vec::new();
    let mut i: usize = 0;
    while i < n
        invariant
            text::texts(words@) == list,
            n == words@.len(),
            n == list.len(),
            i <= n,
            r@.len() == i,
            forall|j: int| 0 <= j < i ==> (#[trigger] r@[j])@ == text::lower(list[j]),
        decreases n - i,
    {
        assert(list[i as int] == words@[i as int]@);
        r.push(text::to_lower(&words[i]));
        i = i + 1;
    }
    assert(text::texts(r@) =~= tokens(input@));
    r
}

/// The text as it stands in a LIKE pattern whose escape character is the backslash.
pub open spec fn like_escaped(s: Seq<char>) -> Seq<char> {
    text::replaced_char(
        text::replaced_char(text::replaced_char(s, '\\', "\\\\"@), '%', "\\%"@),
        '_',
        "\\_"@,
    )
}

pub fn escape_like(input: &str) -> (r: String)
    ensures
        r@ == like_escaped(input@),
{
    let a = text::replace_char(input, '\\', "\\\\");
    let b = text::replace_char(&a, '%', "\\%");
    text::replace_char(&b, '_', "\\_")
}

pub fn should_use_symbol_fts(pattern: &str) -> (r: bool)
    ensures
        r == (compact(text::trimmed(pattern@)).len() >= 3),
{
    compact_identifier(text::trim(pattern)).as_str().unicode_len() >= 3
}

pub fn should_use_file_fts(pattern: &str) -> (r: bool)
    ensures
        r == (text::trimmed(pattern@).len() >= 3),
{
    text::trim(pattern).unicode_len() >= 3
}

/// A term of a full-text query, in quotes.
pub open spec fn quoted(s: Seq<char>) -> Seq<char> {
    "\""@ + text::replaced_char(s, '"', "\"\""@) + "\""@
}

pub fn quoted_fts_term(input: &str) -> (r: String)
    ensures
        r@ == quoted(input@),
{
    let inner = text::replace_char(input, '"', "\"\"");
    text::concat3("\"", &inner, "\"")
}

/// The words from position `k` on that are long enough for a full-text query, in quotes.
pub open spec fn fts_terms(list: Seq<Seq<char>>, k: int) -> Seq<Seq<char>>
    decreases list.len() - k,
{
    if k < 0 || k >= list.len() {
        Seq::empty()
    } else if list[k].len() >= 3 {
        seq![quoted(list[k])] + fts_terms(list, k + 1)
    } else {
        fts_terms(list, k + 1)
    }
}

/// The full-text query for files that a pattern stands for.
pub open spec fn file_fts_query(pattern: Seq<char>) -> Option<Seq<char>> {
    let terms = fts_terms(tokens(text::trimmed(pattern)), 0);
    if terms.len() == 0 {
        None
    } else {
        Some(text::joined(terms, " "@))
    }
}

/// The full-text query for symbols that a pattern stands for.
pub open spec fn symbol_fts_query(pattern: Seq<char>) -> Option<Seq<char>> {
    let s = text::trimmed(pattern);
    if identifier(s) && compact(s).len() >= 3 {
        Some(quoted(compact(s)))
    } else {
        file_fts_query(pattern)
    }
}

pub fn build_file_fts_query(pattern: &str) -> (r: Option<String>)
    ensures
        text::opt_text(r) == file_fts_query(pattern@),
{
    let words = search_tokens(text::trim(pattern));
    let ghost list = tokens(text::trimmed(pattern@));
    let n: usize = words.len();
    assert(n == list.len());
    let mut terms: Vec<String> = Vec::new();
    let mut i: usize = 0;
    assert(text::texts(terms@) =~= Seq::<Seq<char>>::empty());
    while i < n
        invariant
            text::texts(words@) == list,
            n == words@.len(),
            n == list.len(),
            i <= n,
            fts_terms(list, 0) =~= text::texts(terms@) + fts_terms(list, i as int),
        decreases n - i,
    {
        assert(list[i as int] == words@[i as int]@);
        if words[i].as_str().unicode_len() >= 3 {
            let ghost before = text::texts(terms@);
            terms.push(quoted_fts_term(&words[i]));
            assert(text::texts(terms@) =~= before.push(quoted(list[i as int])));
        }
        i = i + 1;
    }
    assert(text::texts(terms@) =~= fts_terms(list, 0));
    assert(text::texts(terms@).len() == terms@.len());
    if terms.len() == 0 {
        None
    } else {
        Some(text::join(&terms, " "))
    }
}

pub fn build_symbol_fts_query(pattern: &str) -> (r: Option<String>)
    ensures
        text::opt_text(r) == symbol_fts_query(pattern@),
{
    let s = text::trim(pattern);
    if is_identifier_query(s) {
        let c = compact_identifier(s);
        if c.as_str().unicode_len() >= 3 {
            return Some(quoted_fts_term(&c));
        }
    }
    build_file_fts_query(pattern)
}

/// The places for as many candidates, each with its rank.
pub open spec fn candidate_places(count: nat) -> Seq<Seq<char>> {
    Seq::new(count, |i: int| "(?, "@ + text::decimal(i) + ")"@)
}

pub fn candidate_values_clause(count: usize) -> (r: String)
    ensures
        r@ == text::joined(candidate_places(count as nat), ", "@),
{
    let mut parts: Vec<String> = Vec::new();
    let mut i: usize = 0;
    while i < count
        invariant
            i <= count,
            parts@.len() == i,
            forall|j: int|
                0 <= j < i ==> (#[trigger] parts@[j])@ == "(?, "@ + text::decimal(j) + ")"@,
        decreases count - i,
    {
        let number = text::decimal_u64(i as u64);
        parts.push(text::concat3("(?, ", &number, ")"));
        i = i + 1;
    }
    assert(text::texts(parts@) =~= candidate_places(count as nat));
    text::join(&parts, ", ")
}

/// A path with slashes only, none of them doubled.
pub open spec fn slashed_path(path: Seq<char>) -> Seq<char> {
    text::replaced(text::replaced_char(path, '\\', "/"@), "//"@, "/"@)
}

pub fn normalize_path(path: &str) -> (r: String)
    ensures
        r@ == slashed_path(path@),
{
    proof {
        reveal_strlit("//");
    }
    let a = text::replace_char(path, '\\', "/");
    text::replace_text(&a, "//", "/")
}

pub open spec fn within(n: usize, low: usize, high: usize) -> usize {
    if n < low {
        low
    } else if n > high {
        high
    } else {
        n
    }
}

/// The number, moved into a range where it lies outside.
pub fn clamped(n: usize, low: usize, high: usize) -> (r: usize)
    ensures
        r == within(n, low, high),
{
    if n < low {
        low
    } else if n > high {
        high
    } else {
        n
    }
}

pub open spec fn sum_or_max(a: usize, b: usize) -> usize {
    if a + b > usize::MAX {
        usize::MAX
    } else {
        (a + b) as usize
    }
}

/// The sum, or the largest number where it is larger.
pub fn saturated_sum(a: usize, b: usize) -> (r: usize)
    ensures
        r == sum_or_max(a, b),
{
    if a > usize::MAX - b {
        usize::MAX
    } else {
        a + b
    }
}

} // verus!
