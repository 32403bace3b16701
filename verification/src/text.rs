//! Text functions over the characters of a string.
//!
//! Every function here is stated over `Seq<char>`, the view of a string. Positions are counted
//! in characters.
use vstd::prelude::*;
use vstd::string::*;
use vstd::utf8::*;

verus! {

// ---------------------------------------------------------------------------
// Characters
// ---------------------------------------------------------------------------
/// The characters with the Unicode property `White_Space`.
pub open spec fn white_space(c: char) -> bool {
    let n = c as u32;
    ||| 0x09 <= n <= 0x0D
    ||| n == 0x20
    ||| n == 0x85
    ||| n == 0xA0
    ||| n == 0x1680
    ||| 0x2000 <= n <= 0x200A
    ||| n == 0x2028
    ||| n == 0x2029
    ||| n == 0x202F
    ||| n == 0x205F
    ||| n == 0x3000
}

pub fn is_white_space(c: char) -> (r: bool)
    ensures
        r == white_space(c),
{
    let n: u32 = c as u32;
    (0x09 <= n && n <= 0x0D) || n == 0x20 || n == 0x85 || n == 0xA0 || n == 0x1680 || (0x2000 <= n
        && n <= 0x200A) || n == 0x2028 || n == 0x2029 || n == 0x202F || n == 0x205F || n == 0x3000
}

pub open spec fn ascii_upper(c: char) -> bool {
    'A' <= c <= 'Z'
}

pub open spec fn ascii_lower(c: char) -> bool {
    'a' <= c <= 'z'
}

pub open spec fn ascii_digit(c: char) -> bool {
    '0' <= c <= '9'
}

pub open spec fn ascii_alpha(c: char) -> bool {
    ascii_upper(c) || ascii_lower(c)
}

pub open spec fn ascii_alnum(c: char) -> bool {
    ascii_alpha(c) || ascii_digit(c)
}

pub fn is_ascii_upper(c: char) -> (r: bool)
    ensures
        r == ascii_upper(c),
{
    'A' <= c && c <= 'Z'
}

pub fn is_ascii_lower(c: char) -> (r: bool)
    ensures
        r == ascii_lower(c),
{
    'a' <= c && c <= 'z'
}

pub fn is_ascii_digit(c: char) -> (r: bool)
    ensures
        r == ascii_digit(c),
{
    '0' <= c && c <= '9'
}

pub fn is_ascii_alpha(c: char) -> (r: bool)
    ensures
        r == ascii_alpha(c),
{
    is_ascii_upper(c) || is_ascii_lower(c)
}

pub fn is_ascii_alnum(c: char) -> (r: bool)
    ensures
        r == ascii_alnum(c),
{
    is_ascii_alpha(c) || is_ascii_digit(c)
}

/// The ASCII lower case of one character; every other character stands for itself.
pub open spec fn lower_char(c: char) -> char {
    if ascii_upper(c) {
        ((c as u8) + 32) as u8 as char
    } else {
        c
    }
}

pub fn to_lower_char(c: char) -> (r: char)
    ensures
        r == lower_char(c),
{
    if is_ascii_upper(c) {
        let b: u8 = c as u8;
        (b + 32) as char
    } else {
        c
    }
}

// ---------------------------------------------------------------------------
// From strings to characters and back
// ---------------------------------------------------------------------------
/// `String::push` appends one character to the string.
pub assume_specification[ String::push ](s: &mut String, c: char)
    ensures
        final(s)@ == old(s)@.push(c),
;

pub fn chars_of(s: &str) -> (r: Vec<char>)
    ensures
        r@ == s@,
{
    let mut out: Vec<char> = Vec::new();
    for c in it: s.chars()
        invariant
            it.seq() == s@,
            out@ == s@.take(it.index()),
    {
        out.push(c);
    }
    out
}

pub fn string_of(chars: &[char]) -> (r: String)
    ensures
        r@ == chars@,
{
    let mut out = String::new();
    let mut i: usize = 0;
    while i < chars.len()
        invariant
            i <= chars@.len(),
            out@ == chars@.take(i as int),
        decreases chars@.len() - i,
    {
        out.push(chars[i]);
        i = i + 1;
    }
    assert(chars@.take(i as int) == chars@);
    out
}

pub fn copy_of(s: &str) -> (r: String)
    ensures
        r@ == s@,
{
    s.to_owned()
}

pub fn same(a: &str, b: &str) -> (r: bool)
    ensures
        r == (a@ == b@),
{
    let x = a.as_bytes();
    let y = b.as_bytes();
    proof {
        encode_utf8_decode_utf8(a@);
        encode_utf8_decode_utf8(b@);
    }
    if x.len() != y.len() {
        return false;
    }
    let mut i: usize = 0;
    while i < x.len()
        invariant
            x@.len() == y@.len(),
            i <= x@.len(),
            x@ == encode_utf8(a@),
            y@ == encode_utf8(b@),
            forall|j: int| 0 <= j < i ==> x@[j] == y@[j],
        decreases x@.len() - i,
    {
        if x[i] != y[i] {
            return false;
        }
        i = i + 1;
    }
    assert(x@ =~= y@);
    true
}

/// The characters of an optional string.
pub open spec fn opt_text(s: Option<String>) -> Option<Seq<char>> {
    match s {
        Some(t) => Some(t@),
        None => None,
    }
}

pub open spec fn opt_str(s: Option<&str>) -> Option<Seq<char>> {
    match s {
        Some(t) => Some(t@),
        None => None,
    }
}

/// The characters of each string of a list.
pub open spec fn texts(v: Seq<String>) -> Seq<Seq<char>> {
    v.map_values(|s: String| s@)
}

pub fn opt_str_of(s: &Option<String>) -> (r: Option<&str>)
    ensures
        opt_str(r) == opt_text(*s),
{
    match s {
        Some(t) => Some(t.as_str()),
        None => None,
    }
}

pub fn copy_opt_str(s: Option<&str>) -> (r: Option<String>)
    ensures
        opt_text(r) == opt_str(s),
{
    match s {
        Some(t) => Some(copy_of(t)),
        None => None,
    }
}

pub fn copy_opt(s: &Option<String>) -> (r: Option<String>)
    ensures
        r == *s,
        opt_text(r) == opt_text(*s),
{
    match s {
        Some(t) => Some(t.clone()),
        None => None,
    }
}

/// Number of bytes of the UTF-8 encoding.
pub open spec fn byte_len(s: Seq<char>) -> nat {
    encode_utf8(s).len()
}

/// A `str` never holds more than `usize::MAX` bytes.
pub fn bytes_in(s: &str) -> (r: usize)
    ensures
        r == byte_len(s@),
{
    let b = s.as_bytes();
    b.len()
}

// ---------------------------------------------------------------------------
// Trimming
// ---------------------------------------------------------------------------
pub open spec fn trim_start_by(s: Seq<char>, f: spec_fn(char) -> bool) -> Seq<char>
    decreases s.len(),
{
    if s.len() > 0 && f(s[0]) {
        trim_start_by(s.subrange(1, s.len() as int), f)
    } else {
        s
    }
}

pub open spec fn trim_end_by(s: Seq<char>, f: spec_fn(char) -> bool) -> Seq<char>
    decreases s.len(),
{
    if s.len() > 0 && f(s[s.len() - 1]) {
        trim_end_by(s.subrange(0, s.len() - 1), f)
    } else {
        s
    }
}

/// `s` without the white space at both ends.
pub open spec fn trimmed(s: Seq<char>) -> Seq<char> {
    trim_end_by(trim_start_by(s, |c: char| white_space(c)), |c: char| white_space(c))
}

pub open spec fn trimmed_start(s: Seq<char>) -> Seq<char> {
    trim_start_by(s, |c: char| white_space(c))
}

pub open spec fn equal_to(x: char) -> spec_fn(char) -> bool {
    |c: char| c == x
}

/// `s` without the characters `x` at both ends.
pub open spec fn trimmed_of(s: Seq<char>, x: char) -> Seq<char> {
    trim_end_by(trim_start_by(s, equal_to(x)), equal_to(x))
}

pub open spec fn trimmed_end_of(s: Seq<char>, x: char) -> Seq<char> {
    trim_end_by(s, equal_to(x))
}

pub open spec fn trimmed_end(s: Seq<char>) -> Seq<char> {
    trim_end_by(s, |c: char| white_space(c))
}

proof fn lemma_trim_start_step(s: Seq<char>, f: spec_fn(char) -> bool, i: int)
    requires
        0 <= i < s.len(),
        f(s[i]),
    ensures
        trim_start_by(s.subrange(i, s.len() as int), f) == trim_start_by(
            s.subrange(i + 1, s.len() as int),
            f,
        ),
{
    let t = s.subrange(i, s.len() as int);
    assert(t.subrange(1, t.len() as int) =~= s.subrange(i + 1, s.len() as int));
}

proof fn lemma_trim_end_step(s: Seq<char>, f: spec_fn(char) -> bool, i: int, j: int)
    requires
        0 <= i < j <= s.len(),
        f(s[j - 1]),
    ensures
        trim_end_by(s.subrange(i, j), f) == trim_end_by(s.subrange(i, j - 1), f),
{
    let t = s.subrange(i, j);
    assert(t.subrange(0, t.len() - 1) =~= s.subrange(i, j - 1));
}

proof fn lemma_trim_start_len(s: Seq<char>, f: spec_fn(char) -> bool)
    ensures
        trim_start_by(s, f).len() <= s.len(),
    decreases s.len(),
{
    if s.len() > 0 && f(s[0]) {
        lemma_trim_start_len(s.subrange(1, s.len() as int), f);
    }
}

proof fn lemma_trim_end_len(s: Seq<char>, f: spec_fn(char) -> bool)
    ensures
        trim_end_by(s, f).len() <= s.len(),
    decreases s.len(),
{
    if s.len() > 0 && f(s[s.len() - 1]) {
        lemma_trim_end_len(s.subrange(0, s.len() - 1), f);
    }
}

/// Trimming never lengthens.
pub proof fn lemma_trimmed_len(s: Seq<char>)
    ensures
        trimmed(s).len() <= s.len(),
{
    lemma_trim_start_len(s, |c: char| white_space(c));
    lemma_trim_end_len(trim_start_by(s, |c: char| white_space(c)), |c: char| white_space(c));
}

proof fn lemma_trim_start_done(s: Seq<char>, f: spec_fn(char) -> bool)
    ensures
        trim_start_by(s, f).len() > 0 ==> !f(trim_start_by(s, f)[0]),
    decreases s.len(),
{
    if s.len() > 0 && f(s[0]) {
        lemma_trim_start_done(s.subrange(1, s.len() as int), f);
    }
}

proof fn lemma_trim_end_done(s: Seq<char>, f: spec_fn(char) -> bool)
    ensures
        ({
            let r = trim_end_by(s, f);
            r.len() <= s.len() && (r.len() > 0 ==> r[0] == s[0] && !f(r[r.len() - 1]))
        }),
    decreases s.len(),
{
    if s.len() > 0 && f(s[s.len() - 1]) {
        lemma_trim_end_done(s.subrange(0, s.len() - 1), f);
    }
}

/// Trimming twice is trimming once.
pub proof fn lemma_trimmed_again(s: Seq<char>)
    ensures
        trimmed(trimmed(s)) == trimmed(s),
{
    let f = |c: char| white_space(c);
    lemma_trim_start_done(s, f);
    lemma_trim_end_done(trim_start_by(s, f), f);
}

/// Trimming the end never lengthens.
pub proof fn lemma_trimmed_end_len(s: Seq<char>)
    ensures
        trimmed_end(s).len() <= s.len(),
{
    lemma_trim_end_len(s, |c: char| white_space(c));
}

pub fn trim_start(s: &str) -> (r: &str)
    ensures
        r@ == trimmed_start(s@),
{
    let v = chars_of(s);
    let ghost f = |c: char| white_space(c);
    let n: usize = v.len();
    let mut i: usize = 0;
    assert(v@.subrange(0, n as int) =~= v@);
    while i < n && is_white_space(v[i])
        invariant
            n == v@.len(),
            i <= n,
            f == (|c: char| white_space(c)),
            trim_start_by(v@.subrange(i as int, n as int), f) == trim_start_by(v@, f),
        decreases n - i,
    {
        proof {
            lemma_trim_start_step(v@, f, i as int);
        }
        i = i + 1;
    }
    assert(trim_start_by(v@, f) == v@.subrange(i as int, n as int)) by {
        if i < n {
            assert(v@.subrange(i as int, n as int)[0] == v@[i as int]);
        }
    }
    s.substring_char(i, n)
}

pub fn trim_end(s: &str) -> (r: &str)
    ensures
        r@ == trimmed_end(s@),
{
    let v = chars_of(s);
    let ghost f = |c: char| white_space(c);
    let n: usize = v.len();
    let mut j: usize = n;
    assert(v@.subrange(0, n as int) =~= v@);
    while j > 0 && is_white_space(v[j - 1])
        invariant
            n == v@.len(),
            j <= n,
            f == (|c: char| white_space(c)),
            trim_end_by(v@.subrange(0, j as int), f) == trim_end_by(v@, f),
        decreases j,
    {
        proof {
            lemma_trim_end_step(v@, f, 0, j as int);
        }
        j = j - 1;
    }
    s.substring_char(0, j)
}

fn span_by_white(v: &[char]) -> (r: (usize, usize))
    ensures
        r.0 <= r.1 <= v@.len(),
        v@.subrange(r.0 as int, r.1 as int) == trimmed(v@),
{
    let ghost f = |c: char| white_space(c);
    let n: usize = v.len();
    let mut i: usize = 0;
    assert(v@.subrange(0, n as int) =~= v@);
    while i < n && is_white_space(v[i])
        invariant
            n == v@.len(),
            i <= n,
            f == (|c: char| white_space(c)),
            trim_start_by(v@.subrange(i as int, n as int), f) == trim_start_by(v@, f),
        decreases n - i,
    {
        proof {
            lemma_trim_start_step(v@, f, i as int);
        }
        i = i + 1;
    }
    assert(trim_start_by(v@, f) == v@.subrange(i as int, n as int)) by {
        if i < n {
            assert(v@.subrange(i as int, n as int)[0] == v@[i as int]);
        }
    }
    let mut j: usize = n;
    while j > i && is_white_space(v[j - 1])
        invariant
            n == v@.len(),
            i <= j <= n,
            f == (|c: char| white_space(c)),
            trim_end_by(v@.subrange(i as int, j as int), f) == trim_end_by(
                v@.subrange(i as int, n as int),
                f,
            ),
        decreases j,
    {
        proof {
            lemma_trim_end_step(v@, f, i as int, j as int);
        }
        j = j - 1;
    }
    (i, j)
}

fn span_by_char(v: &[char], x: char, from_start: bool) -> (r: (usize, usize))
    ensures
        r.0 <= r.1 <= v@.len(),
        from_start ==> v@.subrange(r.0 as int, r.1 as int) == trimmed_of(v@, x),
        !from_start ==> v@.subrange(r.0 as int, r.1 as int) == trimmed_end_of(v@, x),
{
    let ghost f = equal_to(x);
    let n: usize = v.len();
    let mut i: usize = 0;
    assert(v@.subrange(0, n as int) =~= v@);
    while from_start && i < n && v[i] == x
        invariant
            n == v@.len(),
            i <= n,
            !from_start ==> i == 0,
            f == equal_to(x),
            trim_start_by(v@.subrange(i as int, n as int), f) == trim_start_by(v@, f),
        decreases n - i,
    {
        proof {
            lemma_trim_start_step(v@, f, i as int);
        }
        i = i + 1;
    }
    assert(from_start ==> trim_start_by(v@, f) == v@.subrange(i as int, n as int)) by {
        if i < n {
            assert(v@.subrange(i as int, n as int)[0] == v@[i as int]);
        }
    }
    let mut j: usize = n;
    while j > i && v[j - 1] == x
        invariant
            n == v@.len(),
            i <= j <= n,
            f == equal_to(x),
            trim_end_by(v@.subrange(i as int, j as int), f) == trim_end_by(
                v@.subrange(i as int, n as int),
                f,
            ),
        decreases j,
    {
        proof {
            lemma_trim_end_step(v@, f, i as int, j as int);
        }
        j = j - 1;
    }
    (i, j)
}

pub fn trim(s: &str) -> (r: &str)
    ensures
        r@ == trimmed(s@),
{
    let v = chars_of(s);
    let (i, j) = span_by_white(v.as_slice());
    s.substring_char(i, j)
}

pub fn trim_char(s: &str, x: char) -> (r: &str)
    ensures
        r@ == trimmed_of(s@, x),
{
    let v = chars_of(s);
    let (i, j) = span_by_char(v.as_slice(), x, true);
    s.substring_char(i, j)
}

pub fn trim_end_char(s: &str, x: char) -> (r: &str)
    ensures
        r@ == trimmed_end_of(s@, x),
{
    let v = chars_of(s);
    let (i, j) = span_by_char(v.as_slice(), x, false);
    s.substring_char(i, j)
}

/// Removes every leading copy of `p`.
pub open spec fn without_prefixes(s: Seq<char>, p: Seq<char>) -> Seq<char>
    decreases s.len(),
{
    if p.len() > 0 && starts(s, p) {
        without_prefixes(s.subrange(p.len() as int, s.len() as int), p)
    } else {
        s
    }
}

pub fn trim_start_text<'a>(s: &'a str, p: &str) -> (r: &'a str)
    requires
        p@.len() > 0,
    ensures
        r@ == without_prefixes(s@, p@),
{
    let n: usize = s.unicode_len();
    let m: usize = p.unicode_len();
    let mut i: usize = 0;
    assert(s@.subrange(0, n as int) =~= s@);
    while m <= n - i && starts_at(s, p, i)
        invariant
            n == s@.len(),
            m == p@.len(),
            m > 0,
            i <= n,
            without_prefixes(s@.subrange(i as int, n as int), p@) == without_prefixes(s@, p@),
        decreases n - i,
    {
        proof {
            let t = s@.subrange(i as int, n as int);
            assert(t.subrange(0, m as int) =~= s@.subrange(i as int, i + m));
            assert(t.subrange(m as int, t.len() as int) =~= s@.subrange(i + m, n as int));
        }
        i = i + m;
    }
    proof {
        let t = s@.subrange(i as int, n as int);
        if starts(t, p@) {
            assert(t.subrange(0, m as int) =~= s@.subrange(i as int, i + m));
        }
    }
    s.substring_char(i, n)
}

// ---------------------------------------------------------------------------
// Searching
// ---------------------------------------------------------------------------
pub open spec fn starts(s: Seq<char>, p: Seq<char>) -> bool {
    p.len() <= s.len() && s.subrange(0, p.len() as int) == p
}

pub open spec fn ends(s: Seq<char>, p: Seq<char>) -> bool {
    p.len() <= s.len() && s.subrange(s.len() - p.len(), s.len() as int) == p
}

pub open spec fn occurs_at(s: Seq<char>, p: Seq<char>, i: int) -> bool {
    0 <= i && i + p.len() <= s.len() && s.subrange(i, i + p.len()) == p
}

/// `p` occurs somewhere in `s`.
pub open spec fn has(s: Seq<char>, p: Seq<char>) -> bool {
    exists|i: int| occurs_at(s, p, i)
}

pub open spec fn has_char(s: Seq<char>, c: char) -> bool {
    s.contains(c)
}

/// The first position of `p` in `s` at or after `from`.
pub open spec fn find_from(s: Seq<char>, p: Seq<char>, from: int) -> Option<int>
    decreases s.len() - from + 1,
{
    if from < 0 || from + p.len() > s.len() {
        None
    } else if occurs_at(s, p, from) {
        Some(from)
    } else {
        find_from(s, p, from + 1)
    }
}

pub open spec fn find(s: Seq<char>, p: Seq<char>) -> Option<int> {
    find_from(s, p, 0)
}

pub proof fn lemma_find_from(s: Seq<char>, p: Seq<char>, from: int)
    requires
        0 <= from,
    ensures
        match find_from(s, p, from) {
            Some(i) => from <= i && occurs_at(s, p, i) && (forall|j: int|
                from <= j < i ==> !occurs_at(s, p, j)),
            None => forall|j: int| from <= j ==> !occurs_at(s, p, j),
        },
    decreases s.len() - from + 1,
{
    if from + p.len() > s.len() {
    } else if occurs_at(s, p, from) {
    } else {
        lemma_find_from(s, p, from + 1);
    }
}

fn chars_at(v: &[char], p: &[char], i: usize) -> (r: bool)
    requires
        i + p@.len() <= v@.len(),
    ensures
        r == (v@.subrange(i as int, i + p@.len()) == p@),
{
    let n: usize = v.len();
    let mut k: usize = 0;
    while k < p.len()
        invariant
            n == v@.len(),
            i + p@.len() <= n,
            k <= p@.len(),
            forall|j: int| 0 <= j < k ==> v@[i + j] == p@[j],
        decreases p@.len() - k,
    {
        if v[i + k] != p[k] {
            assert(v@.subrange(i as int, i + p@.len())[k as int] != p@[k as int]);
            return false;
        }
        k = k + 1;
    }
    assert(v@.subrange(i as int, i + p@.len()) =~= p@);
    true
}

pub fn starts_at(s: &str, p: &str, i: usize) -> (r: bool)
    requires
        i + p@.len() <= s@.len(),
    ensures
        r == (s@.subrange(i as int, i + p@.len()) == p@),
{
    let v = chars_of(s);
    let q = chars_of(p);
    chars_at(v.as_slice(), q.as_slice(), i)
}

pub fn starts_with(s: &str, p: &str) -> (r: bool)
    ensures
        r == starts(s@, p@),
{
    let v = chars_of(s);
    let q = chars_of(p);
    q.len() <= v.len() && chars_at(v.as_slice(), q.as_slice(), 0)
}

pub fn ends_with(s: &str, p: &str) -> (r: bool)
    ensures
        r == ends(s@, p@),
{
    let v = chars_of(s);
    let q = chars_of(p);
    q.len() <= v.len() && chars_at(v.as_slice(), q.as_slice(), v.len() - q.len())
}

/// The rest of `s` behind the prefix `p`.
pub open spec fn stripped(s: Seq<char>, p: Seq<char>) -> Option<Seq<char>> {
    if starts(s, p) {
        Some(s.subrange(p.len() as int, s.len() as int))
    } else {
        None
    }
}

pub fn strip_prefix<'a>(s: &'a str, p: &str) -> (r: Option<&'a str>)
    ensures
        opt_str(r) == stripped(s@, p@),
{
    if starts_with(s, p) {
        let n: usize = s.unicode_len();
        let m: usize = p.unicode_len();
        Some(s.substring_char(m, n))
    } else {
        None
    }
}

/// The part of `s` before the suffix `p`.
pub open spec fn stripped_end(s: Seq<char>, p: Seq<char>) -> Option<Seq<char>> {
    if ends(s, p) {
        Some(s.subrange(0, s.len() - p.len()))
    } else {
        None
    }
}

pub fn strip_suffix<'a>(s: &'a str, p: &str) -> (r: Option<&'a str>)
    ensures
        opt_str(r) == stripped_end(s@, p@),
{
    if ends_with(s, p) {
        let n: usize = s.unicode_len();
        let m: usize = p.unicode_len();
        Some(s.substring_char(0, n - m))
    } else {
        None
    }
}

pub fn find_chars(v: &[char], p: &[char], from: usize) -> (r: Option<usize>)
    requires
        from <= v@.len(),
    ensures
        match r {
            Some(i) => find_from(v@, p@, from as int) == Some(i as int) && i + p@.len() <= v@.len(),
            None => find_from(v@, p@, from as int) is None,
        },
{
    let n: usize = v.len();
    let m: usize = p.len();
    let mut i: usize = from;
    while i <= n && m <= n - i
        invariant
            n == v@.len(),
            m == p@.len(),
            from <= i <= n + 1,
            n < usize::MAX || i <= n,
            find_from(v@, p@, i as int) == find_from(v@, p@, from as int),
        decreases n + 1 - i,
    {
        if chars_at(v, p, i) {
            return Some(i);
        }
        if i == n {
            assert(find_from(v@, p@, i + 1) is None);
            return None;
        }
        i = i + 1;
    }
    None
}

pub fn find_text(s: &str, p: &str) -> (r: Option<usize>)
    ensures
        match r {
            Some(i) => find(s@, p@) == Some(i as int) && i + p@.len() <= s@.len(),
            None => find(s@, p@) is None,
        },
{
    let v = chars_of(s);
    let q = chars_of(p);
    find_chars(v.as_slice(), q.as_slice(), 0)
}

pub fn contains_text(s: &str, p: &str) -> (r: bool)
    ensures
        r == has(s@, p@),
{
    proof {
        lemma_find_from(s@, p@, 0);
    }
    match find_text(s, p) {
        Some(_i) => true,
        None => false,
    }
}

/// The first position of `c` at or after `from`, or the length.
pub open spec fn char_from(s: Seq<char>, c: char, from: int) -> int
    decreases s.len() - from,
{
    if from < 0 || from >= s.len() {
        s.len() as int
    } else if s[from] == c {
        from
    } else {
        char_from(s, c, from + 1)
    }
}

pub proof fn lemma_char_from(s: Seq<char>, c: char, from: int)
    requires
        0 <= from <= s.len(),
    ensures
        from <= char_from(s, c, from) <= s.len(),
        char_from(s, c, from) < s.len() ==> s[char_from(s, c, from)] == c,
        forall|j: int| from <= j < char_from(s, c, from) ==> s[j] != c,
    decreases s.len() - from,
{
    if from < s.len() && s[from] != c {
        lemma_char_from(s, c, from + 1);
    }
}

pub fn char_pos(v: &[char], c: char, from: usize) -> (r: usize)
    requires
        from <= v@.len(),
    ensures
        r == char_from(v@, c, from as int),
        from <= r <= v@.len(),
{
    let mut i: usize = from;
    while i < v.len() && v[i] != c
        invariant
            from <= i <= v@.len(),
            char_from(v@, c, i as int) == char_from(v@, c, from as int),
        decreases v@.len() - i,
    {
        i = i + 1;
    }
    i
}

pub fn contains_char(s: &str, c: char) -> (r: bool)
    ensures
        r == has_char(s@, c),
{
    let v = chars_of(s);
    proof {
        lemma_char_from(s@, c, 0);
    }
    let i = char_pos(v.as_slice(), c, 0);
    i < v.len()
}

/// The position behind the last `c`, or 0 where there is none.
pub open spec fn after_last(s: Seq<char>, c: char, upto: int) -> int
    decreases upto,
{
    if upto <= 0 {
        0
    } else if s[upto - 1] == c {
        upto
    } else {
        after_last(s, c, upto - 1)
    }
}

fn after_last_pos(v: &[char], c: char) -> (r: usize)
    ensures
        r == after_last(v@, c, v@.len() as int),
        r <= v@.len(),
{
    let mut i: usize = v.len();
    while i > 0 && v[i - 1] != c
        invariant
            i <= v@.len(),
            after_last(v@, c, i as int) == after_last(v@, c, v@.len() as int),
        decreases i,
    {
        i = i - 1;
    }
    i
}

/// What stands behind the last `c`; all of `s` where there is none.
pub open spec fn last_part(s: Seq<char>, c: char) -> Seq<char> {
    s.subrange(after_last(s, c, s.len() as int), s.len() as int)
}

pub fn last_part_of(s: &str, c: char) -> (r: &str)
    ensures
        r@ == last_part(s@, c),
{
    let v = chars_of(s);
    let i = after_last_pos(v.as_slice(), c);
    s.substring_char(i, v.len())
}

/// What stands before the first `c`; all of `s` where there is none.
pub open spec fn first_part(s: Seq<char>, c: char) -> Seq<char> {
    s.subrange(0, char_from(s, c, 0))
}

pub fn first_part_of(s: &str, c: char) -> (r: &str)
    ensures
        r@ == first_part(s@, c),
{
    let v = chars_of(s);
    let i = char_pos(v.as_slice(), c, 0);
    s.substring_char(0, i)
}

/// What stands behind the first `c`, where there is one.
pub open spec fn behind_first(s: Seq<char>, c: char) -> Option<Seq<char>> {
    let i = char_from(s, c, 0);
    if i < s.len() {
        Some(s.subrange(i + 1, s.len() as int))
    } else {
        None
    }
}

pub fn behind_first_of(s: &str, c: char) -> (r: Option<&str>)
    ensures
        opt_str(r) == behind_first(s@, c),
{
    let v = chars_of(s);
    let i = char_pos(v.as_slice(), c, 0);
    if i < v.len() {
        Some(s.substring_char(i + 1, v.len()))
    } else {
        None
    }
}

/// What stands behind the last occurrence of `p` (non-empty), found from the right; all of `s`
/// where there is none.
pub open spec fn tail_after(s: Seq<char>, p: Seq<char>, upto: int) -> Seq<char>
    decreases upto,
{
    if upto < p.len() || upto <= 0 {
        s
    } else if occurs_at(s, p, upto - p.len()) {
        s.subrange(upto, s.len() as int)
    } else {
        tail_after(s, p, upto - 1)
    }
}

pub open spec fn last_segment(s: Seq<char>, p: Seq<char>) -> Seq<char> {
    tail_after(s, p, s.len() as int)
}

pub fn last_segment_of<'a>(s: &'a str, p: &str) -> (r: &'a str)
    requires
        p@.len() > 0,
    ensures
        r@ == last_segment(s@, p@),
{
    let v = chars_of(s);
    let q = chars_of(p);
    let n: usize = v.len();
    let m: usize = q.len();
    let mut i: usize = n;
    while i >= m
        invariant
            n == v@.len(),
            m == q@.len(),
            m > 0,
            v@ == s@,
            q@ == p@,
            i <= n,
            tail_after(s@, p@, i as int) == last_segment(s@, p@),
        decreases i,
    {
        if chars_at(v.as_slice(), q.as_slice(), i - m) {
            return s.substring_char(i, n);
        }
        i = i - 1;
    }
    s
}

// ---------------------------------------------------------------------------
// Case
// ---------------------------------------------------------------------------
pub open spec fn lower(s: Seq<char>) -> Seq<char> {
    s.map_values(|c: char| lower_char(c))
}

pub fn to_lower(s: &str) -> (r: String)
    ensures
        r@ == lower(s@),
{
    let mut out = String::new();
    for c in it: s.chars()
        invariant
            it.seq() == s@,
            out@ == lower(s@.take(it.index())),
    {
        out.push(to_lower_char(c));
        assert(lower(s@.take(it.index() + 1)) =~= lower(s@.take(it.index())).push(
            lower_char(s@[it.index()]),
        ));
    }
    assert(s@.take(s@.len() as int) =~= s@);
    out
}

/// Equality up to ASCII case.
pub open spec fn same_caseless(a: Seq<char>, b: Seq<char>) -> bool {
    lower(a) == lower(b)
}

pub fn eq_caseless(a: &str, b: &str) -> (r: bool)
    ensures
        r == same_caseless(a@, b@),
{
    let x = to_lower(a);
    let y = to_lower(b);
    same(x.as_str(), y.as_str())
}

// ---------------------------------------------------------------------------
// Replacing and splitting
// ---------------------------------------------------------------------------
/// `s` with each `x` replaced by `with`.
pub open spec fn replaced_char(s: Seq<char>, x: char, with: Seq<char>) -> Seq<char>
    decreases s.len(),
{
    if s.len() == 0 {
        s
    } else if s.last() == x {
        replaced_char(s.drop_last(), x, with) + with
    } else {
        replaced_char(s.drop_last(), x, with).push(s.last())
    }
}

pub fn replace_char(s: &str, x: char, with: &str) -> (r: String)
    ensures
        r@ == replaced_char(s@, x, with@),
{
    let v = chars_of(s);
    let mut out = String::new();
    let mut i: usize = 0;
    while i < v.len()
        invariant
            v@ == s@,
            i <= v@.len(),
            out@ == replaced_char(s@.take(i as int), x, with@),
        decreases v@.len() - i,
    {
        assert(s@.take(i + 1).drop_last() =~= s@.take(i as int));
        if v[i] == x {
            out.append(with);
        } else {
            out.push(v[i]);
        }
        i = i + 1;
    }
    assert(s@.take(i as int) =~= s@);
    out
}

/// `s` from position `from` on, with every copy of the non-empty `p` replaced by `with`, taken
/// from left to right.
pub open spec fn replaced_from(s: Seq<char>, p: Seq<char>, with: Seq<char>, from: int) -> Seq<char>
    decreases s.len() - from,
{
    if from < 0 || from >= s.len() || p.len() == 0 {
        Seq::empty()
    } else if occurs_at(s, p, from) {
        with + replaced_from(s, p, with, from + p.len())
    } else {
        seq![s[from]] + replaced_from(s, p, with, from + 1)
    }
}

pub open spec fn replaced(s: Seq<char>, p: Seq<char>, with: Seq<char>) -> Seq<char> {
    replaced_from(s, p, with, 0)
}

pub fn replace_text(s: &str, p: &str, with: &str) -> (r: String)
    requires
        p@.len() > 0,
    ensures
        r@ == replaced(s@, p@, with@),
{
    let v = chars_of(s);
    let q = chars_of(p);
    let n: usize = v.len();
    let m: usize = q.len();
    let mut out = String::new();
    let mut i: usize = 0;
    assert(Seq::<char>::empty() + replaced(s@, p@, with@) =~= replaced(s@, p@, with@));
    while i < n
        invariant
            n == v@.len(),
            m == q@.len(),
            m > 0,
            v@ == s@,
            q@ == p@,
            i <= n,
            out@ + replaced_from(s@, p@, with@, i as int) == replaced(s@, p@, with@),
        decreases n - i,
    {
        let ghost before = out@;
        if m <= n - i && chars_at(v.as_slice(), q.as_slice(), i) {
            out.append(with);
            assert(out@ + replaced_from(s@, p@, with@, i + m) =~= before + (with@ + replaced_from(
                s@,
                p@,
                with@,
                i + m,
            )));
            i = i + m;
        } else {
            out.push(v[i]);
            assert(out@ + replaced_from(s@, p@, with@, i + 1) =~= before + (seq![s@[i as int]]
                + replaced_from(s@, p@, with@, i + 1)));
            i = i + 1;
        }
    }
    assert(out@ + replaced_from(s@, p@, with@, i as int) =~= out@);
    out
}

/// The parts of `s` between the characters `c`, from position `from` on.
pub open spec fn parts_from(s: Seq<char>, c: char, from: int) -> Seq<Seq<char>>
    decreases s.len() - from,
{
    let i = char_from(s, c, from);
    if from < 0 || from > s.len() {
        Seq::empty()
    } else if i >= s.len() || i < from {
        seq![s.subrange(from, s.len() as int)]
    } else {
        seq![s.subrange(from, i)] + parts_from(s, c, i + 1)
    }
}

pub open spec fn parts(s: Seq<char>, c: char) -> Seq<Seq<char>> {
    parts_from(s, c, 0)
}

/// The runs of characters that are not white space, from position `from` on; `start` is where
/// the run that is being read began.
pub open spec fn words_from(s: Seq<char>, start: int, i: int) -> Seq<Seq<char>>
    decreases s.len() - i,
{
    if i >= s.len() {
        if start < i {
            seq![s.subrange(start, i)]
        } else {
            Seq::empty()
        }
    } else if white_space(s[i]) {
        if start < i {
            seq![s.subrange(start, i)] + words_from(s, i + 1, i + 1)
        } else {
            words_from(s, i + 1, i + 1)
        }
    } else {
        words_from(s, start, i + 1)
    }
}

/// The words of `s`: its longest runs without white space.
pub open spec fn words(s: Seq<char>) -> Seq<Seq<char>> {
    words_from(s, 0, 0)
}

pub fn split_words(s: &str) -> (r: Vec<String>)
    ensures
        texts(r@) == words(s@),
{
    let v = chars_of(s);
    let n: usize = v.len();
    let mut out: Vec<String> = Vec::new();
    let mut start: usize = 0;
    let mut i: usize = 0;
    assert(texts(out@) + words(s@) =~= words(s@));
    while i < n
        invariant
            n == v@.len(),
            v@ == s@,
            start <= i <= n,
            texts(out@) + words_from(s@, start as int, i as int) == words(s@),
        decreases n - i,
    {
        let ghost before = texts(out@);
        if is_white_space(v[i]) {
            if start < i {
                out.push(copy_of(s.substring_char(start, i)));
                assert(texts(out@) =~= before.push(s@.subrange(start as int, i as int)));
                assert(texts(out@) + words_from(s@, i + 1, i + 1) =~= before + (seq![
                    s@.subrange(start as int, i as int),
                ] + words_from(s@, i + 1, i + 1)));
            }
            start = i + 1;
        }
        i = i + 1;
    }
    let ghost before = texts(out@);
    if start < n {
        out.push(copy_of(s.substring_char(start, n)));
        assert(texts(out@) =~= before + seq![s@.subrange(start as int, n as int)]);
    } else {
        assert(before + Seq::<Seq<char>>::empty() =~= before);
    }
    out
}

/// The list joined with `sep` between two neighbours.
pub open spec fn joined(list: Seq<Seq<char>>, sep: Seq<char>) -> Seq<char>
    decreases list.len(),
{
    if list.len() == 0 {
        Seq::empty()
    } else if list.len() == 1 {
        list[0]
    } else {
        joined(list.drop_last(), sep) + sep + list.last()
    }
}

pub fn join(list: &Vec<String>, sep: &str) -> (r: String)
    ensures
        r@ == joined(texts(list@), sep@),
{
    let mut out = String::new();
    let mut i: usize = 0;
    while i < list.len()
        invariant
            i <= list@.len(),
            out@ == joined(texts(list@).take(i as int), sep@),
        decreases list@.len() - i,
    {
        let ghost all = texts(list@);
        assert(all.take(i + 1).drop_last() =~= all.take(i as int));
        if i > 0 {
            out.append(sep);
        } else {
            assert(all.take(1)[0] == all[0]);
        }
        out.append(list[i].as_str());
        assert(out@ =~= joined(all.take(i + 1), sep@));
        i = i + 1;
    }
    assert(texts(list@).take(i as int) =~= texts(list@));
    out
}

pub fn list_contains(list: &Vec<String>, s: &str) -> (r: bool)
    ensures
        r == texts(list@).contains(s@),
{
    let mut i: usize = 0;
    while i < list.len()
        invariant
            i <= list@.len(),
            forall|j: int| 0 <= j < i ==> texts(list@)[j] != s@,
        decreases list@.len() - i,
    {
        if same(list[i].as_str(), s) {
            assert(texts(list@)[i as int] == s@);
            return true;
        }
        i = i + 1;
    }
    false
}

pub fn concat2(a: &str, b: &str) -> (r: String)
    ensures
        r@ == a@ + b@,
{
    let mut out = copy_of(a);
    out.append(b);
    out
}

pub fn concat3(a: &str, b: &str, c: &str) -> (r: String)
    ensures
        r@ == a@ + b@ + c@,
{
    let mut out = copy_of(a);
    out.append(b);
    out.append(c);
    out
}

// ---------------------------------------------------------------------------
// Order
// ---------------------------------------------------------------------------
/// Lexicographic order by code point, from position `i` on.
pub open spec fn less_from(a: Seq<char>, b: Seq<char>, i: int) -> bool
    decreases a.len() - i,
{
    if i < 0 || i >= b.len() {
        false
    } else if i >= a.len() {
        true
    } else if a[i] == b[i] {
        less_from(a, b, i + 1)
    } else {
        a[i] < b[i]
    }
}

/// `a` stands before `b` in the order of strings.
pub open spec fn less(a: Seq<char>, b: Seq<char>) -> bool {
    less_from(a, b, 0)
}

pub open spec fn at_most(a: Seq<char>, b: Seq<char>) -> bool {
    !less(b, a)
}

pub fn is_less(a: &str, b: &str) -> (r: bool)
    ensures
        r == less(a@, b@),
{
    let x = chars_of(a);
    let y = chars_of(b);
    let mut i: usize = 0;
    while i < x.len() && i < y.len() && x[i] == y[i]
        invariant
            x@ == a@,
            y@ == b@,
            i <= x@.len(),
            i <= y@.len(),
            less_from(a@, b@, i as int) == less(a@, b@),
        decreases x@.len() - i,
    {
        i = i + 1;
    }
    if i >= y.len() {
        false
    } else if i >= x.len() {
        true
    } else {
        x[i] < y[i]
    }
}

proof fn lemma_less_trans_from(a: Seq<char>, b: Seq<char>, c: Seq<char>, i: int)
    requires
        0 <= i,
        !less_from(b, a, i),
        !less_from(c, b, i),
    ensures
        !less_from(c, a, i),
    decreases a.len() - i,
{
    if i < a.len() && i < b.len() && i < c.len() && a[i] == b[i] && b[i] == c[i] {
        lemma_less_trans_from(a, b, c, i + 1);
    }
}

proof fn lemma_less_total_from(a: Seq<char>, b: Seq<char>, i: int)
    requires
        0 <= i,
        i <= a.len(),
        i <= b.len(),
        forall|j: int| 0 <= j < i ==> a[j] == b[j],
    ensures
        !(less_from(a, b, i) && less_from(b, a, i)),
        less_from(a, b, i) || less_from(b, a, i) || a == b,
    decreases a.len() - i,
{
    if i < a.len() && i < b.len() && a[i] == b[i] {
        lemma_less_total_from(a, b, i + 1);
    } else if i >= a.len() && i >= b.len() {
        assert(a =~= b);
    }
}

/// The order of strings is transitive.
pub proof fn lemma_at_most_trans(a: Seq<char>, b: Seq<char>, c: Seq<char>)
    requires
        at_most(a, b),
        at_most(b, c),
    ensures
        at_most(a, c),
{
    lemma_less_trans_from(a, b, c, 0);
}

/// Of two different strings exactly one stands before the other.
pub proof fn lemma_less_total(a: Seq<char>, b: Seq<char>)
    ensures
        !(less(a, b) && less(b, a)),
        less(a, b) || less(b, a) || a == b,
        !less(a, a),
{
    lemma_less_total_from(a, b, 0);
    lemma_less_total_from(a, a, 0);
}

/// A text is not less than what it begins with.
pub proof fn lemma_prefix_not_less(a: Seq<char>, p: Seq<char>, i: int)
    requires
        starts(a, p),
        0 <= i,
    ensures
        !less_from(a, p, i),
    decreases p.len() - i,
{
    if i < p.len() {
        assert(a.subrange(0, p.len() as int)[i] == p[i]);
        lemma_prefix_not_less(a, p, i + 1);
    }
}

/// In an ordered list the texts with a common beginning stand together.
pub proof fn lemma_prefix_run_ends(a: Seq<char>, b: Seq<char>, p: Seq<char>, i: int)
    requires
        0 <= i <= p.len(),
        !less_from(a, p, i),
        !less_from(b, a, i),
        starts(b, p),
        i <= a.len(),
        forall|j: int| 0 <= j < i ==> a[j] == p[j],
    ensures
        starts(a, p),
    decreases p.len() - i,
{
    if i == p.len() {
        assert(a.subrange(0, p.len() as int) =~= p);
    } else {
        assert(b.subrange(0, p.len() as int)[i] == p[i]);
        lemma_prefix_run_ends(a, b, p, i + 1);
    }
}

// ---------------------------------------------------------------------------
// Numbers
// ---------------------------------------------------------------------------
pub open spec fn digit_char(d: int) -> char {
    (('0' as u8) + d) as u8 as char
}

/// Decimal digits of a natural number.
pub open spec fn decimal_nat(n: nat) -> Seq<char>
    decreases n,
{
    if n < 10 {
        seq![digit_char(n as int)]
    } else {
        decimal_nat(n / 10).push(digit_char((n % 10) as int))
    }
}

/// Decimal digits of an integer, with a sign where it is negative.
pub open spec fn decimal(n: int) -> Seq<char> {
    if n < 0 {
        seq!['-'] + decimal_nat((-n) as nat)
    } else {
        decimal_nat(n as nat)
    }
}

fn push_digits(out: &mut String, n: u128)
    ensures
        final(out)@ == old(out)@ + decimal_nat(n as nat),
    decreases n,
{
    let ghost before = out@;
    if n >= 10 {
        push_digits(out, n / 10);
    }
    let d: u8 = (n % 10) as u8;
    out.push((48 + d) as char);
    proof {
        if n < 10 {
            assert(out@ =~= before + decimal_nat(n as nat));
        } else {
            assert(out@ =~= before + decimal_nat((n / 10) as nat).push(digit_char((n % 10) as int)));
        }
    }
}

pub fn decimal_u64(n: u64) -> (r: String)
    ensures
        r@ == decimal(n as int),
{
    let mut out = String::new();
    push_digits(&mut out, n as u128);
    assert(out@ =~= decimal(n as int));
    out
}

pub fn decimal_i64(n: i64) -> (r: String)
    ensures
        r@ == decimal(n as int),
{
    let mut out = String::new();
    if n < 0 {
        out.push('-');
        let m: i128 = -(n as i128);
        push_digits(&mut out, m as u128);
        assert(out@ =~= decimal(n as int));
    } else {
        push_digits(&mut out, n as u128);
        assert(out@ =~= decimal(n as int));
    }
    out
}

/// The value of a run of decimal digits; `None` where another character stands among them.
pub open spec fn digits_value(s: Seq<char>) -> Option<int>
    decreases s.len(),
{
    if s.len() == 0 {
        Some(0)
    } else if !ascii_digit(s.last()) {
        None
    } else {
        match digits_value(s.drop_last()) {
            Some(v) => Some(v * 10 + (s.last() as u32 - 48)),
            None => None,
        }
    }
}

/// An optional sign and at least one digit.
pub open spec fn integer_value(s: Seq<char>) -> Option<int> {
    if s.len() == 0 {
        None
    } else if s[0] == '-' || s[0] == '+' {
        let rest = s.subrange(1, s.len() as int);
        if rest.len() == 0 {
            None
        } else {
            match digits_value(rest) {
                Some(v) => Some(if s[0] == '-' { -v } else { v }),
                None => None,
            }
        }
    } else {
        digits_value(s)
    }
}

proof fn lemma_digits_value_prefix(s: Seq<char>, i: int)
    requires
        0 <= i <= s.len(),
    ensures
        digits_value(s.take(i)) is None ==> digits_value(s) is None,
        digits_value(s) is Some ==> digits_value(s)->0 >= digits_value(s.take(i))->0 >= 0,
    decreases s.len() - i,
{
    lemma_digits_value_sign(s.take(i));
    if i == s.len() {
        assert(s.take(i) =~= s);
    } else {
        lemma_digits_value_prefix(s, i + 1);
        assert(s.take(i + 1).drop_last() =~= s.take(i));
        lemma_digits_value_sign(s.take(i + 1));
    }
}

proof fn lemma_digits_value_sign(s: Seq<char>)
    ensures
        digits_value(s) is Some ==> digits_value(s)->0 >= 0,
    decreases s.len(),
{
    if s.len() > 0 {
        lemma_digits_value_sign(s.drop_last());
    }
}

/// The value of the digits where it is below `10^30`.
fn read_digits(v: &[char], from: usize) -> (r: Option<u128>)
    requires
        from <= v@.len(),
    ensures
        match r {
            Some(x) => digits_value(v@.subrange(from as int, v@.len() as int)) == Some(x as int),
            None => match digits_value(v@.subrange(from as int, v@.len() as int)) {
                Some(x) => x > 1_000_000_000_000_000_000_000_000_000_000,
                None => true,
            },
        },
{
    let ghost s = v@.subrange(from as int, v@.len() as int);
    let mut i: usize = from;
    let mut acc: u128 = 0;
    assert(s.take(0) =~= Seq::<char>::empty());
    while i < v.len()
        invariant
            from <= i <= v@.len(),
            s == v@.subrange(from as int, v@.len() as int),
            digits_value(s.take(i - from)) == Some(acc as int),
            acc <= 1_000_000_000_000_000_000_000_000_000_000,
        decreases v@.len() - i,
    {
        let c = v[i];
        assert(s.take(i + 1 - from).drop_last() =~= s.take(i - from));
        assert(s.take(i + 1 - from).last() == c);
        proof {
            lemma_digits_value_prefix(s, i + 1 - from);
        }
        if !is_ascii_digit(c) {
            return None;
        }
        let d: u32 = c as u32 - 48;
        acc = acc * 10 + d as u128;
        if acc > 1_000_000_000_000_000_000_000_000_000_000 {
            return None;
        }
        i = i + 1;
    }
    assert(s.take(i - from) =~= s);
    Some(acc)
}

/// Parses a decimal `i64`, with an optional sign.
pub fn parse_i64(s: &str) -> (r: Option<i64>)
    ensures
        match r {
            Some(x) => integer_value(s@) == Some(x as int),
            None => match integer_value(s@) {
                Some(x) => x < i64::MIN || x > i64::MAX,
                None => true,
            },
        },
{
    let v = chars_of(s);
    if v.len() == 0 {
        return None;
    }
    let signed = v[0] == '-' || v[0] == '+';
    let negative = v[0] == '-';
    let from: usize = if signed { 1 } else { 0 };
    if from == v.len() {
        return None;
    }
    assert(v@.subrange(0, v@.len() as int) =~= v@);
    match read_digits(v.as_slice(), from) {
        Some(x) => {
            if negative {
                if x <= 9_223_372_036_854_775_808 {
                    let y: i128 = -(x as i128);
                    Some(y as i64)
                } else {
                    None
                }
            } else if x <= 9_223_372_036_854_775_807 {
                Some(x as i64)
            } else {
                None
            }
        },
        None => None,
    }
}

} // verus!
