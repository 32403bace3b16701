//! How the text of C++ names and types is taken apart.
use vstd::prelude::*;

use crate::text;

verus! {

/// A type as written, without white space around it and without the words that may precede its
/// name.
pub open spec fn clean(raw: Seq<char>) -> Seq<char>
    decreases raw.len(),
{
    let s = text::trimmed(raw);
    if text::starts(s, "const "@) && 0 < "const "@.len() {
        proof {
            text::lemma_trimmed_len(raw);
        }
        clean(s.subrange("const "@.len() as int, s.len() as int))
    } else if text::starts(s, "class "@) && 0 < "class "@.len() {
        proof {
            text::lemma_trimmed_len(raw);
        }
        clean(s.subrange("class "@.len() as int, s.len() as int))
    } else if text::starts(s, "struct "@) && 0 < "struct "@.len() {
        proof {
            text::lemma_trimmed_len(raw);
        }
        clean(s.subrange("struct "@.len() as int, s.len() as int))
    } else if text::starts(s, "enum "@) && 0 < "enum "@.len() {
        proof {
            text::lemma_trimmed_len(raw);
        }
        clean(s.subrange("enum "@.len() as int, s.len() as int))
    } else {
        s
    }
}

/// Cleaning never lengthens.
pub proof fn lemma_clean_len(raw: Seq<char>)
    ensures
        clean(raw).len() <= raw.len(),
    decreases raw.len(),
{
    let s = text::trimmed(raw);
    text::lemma_trimmed_len(raw);
    if text::starts(s, "const "@) && 0 < "const "@.len() {
        lemma_clean_len(s.subrange("const "@.len() as int, s.len() as int));
    } else if text::starts(s, "class "@) && 0 < "class "@.len() {
        lemma_clean_len(s.subrange("class "@.len() as int, s.len() as int));
    } else if text::starts(s, "struct "@) && 0 < "struct "@.len() {
        lemma_clean_len(s.subrange("struct "@.len() as int, s.len() as int));
    } else if text::starts(s, "enum "@) && 0 < "enum "@.len() {
        lemma_clean_len(s.subrange("enum "@.len() as int, s.len() as int));
    }
}

pub fn clean_type_string(raw: &str) -> (r: String)
    ensures
        r@ == clean(raw@),
    decreases raw@.len(),
{
    proof {
        reveal_strlit("const ");
        reveal_strlit("class ");
        reveal_strlit("struct ");
        reveal_strlit("enum ");
        text::lemma_trimmed_len(raw@);
    }
    let s = text::trim(raw);
    match text::strip_prefix(s, "const ") {
        Some(rest) => {
            return clean_type_string(rest);
        },
        None => {},
    }
    match text::strip_prefix(s, "class ") {
        Some(rest) => {
            return clean_type_string(rest);
        },
        None => {},
    }
    match text::strip_prefix(s, "struct ") {
        Some(rest) => {
            return clean_type_string(rest);
        },
        None => {},
    }
    match text::strip_prefix(s, "enum ") {
        Some(rest) => {
            return clean_type_string(rest);
        },
        None => {},
    }
    text::copy_of(s)
}

/// A piece of a path; nothing if it is blank.
pub open spec fn segment(piece: Seq<char>) -> Seq<Seq<char>> {
    if text::trimmed(piece).len() == 0 {
        Seq::empty()
    } else {
        seq![text::trimmed(piece)]
    }
}

pub open spec fn segments_from(s: Seq<char>, from: int) -> Seq<Seq<char>>
    decreases s.len() - from,
    when 0 <= from <= s.len() && "::"@.len() == 2
{
    match text::find_from(s, "::"@, from) {
        Some(i) => {
            proof {
                text::lemma_find_from(s, "::"@, from);
            }
            segment(s.subrange(from, i)) + segments_from(s, i + 2)
        },
        None => segment(s.subrange(from, s.len() as int)),
    }
}

/// The parts of a name that `::` joins, without white space and blank parts.
pub open spec fn segments(s: Seq<char>) -> Seq<Seq<char>> {
    segments_from(s, 0)
}

pub fn path_segments(s: &str) -> (r: Vec<String>)
    ensures
        text::texts(r@) == segments(s@),
{
    proof {
        reveal_strlit("::");
    }
    let v = text::chars_of(s);
    let p = text::chars_of("::");
    let n: usize = v.len();
    let mut r: Vec<String> = Vec::new();
    let mut from: usize = 0;
    loop
        invariant
            v@ == s@,
            p@ == "::"@,
            p@.len() == 2,
            n == v@.len(),
            from <= n,
            segments(s@) == text::texts(r@) + segments_from(s@, from as int),
        decreases n - from,
    {
        let ghost before = text::texts(r@);
        match text::find_chars(v.as_slice(), p.as_slice(), from) {
            Some(i) => {
                proof {
                    text::lemma_find_from(s@, "::"@, from as int);
                }
                let piece = text::trim(s.substring_char(from, i));
                if !piece.is_empty() {
                    r.push(text::copy_of(piece));
                    assert(text::texts(r@) =~= before.push(piece@));
                }
                assert(text::texts(r@) =~= before + segment(s@.subrange(from as int, i as int)));
                assert(segments(s@) =~= text::texts(r@) + segments_from(s@, i + 2));
                from = i + 2;
            },
            None => {
                let piece = text::trim(s.substring_char(from, n));
                if !piece.is_empty() {
                    r.push(text::copy_of(piece));
                    assert(text::texts(r@) =~= before.push(piece@));
                }
                assert(text::texts(r@) =~= before + segment(s@.subrange(from as int, n as int)));
                return r;
            },
        }
    }
}

/// The template arguments from the one that began at `start` on, read up to `i` at this depth.
pub open spec fn args_from(s: Seq<char>, start: int, i: int, depth: nat) -> Seq<Seq<char>>
    decreases s.len() - i,
{
    if i < 0 || i >= s.len() {
        segment(s.subrange(start, s.len() as int))
    } else if s[i] == '<' {
        args_from(s, start, i + 1, depth + 1)
    } else if s[i] == '>' {
        args_from(s, start, i + 1, if depth == 0 { 0 } else { (depth - 1) as nat })
    } else if s[i] == ',' && depth == 0 {
        seq![text::trimmed(s.subrange(start, i))] + args_from(s, i + 1, i + 1, 0)
    } else {
        args_from(s, start, i + 1, depth)
    }
}

/// The arguments between commas that stand in no angle brackets.
pub open spec fn template_args(s: Seq<char>) -> Seq<Seq<char>> {
    args_from(s, 0, 0, 0)
}

pub open spec fn none_longer(list: Seq<Seq<char>>, n: nat) -> bool {
    forall|k: int| 0 <= k < list.len() ==> (#[trigger] list[k]).len() <= n
}

/// No argument is longer than the list.
pub proof fn lemma_args_len(s: Seq<char>, start: int, i: int, depth: nat)
    requires
        0 <= start <= i <= s.len(),
    ensures
        none_longer(args_from(s, start, i, depth), s.len()),
    decreases s.len() - i,
{
    if i >= s.len() {
        text::lemma_trimmed_len(s.subrange(start, s.len() as int));
    } else if s[i] == '<' {
        lemma_args_len(s, start, i + 1, depth + 1);
    } else if s[i] == '>' {
        lemma_args_len(s, start, i + 1, if depth == 0 { 0 } else { (depth - 1) as nat });
    } else if s[i] == ',' && depth == 0 {
        text::lemma_trimmed_len(s.subrange(start, i));
        lemma_args_len(s, i + 1, i + 1, 0);
        let rest = args_from(s, i + 1, i + 1, 0);
        let all = args_from(s, start, i, depth);
        assert(all == seq![text::trimmed(s.subrange(start, i))] + rest);
        assert forall|k: int| 0 <= k < all.len() implies (#[trigger] all[k]).len() <= s.len() by {
            if k > 0 {
                assert(all[k] == rest[k - 1]);
            }
        }
    } else {
        lemma_args_len(s, start, i + 1, depth);
    }
}

pub fn split_template_args(inner: &str) -> (r: Vec<String>)
    ensures
        text::texts(r@) == template_args(inner@),
        forall|k: int| 0 <= k < r@.len() ==> (#[trigger] r@[k])@.len() <= inner@.len(),
{
    let v = text::chars_of(inner);
    let n: usize = v.len();
    let mut r: Vec<String> = Vec::new();
    let mut start: usize = 0;
    let mut depth: usize = 0;
    let mut i: usize = 0;
    while i < n
        invariant
            v@ == inner@,
            n == v@.len(),
            start <= i <= n,
            depth <= i,
            template_args(inner@) == text::texts(r@) + args_from(
                inner@,
                start as int,
                i as int,
                depth as nat,
            ),
        decreases n - i,
    {
        let c = v[i];
        if c == '<' {
            depth = depth + 1;
        } else if c == '>' {
            if depth > 0 {
                depth = depth - 1;
            }
        } else if c == ',' && depth == 0 {
            let ghost before = text::texts(r@);
            let piece = text::trim(inner.substring_char(start, i));
            r.push(text::copy_of(piece));
            assert(text::texts(r@) =~= before.push(piece@));
            assert(template_args(inner@) =~= text::texts(r@) + args_from(
                inner@,
                i + 1,
                i + 1,
                0,
            ));
            start = i + 1;
        }
        i = i + 1;
    }
    let ghost before = text::texts(r@);
    let piece = text::trim(inner.substring_char(start, n));
    if !piece.is_empty() {
        r.push(text::copy_of(piece));
        assert(text::texts(r@) =~= before.push(piece@));
    }
    assert(text::texts(r@) =~= template_args(inner@));
    proof {
        lemma_args_len(inner@, 0, 0, 0);
        assert forall|k: int| 0 <= k < r@.len() implies (#[trigger] r@[k])@.len() <= inner@.len() by {
            assert(text::texts(r@)[k] == r@[k]@);
        }
    }
    r
}

/// Where the bracket that is open at this depth closes, read from `i` on.
pub open spec fn closing(s: Seq<char>, i: int, depth: nat) -> Option<int>
    decreases s.len() - i,
{
    if i < 0 || i >= s.len() {
        None
    } else if s[i] == '<' {
        closing(s, i + 1, depth + 1)
    } else if s[i] == '>' {
        if depth <= 1 {
            Some(i)
        } else {
            closing(s, i + 1, (depth - 1) as nat)
        }
    } else {
        closing(s, i + 1, depth)
    }
}

/// The first angle brackets with what stands between them.
pub open spec fn template_suffix(s: Seq<char>) -> Option<Seq<char>> {
    let start = text::char_from(s, '<', 0);
    match closing(s, start, 0) {
        Some(end) => Some(s.subrange(start, end + 1)),
        None => None,
    }
}

pub fn extract_template_suffix(s: &str) -> (r: Option<String>)
    ensures
        text::opt_text(r) == template_suffix(s@),
{
    proof {
        text::lemma_char_from(s@, '<', 0);
    }
    let v = text::chars_of(s);
    let n: usize = v.len();
    let start: usize = text::char_pos(v.as_slice(), '<', 0);
    let mut depth: usize = 0;
    let mut i: usize = start;
    while i < n
        invariant
            v@ == s@,
            n == v@.len(),
            start == text::char_from(s@, '<', 0),
            start <= i <= n,
            depth <= i,
            closing(s@, start as int, 0) == closing(s@, i as int, depth as nat),
        decreases n - i,
    {
        let c = v[i];
        if c == '<' {
            depth = depth + 1;
        } else if c == '>' {
            if depth <= 1 {
                return Some(text::copy_of(s.substring_char(start, i + 1)));
            }
            depth = depth - 1;
        }
        i = i + 1;
    }
    None
}

/// Whether a template argument can only be a type.
pub open spec fn type_like(s: Seq<char>) -> bool {
    text::has(s, "::"@) || text::has_char(s, '<') || s == "void"@ || s == "bool"@ || s == "char"@ || s
        == "ANSICHAR"@ || s == "TCHAR"@ || s == "int"@ || s == "int32"@ || s == "uint32"@ || s
        == "float"@ || s == "double"@
}

pub fn looks_like_type_arg(s: &str) -> (r: bool)
    ensures
        r == type_like(s@),
{
    text::contains_text(s, "::") || text::contains_char(s, '<') || text::same(s, "void")
        || text::same(s, "bool") || text::same(s, "char") || text::same(s, "ANSICHAR")
        || text::same(s, "TCHAR") || text::same(s, "int") || text::same(s, "int32") || text::same(
        s,
        "uint32",
    ) || text::same(s, "float") || text::same(s, "double")
}

} // verus!
