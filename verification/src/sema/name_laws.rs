//! How the names of types are taken apart.
use vstd::prelude::*;

use super::names::{
    args_from, clean, closing, segment, segments, segments_from, template_args, template_suffix,
};
use crate::text;
use crate::text_laws::{
    blank, trimming_leaves_what_stands_between, trimming_takes_the_blanks_around,
};

verus! {

// ---------------------------------------------------------------------------
// Words before a name
// ---------------------------------------------------------------------------
/// One of the words that may precede the name of a type.
pub open spec fn leading_word(w: Seq<char>) -> bool {
    w == "const "@ || w == "class "@ || w == "struct "@ || w == "enum "@
}

proof fn lemma_clean_trimmed(s: Seq<char>)
    ensures
        clean(text::trimmed(s)) == clean(s),
{
    text::lemma_trimmed_again(s);
}

/// What is left of the name of a type begins with none of these words and has no white space around
/// it; nothing more is taken away from it.
pub proof fn names_are_left_bare(raw: Seq<char>)
    ensures
        !text::starts(clean(raw), "const "@),
        !text::starts(clean(raw), "class "@),
        !text::starts(clean(raw), "struct "@),
        !text::starts(clean(raw), "enum "@),
        text::trimmed(clean(raw)) == clean(raw),
        clean(clean(raw)) == clean(raw),
    decreases raw.len(),
{
    let s = text::trimmed(raw);
    text::lemma_trimmed_again(raw);
    text::lemma_trimmed_len(raw);
    reveal_strlit("const ");
    reveal_strlit("class ");
    reveal_strlit("struct ");
    reveal_strlit("enum ");
    if text::starts(s, "const "@) {
        names_are_left_bare(s.subrange("const "@.len() as int, s.len() as int));
    } else if text::starts(s, "class "@) {
        names_are_left_bare(s.subrange("class "@.len() as int, s.len() as int));
    } else if text::starts(s, "struct "@) {
        names_are_left_bare(s.subrange("struct "@.len() as int, s.len() as int));
    } else if text::starts(s, "enum "@) {
        names_are_left_bare(s.subrange("enum "@.len() as int, s.len() as int));
    }
}

/// A word before the name of a type makes no difference, nor does white space around it.
pub proof fn leading_words_make_no_difference(w: Seq<char>, name: Seq<char>)
    requires
        leading_word(w),
        text::trimmed(name).len() > 0,
    ensures
        clean(w + name) == clean(name),
        clean(text::trimmed(name)) == clean(name),
{
    lemma_clean_trimmed(name);
    trimming_takes_the_blanks_around(name);
    let t = text::trimmed(name);
    let (a, b) = choose|a: Seq<char>, b: Seq<char>|
        blank(a) && blank(b) && #[trigger] (a + t + b) == name;
    reveal_strlit("const ");
    reveal_strlit("class ");
    reveal_strlit("struct ");
    reveal_strlit("enum ");
    let none = Seq::<char>::empty();
    let inner = w + a + t;
    assert(w.len() > 0 && !text::white_space(w[0]));
    assert(inner[0] == w[0] && inner.last() == t.last());
    trimming_leaves_what_stands_between(none, inner, b);
    assert(none + inner + b =~= w + name);
    let s = text::trimmed(w + name);
    assert(s == inner);
    assert(s.subrange(0, w.len() as int) =~= w);
    let rest = s.subrange(w.len() as int, s.len() as int);
    assert(rest =~= a + t + none);
    trimming_leaves_what_stands_between(a, t, none);
    assert(text::trimmed(rest) == t);
    lemma_clean_trimmed(rest);
    assert(clean(rest) == clean(name));
    assert(text::starts(s, w));
    assert(s[0] == w[0] && s[1] == w[1]);
    if w == "class "@ {
        if text::starts(s, "const "@) {
            assert(s.subrange(0, 6)[1] == s[1]);
        }
    }
    if w == "struct "@ {
        if text::starts(s, "const "@) {
            assert(s.subrange(0, 6)[0] == s[0]);
        }
        if text::starts(s, "class "@) {
            assert(s.subrange(0, 6)[0] == s[0]);
        }
    }
    if w == "enum "@ {
        if text::starts(s, "const "@) {
            assert(s.subrange(0, 6)[0] == s[0]);
        }
        if text::starts(s, "class "@) {
            assert(s.subrange(0, 6)[0] == s[0]);
        }
        if text::starts(s, "struct "@) {
            assert(s.subrange(0, 7)[0] == s[0]);
        }
    }
}

// ---------------------------------------------------------------------------
// Qualified names
// ---------------------------------------------------------------------------
proof fn lemma_no_colon(s: Seq<char>, from: int)
    requires
        0 <= from <= s.len(),
        forall|j: int| from <= j < s.len() ==> #[trigger] s[j] != ':',
    ensures
        segments_from(s, from) == segment(s.subrange(from, s.len() as int)),
{
    reveal_strlit("::");
    text::lemma_find_from(s, "::"@, from);
    if let Some(i) = text::find_from(s, "::"@, from) {
        assert(s.subrange(i, i + 2)[0] == s[i]);
    }
}

/// A name without colons is one part, and two such names with `::` between them are two, without the
/// white space around each.
pub proof fn colons_part_names(a: Seq<char>, b: Seq<char>)
    requires
        !a.contains(':') && !b.contains(':'),
        text::trimmed(a).len() > 0 && text::trimmed(b).len() > 0,
    ensures
        segments(a) == seq![text::trimmed(a)],
        segments(a + "::"@ + b) == seq![text::trimmed(a), text::trimmed(b)],
{
    reveal_strlit("::");
    let s = a + "::"@ + b;
    let k = a.len() as int;
    lemma_no_colon(a, 0);
    assert(a.subrange(0, k) =~= a);
    text::lemma_find_from(s, "::"@, 0);
    assert(s.subrange(k, k + 2) =~= "::"@);
    assert(text::occurs_at(s, "::"@, k));
    let i = text::find_from(s, "::"@, 0)->0;
    if i < k {
        assert(s.subrange(i, i + 2)[0] == s[i]);
        assert(s[i] == a[i]);
    }
    assert(i == k);
    assert forall|j: int| k + 2 <= j < s.len() implies #[trigger] s[j] != ':' by {
        assert(s[j] == b[j - k - 2]);
    }
    lemma_no_colon(s, k + 2);
    assert(s.subrange(0, k) =~= a);
    assert(s.subrange(k + 2, s.len() as int) =~= b);
    assert(segments(s) =~= seq![text::trimmed(a), text::trimmed(b)]);
}

// ---------------------------------------------------------------------------
// Template arguments
// ---------------------------------------------------------------------------
/// The text holds no angle brackets.
pub open spec fn flat(s: Seq<char>) -> bool {
    !s.contains('<') && !s.contains('>')
}

/// Reading on through characters that are neither brackets nor commas at this depth.
proof fn lemma_args_skip(s: Seq<char>, start: int, i: int, j: int, depth: nat)
    requires
        0 <= i <= j <= s.len(),
        forall|k: int|
            i <= k < j ==> #[trigger] s[k] != '<' && s[k] != '>' && (s[k] != ',' || depth > 0),
    ensures
        args_from(s, start, i, depth) == args_from(s, start, j, depth),
    decreases j - i,
{
    if i < j {
        assert(s[i] != '<' && s[i] != '>' && (s[i] != ',' || depth > 0));
        lemma_args_skip(s, start, i + 1, j, depth);
    }
}

/// A text without brackets and commas is one argument. What follows the first comma behind it is read
/// as the arguments behind the first.
pub proof fn commas_part_arguments(a: Seq<char>, b: Seq<char>)
    requires
        flat(a) && flat(b),
        !a.contains(',') && !b.contains(','),
        text::trimmed(b).len() > 0,
    ensures
        template_args(b) == seq![text::trimmed(b)],
        template_args(a + ","@ + b) == seq![text::trimmed(a), text::trimmed(b)],
{
    reveal_strlit(",");
    let s = a + ","@ + b;
    let k = a.len() as int;
    let n = s.len() as int;
    assert forall|j: int| 0 <= j < b.len() implies #[trigger] b[j] != '<' && b[j] != '>' && b[j]
        != ',' by {
        assert(b.contains(b[j]));
    }
    assert forall|j: int| 0 <= j < k implies #[trigger] s[j] != '<' && s[j] != '>' && s[j] != ',' by {
        assert(a.contains(a[j]));
        assert(s[j] == a[j]);
    }
    assert forall|j: int| k + 1 <= j < n implies #[trigger] s[j] != '<' && s[j] != '>' && s[j]
        != ',' by {
        assert(s[j] == b[j - k - 1]);
    }
    lemma_args_skip(b, 0, 0, b.len() as int, 0);
    assert(b.subrange(0, b.len() as int) =~= b);
    lemma_args_skip(s, 0, 0, k, 0);
    assert(s[k] == ',');
    lemma_args_skip(s, k + 1, k + 1, n, 0);
    assert(s.subrange(0, k) =~= a);
    assert(s.subrange(k + 1, n) =~= b);
    assert(template_args(s) =~= seq![text::trimmed(a), text::trimmed(b)]);
}

/// Commas between angle brackets part no arguments: an instance of a template is one argument.
pub proof fn instances_are_one_argument(base: Seq<char>, inner: Seq<char>)
    requires
        flat(base) && flat(inner),
        !base.contains(','),
        text::trimmed(base + "<"@ + inner + ">"@).len() > 0,
    ensures
        template_args(base + "<"@ + inner + ">"@) == seq![
            text::trimmed(base + "<"@ + inner + ">"@),
        ],
{
    reveal_strlit("<");
    reveal_strlit(">");
    let s = base + "<"@ + inner + ">"@;
    let k = base.len() as int;
    let n = s.len() as int;
    assert forall|j: int| 0 <= j < k implies #[trigger] s[j] != '<' && s[j] != '>' && s[j] != ',' by {
        assert(base.contains(base[j]));
        assert(s[j] == base[j]);
    }
    assert forall|j: int| k + 1 <= j < n - 1 implies #[trigger] s[j] != '<' && s[j] != '>' by {
        assert(inner.contains(inner[j - k - 1]));
        assert(s[j] == inner[j - k - 1]);
    }
    lemma_args_skip(s, 0, 0, k, 0);
    assert(s[k] == '<');
    lemma_args_skip(s, 0, k + 1, n - 1, 1);
    assert(s[n - 1] == '>');
    assert(args_from(s, 0, n - 1, 1) == args_from(s, 0, n, 0));
    assert(args_from(s, 0, k, 0) == args_from(s, 0, k + 1, 1));
    assert(s.subrange(0, n) =~= s);
    assert(args_from(s, 0, n, 0) == segment(s));
}

proof fn lemma_closing_skip(s: Seq<char>, i: int, j: int, depth: nat)
    requires
        0 <= i <= j <= s.len(),
        forall|k: int| i <= k < j ==> #[trigger] s[k] != '<' && s[k] != '>',
    ensures
        closing(s, i, depth) == closing(s, j, depth),
    decreases j - i,
{
    if i < j {
        assert(s[i] != '<' && s[i] != '>');
        lemma_closing_skip(s, i + 1, j, depth);
    }
}

/// The arguments of an instance stand in its first brackets, whatever follows; a name without
/// brackets has none.
pub proof fn arguments_stand_in_the_first_brackets(base: Seq<char>, inner: Seq<char>, rest: Seq<char>)
    requires
        flat(base) && flat(inner),
    ensures
        template_suffix(base + "<"@ + inner + ">"@ + rest) == Some("<"@ + inner + ">"@),
        template_suffix(base) is None,
{
    reveal_strlit("<");
    reveal_strlit(">");
    let s = base + "<"@ + inner + ">"@ + rest;
    let k = base.len() as int;
    let e = k + 1 + inner.len();
    text::lemma_char_from(s, '<', 0);
    assert(s[k] == '<');
    let at = text::char_from(s, '<', 0);
    if at < k {
        assert(s[at] == base[at]);
    }
    assert(at == k);
    assert forall|j: int| k + 1 <= j < e implies #[trigger] s[j] != '<' && s[j] != '>' by {
        assert(inner.contains(inner[j - k - 1]));
        assert(s[j] == inner[j - k - 1]);
    }
    lemma_closing_skip(s, k + 1, e, 1);
    assert(s[e] == '>');
    assert(closing(s, k, 0) == Some(e));
    assert(s.subrange(k, e + 1) =~= "<"@ + inner + ">"@);
    text::lemma_char_from(base, '<', 0);
    assert(text::char_from(base, '<', 0) == base.len());
}

} // verus!
