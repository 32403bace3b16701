//! Paths as the server compares and keeps them.
use vstd::prelude::*;

use crate::text;

verus! {

/// A path with slashes in place of backslashes.
pub open spec fn unix_path(path: Seq<char>) -> Seq<char> {
    text::replaced_char(path, '\\', "/"@)
}

pub fn normalize_to_unix(path: &str) -> (r: String)
    ensures
        r@ == unix_path(path@),
{
    text::replace_char(path, '\\', "/")
}

/// What two paths to one place share: slashes only, none at the end, and no upper case.
pub open spec fn path_key(path: Seq<char>) -> Seq<char> {
    text::lower(text::trimmed_end_of(unix_path(path), '/'))
}

pub fn normalize_path_key(path: &str) -> (r: String)
    ensures
        r@ == path_key(path@),
{
    let unix = normalize_to_unix(path);
    text::to_lower(text::trim_end_char(&unix, '/'))
}

/// The file may be searched for text.
pub open spec fn searchable(path: Seq<char>) -> bool {
    let s = text::lower(path);
    text::ends(s, ".h"@) || text::ends(s, ".hh"@) || text::ends(s, ".hpp"@) || text::ends(
        s,
        ".hxx"@,
    ) || text::ends(s, ".c"@) || text::ends(s, ".cc"@) || text::ends(s, ".cpp"@) || text::ends(
        s,
        ".cxx"@,
    ) || text::ends(s, ".inl"@) || text::ends(s, ".ipp"@) || text::ends(s, ".cs"@) || text::ends(
        s,
        ".ini"@,
    ) || text::ends(s, ".json"@) || text::ends(s, ".uproject"@) || text::ends(s, ".uplugin"@)
}

pub fn is_live_text_searchable_path(path: &str) -> (r: bool)
    ensures
        r == searchable(path@),
{
    let s = text::to_lower(path);
    text::ends_with(&s, ".h") || text::ends_with(&s, ".hh") || text::ends_with(&s, ".hpp")
        || text::ends_with(&s, ".hxx") || text::ends_with(&s, ".c") || text::ends_with(&s, ".cc")
        || text::ends_with(&s, ".cpp") || text::ends_with(&s, ".cxx") || text::ends_with(&s, ".inl")
        || text::ends_with(&s, ".ipp") || text::ends_with(&s, ".cs") || text::ends_with(&s, ".ini")
        || text::ends_with(&s, ".json") || text::ends_with(&s, ".uproject") || text::ends_with(
        &s,
        ".uplugin",
    )
}

/// The directory of the plugin that a file belongs to.
pub open spec fn plugin_root(path: Seq<char>) -> Option<Seq<char>> {
    let unix = unix_path(path);
    match text::find(text::lower(unix), "/plugins/"@) {
        None => None,
        Some(at) => {
            let inside = at + "/plugins/"@.len();
            let end = text::char_from(unix, '/', inside);
            if end < unix.len() {
                Some(unix.take(end))
            } else {
                None
            }
        },
    }
}

pub fn live_find_plugin_root(path: &str) -> (r: Option<String>)
    ensures
        text::opt_text(r) == plugin_root(path@),
{
    proof {
        reveal_strlit("/plugins/");
    }
    let unix = normalize_to_unix(path);
    let lowered = text::to_lower(&unix);
    match text::find_text(&lowered, "/plugins/") {
        None => None,
        Some(at) => {
            let v = text::chars_of(&unix);
            let n: usize = v.len();
            assert(lowered@.len() == n);
            let inside: usize = at + 9;
            let end = text::char_pos(v.as_slice(), '/', inside);
            if end < n {
                Some(text::string_of(vstd::slice::slice_subrange(v.as_slice(), 0, end)))
            } else {
                None
            }
        },
    }
}

proof fn lemma_unix(path: Seq<char>)
    ensures
        unix_path(path).len() == path.len(),
        forall|i: int|
            0 <= i < path.len() ==> #[trigger] unix_path(path)[i] == if path[i] == '\\' {
                '/'
            } else {
                path[i]
            },
    decreases path.len(),
{
    reveal_strlit("/");
    if path.len() > 0 {
        lemma_unix(path.drop_last());
    }
}

proof fn lemma_no_end_slash(s: Seq<char>)
    ensures
        text::trimmed_end_of(s, '/').len() <= s.len(),
        text::trimmed_end_of(s, '/') == s.take(text::trimmed_end_of(s, '/').len() as int),
        text::trimmed_end_of(s, '/').len() > 0 ==> text::trimmed_end_of(s, '/').last() != '/',
    decreases s.len(),
{
    if s.len() > 0 && s[s.len() - 1] == '/' {
        let shorter = s.subrange(0, s.len() - 1);
        lemma_no_end_slash(shorter);
        let r = text::trimmed_end_of(s, '/');
        assert(r == text::trimmed_end_of(shorter, '/'));
        assert(s.take(r.len() as int) =~= shorter.take(r.len() as int));
    } else {
        assert(s.take(s.len() as int) =~= s);
    }
}

/// The key of a path is the key of itself, so that a key may be taken for a path. It holds no
/// backslash and no capital letter, and no slash at its end.
pub proof fn path_keys_are_their_own_keys(path: Seq<char>)
    ensures
        path_key(path_key(path)) == path_key(path),
        !text::has_char(path_key(path), '\\'),
        forall|i: int| 0 <= i < path_key(path).len() ==> !text::ascii_upper(#[trigger] path_key(path)[i]),
        path_key(path).len() > 0 ==> path_key(path).last() != '/',
{
    let unix = unix_path(path);
    let cut = text::trimmed_end_of(unix, '/');
    let key = path_key(path);
    lemma_unix(path);
    lemma_no_end_slash(unix);
    assert forall|i: int| 0 <= i < key.len() implies #[trigger] key[i] != '\\' && !text::ascii_upper(
        key[i],
    ) by {
        assert(cut[i] == unix[i]);
        assert(key[i] == text::lower_char(cut[i]));
    }
    lemma_unix(key);
    assert(unix_path(key) =~= key);
    if key.len() > 0 {
        let k = key.len() - 1;
        assert(key[k] == text::lower_char(cut[k]));
        assert(cut[k] != '/');
    }
    assert(text::trimmed_end_of(key, '/') == key);
    assert(text::lower(key) =~= key) by {
        assert forall|i: int| 0 <= i < key.len() implies text::lower_char(#[trigger] key[i])
            == key[i] by {}
    }
}

/// Slashes of either kind, at the end or not, and letters of either case make no difference.
pub proof fn spellings_of_a_path_share_a_key(a: Seq<char>, b: Seq<char>)
    requires
        text::lower(unix_path(a)) == text::lower(unix_path(b)),
    ensures
        path_key(a) == path_key(b),
        path_key(a + "/"@) == path_key(a),
{
    lemma_lower_cut(unix_path(a));
    lemma_lower_cut(unix_path(b));
    reveal_strlit("/");
    let s = a + "/"@;
    lemma_unix(s);
    lemma_unix(a);
    assert(s.drop_last() =~= a);
    assert(unix_path(s).subrange(0, unix_path(s).len() - 1) =~= unix_path(a)) by {
        assert forall|i: int| 0 <= i < a.len() implies unix_path(s)[i] == unix_path(a)[i] by {
            assert(s[i] == a[i]);
        }
    }
    assert(unix_path(s)[unix_path(s).len() - 1] == '/');
}

proof fn lemma_lower_cut(s: Seq<char>)
    ensures
        text::lower(text::trimmed_end_of(s, '/')) == text::trimmed_end_of(text::lower(s), '/'),
    decreases s.len(),
{
    if s.len() > 0 {
        let k = s.len() - 1;
        assert(text::lower(s)[k] == text::lower_char(s[k]));
        if s[k] == '/' {
            let shorter = s.subrange(0, k);
            lemma_lower_cut(shorter);
            assert(text::lower(s).subrange(0, k) =~= text::lower(shorter));
        }
    }
}

} // verus!
