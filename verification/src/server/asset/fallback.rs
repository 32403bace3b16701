//! What can be read from an asset file that the parser does not understand: the texts in it.
use vstd::prelude::*;

use super::record::{
    asset_path_of, filter_indexed_asset_record, fully_indexed, opt_record, to_asset_path,
    AssetRecord, RecordView,
};
use crate::query::pattern::{normalize_path, slashed_path};
use crate::text;
use crate::textset::{sorted_set, sorted_strings};

verus! {

pub open spec fn printable(b: u8) -> bool {
    32 <= b <= 126
}

pub open spec fn as_chars(bytes: Seq<u8>) -> Seq<char> {
    bytes.map_values(|b: u8| b as char)
}

/// The run of printable bytes from `start` to `end`, where it is long enough.
pub open spec fn long_run(bytes: Seq<u8>, start: int, end: int, min_len: nat) -> Seq<Seq<char>> {
    if end - start >= min_len {
        seq![as_chars(bytes.subrange(start, end))]
    } else {
        Seq::empty()
    }
}

/// The runs of printable bytes from `start` on, of which those up to `i` were seen.
pub open spec fn runs_from(bytes: Seq<u8>, start: int, i: int, min_len: nat) -> Seq<Seq<char>>
    decreases bytes.len() - i,
{
    if i >= bytes.len() {
        long_run(bytes, start, i, min_len)
    } else if printable(bytes[i]) {
        runs_from(bytes, start, i + 1, min_len)
    } else {
        long_run(bytes, start, i, min_len) + runs_from(bytes, i + 1, i + 1, min_len)
    }
}

pub open spec fn ascii_strings(bytes: Seq<u8>, min_len: nat) -> Seq<Seq<char>> {
    runs_from(bytes, 0, 0, min_len)
}

fn run_text(bytes: &[u8], start: usize, end: usize) -> (r: String)
    requires
        start <= end <= bytes@.len(),
        forall|j: int| start <= j < end ==> printable(#[trigger] bytes@[j]),
    ensures
        r@ == as_chars(bytes@.subrange(start as int, end as int)),
{
    let mut v: Vec<char> = Vec::new();
    let mut i: usize = start;
    while i < end
        invariant
            start <= i <= end <= bytes@.len(),
            v@.len() == i - start,
            forall|j: int| 0 <= j < v@.len() ==> #[trigger] v@[j] == bytes@[start + j] as char,
        decreases end - i,
    {
        v.push(bytes[i] as char);
        i = i + 1;
    }
    assert(v@ =~= as_chars(bytes@.subrange(start as int, end as int)));
    text::string_of(v.as_slice())
}

/// The runs of printable ASCII characters in a file that are long enough.
pub fn extract_ascii_strings(bytes: &[u8], min_len: usize) -> (r: Vec<String>)
    ensures
        text::texts(r@) == ascii_strings(bytes@, min_len as nat),
{
    let n: usize = bytes.len();
    let mut values: Vec<String> = Vec::new();
    let mut start: usize = 0;
    let mut i: usize = 0;
    let ghost whole = ascii_strings(bytes@, min_len as nat);
    assert(text::texts(values@) =~= Seq::<Seq<char>>::empty());
    assert(whole =~= text::texts(values@) + whole);
    while i < n
        invariant
            n == bytes@.len(),
            start <= i <= n,
            forall|j: int| start <= j < i ==> printable(#[trigger] bytes@[j]),
            whole == text::texts(values@) + runs_from(
                bytes@,
                start as int,
                i as int,
                min_len as nat,
            ),
        decreases n - i,
    {
        let b: u8 = bytes[i];
        if !(32 <= b && b <= 126) {
            let ghost before = text::texts(values@);
            let ghost rest = runs_from(bytes@, i + 1, i + 1, min_len as nat);
            if i - start >= min_len {
                values.push(run_text(bytes, start, i));
                assert(text::texts(values@) =~= before + long_run(
                    bytes@,
                    start as int,
                    i as int,
                    min_len as nat,
                ));
            }
            assert(before + (long_run(bytes@, start as int, i as int, min_len as nat) + rest)
                =~= text::texts(values@) + rest);
            start = i + 1;
        }
        i = i + 1;
    }
    let ghost before = text::texts(values@);
    if n - start >= min_len {
        values.push(run_text(bytes, start, n));
        assert(text::texts(values@) =~= before + long_run(
            bytes@,
            start as int,
            n as int,
            min_len as nat,
        ));
    }
    assert(text::texts(values@) =~= whole);
    values
}

/// Paths of classes and their members in C++ modules.
pub const SCRIPT_PATH: &'static str = "/Script/[A-Za-z0-9_]+(?:\\.[A-Za-z0-9_]+)+";

/// Paths of assets and what is in them.
pub const GAME_PATH: &'static str = "/Game/[A-Za-z0-9_/]+(?:[.:][A-Za-z0-9_]+)?";

/// Identifiers of three characters or more.
pub const IDENTIFIER: &'static str = "[A-Za-z_][A-Za-z0-9_]{2,}";

/// The patterns that are searched for.
pub open spec fn known_pattern(s: Seq<char>) -> bool {
    s == SCRIPT_PATH@ || s == GAME_PATH@ || s == IDENTIFIER@
}

/// The successive matches of a regular expression in a text, none overlapping another.
pub uninterp spec fn regex_matches(pattern: Seq<char>, text: Seq<char>) -> Seq<Seq<char>>;

/// `Regex::new` compiles the pattern, and `Regex::find_iter` finds the successive matches in the
/// text, from left to right. The known patterns are valid, so that compiling them does not fail.
#[verifier::external_body]
fn find_matches(pattern: &str, t: &str) -> (r: Vec<String>)
    requires
        known_pattern(pattern@),
    ensures
        text::texts(r@) == regex_matches(pattern@, t@),
{
    regex::Regex::new(pattern).unwrap().find_iter(t).map(|m| m.as_str().to_string()).collect()
}

/// The matches in the first `upto` texts.
pub open spec fn matches_upto(pattern: Seq<char>, list: Seq<Seq<char>>, upto: int) -> Seq<Seq<char>>
    decreases upto,
{
    if upto <= 0 {
        Seq::empty()
    } else {
        matches_upto(pattern, list, upto - 1) + regex_matches(pattern, list[upto - 1])
    }
}

pub open spec fn matches_in(pattern: Seq<char>, list: Seq<Seq<char>>) -> Seq<Seq<char>> {
    matches_upto(pattern, list, list.len() as int)
}

fn find_all(pattern: &str, texts: &Vec<String>) -> (r: Vec<String>)
    requires
        known_pattern(pattern@),
    ensures
        text::texts(r@) == matches_in(pattern@, text::texts(texts@)),
{
    let ghost list = text::texts(texts@);
    let mut r: Vec<String> = Vec::new();
    let n: usize = texts.len();
    let mut i: usize = 0;
    assert(text::texts(r@) =~= Seq::<Seq<char>>::empty());
    while i < n
        invariant
            known_pattern(pattern@),
            n == texts@.len(),
            i <= n,
            list == text::texts(texts@),
            text::texts(r@) == matches_upto(pattern@, list, i as int),
        decreases n - i,
    {
        let part = find_matches(pattern, texts[i].as_str());
        assert(list[i as int] == texts@[i as int]@);
        let ghost before = text::texts(r@);
        let ghost more = text::texts(part@);
        let m: usize = part.len();
        let mut k: usize = 0;
        assert(before + more.take(0) =~= before);
        while k < m
            invariant
                m == part@.len(),
                more == text::texts(part@),
                k <= m,
                text::texts(r@) == before + more.take(k as int),
            decreases m - k,
        {
            let ghost so_far = text::texts(r@);
            r.push(text::copy_of(&part[k]));
            assert(text::texts(r@) =~= so_far.push(more[k as int]));
            assert(more.take(k + 1) =~= more.take(k as int).push(more[k as int]));
            assert(text::texts(r@) =~= before + more.take(k + 1));
            k = k + 1;
        }
        assert(more.take(m as int) =~= more);
        i = i + 1;
    }
    r
}

pub open spec fn parent_candidate(s: Seq<char>) -> bool {
    let name = text::last_part(s, '.');
    text::starts(s, "/Script/"@) && text::has_char(s, '.') && !(name == "Class"@ || name
        == "Package"@ || name == "MetaData"@ || name == "BlueprintGeneratedClass"@ || name
        == "Default__Object"@)
}

/// The path may be that of a parent class.
pub fn looks_like_parent_class_candidate(candidate: &str) -> (r: bool)
    ensures
        r == parent_candidate(candidate@),
{
    if !text::starts_with(candidate, "/Script/") || !text::contains_char(candidate, '.') {
        return false;
    }
    let name = text::last_part_of(candidate, '.');
    !(text::same(name, "Class") || text::same(name, "Package") || text::same(name, "MetaData")
        || text::same(name, "BlueprintGeneratedClass") || text::same(name, "Default__Object"))
}

pub open spec fn module_of(s: Seq<char>) -> Seq<char> {
    match text::stripped(s, "/Script/"@) {
        Some(rest) => text::first_part(rest, '.'),
        None => ""@,
    }
}

/// Classes of the project rate above those of the engine, and these above those of its core.
pub open spec fn parent_score(s: Seq<char>) -> i32 {
    let module = module_of(s);
    if module == "Engine"@ {
        20
    } else if module == "CoreUObject"@ || module == "UnrealEd"@ {
        10
    } else {
        100
    }
}

pub fn parent_class_score(candidate: &str) -> (r: i32)
    ensures
        r == parent_score(candidate@),
{
    let module = match text::strip_prefix(candidate, "/Script/") {
        Some(rest) => text::first_part_of(rest, '.'),
        None => "",
    };
    if text::same(module, "Engine") {
        20
    } else if text::same(module, "CoreUObject") || text::same(module, "UnrealEd") {
        10
    } else {
        100
    }
}

/// The first of the best rated among the first `upto` paths.
pub open spec fn best_parent(paths: Seq<Seq<char>>, upto: int) -> Option<Seq<char>>
    decreases upto,
{
    if upto <= 0 {
        None
    } else {
        let x = paths[upto - 1];
        let before = best_parent(paths, upto - 1);
        if !parent_candidate(x) {
            before
        } else {
            match before {
                None => Some(x),
                Some(y) => if parent_score(x) > parent_score(y) {
                    Some(x)
                } else {
                    before
                },
            }
        }
    }
}

/// The parent class among the paths that were found.
pub fn parent_class_among(paths: &Vec<String>) -> (r: Option<String>)
    ensures
        text::opt_text(r) == best_parent(text::texts(paths@), paths@.len() as int),
{
    let ghost list = text::texts(paths@);
    let mut best: Option<String> = None;
    let n: usize = paths.len();
    let mut i: usize = 0;
    while i < n
        invariant
            list == text::texts(paths@),
            n == paths@.len(),
            i <= n,
            text::opt_text(best) == best_parent(list, i as int),
        decreases n - i,
    {
        assert(list[i as int] == paths@[i as int]@);
        if looks_like_parent_class_candidate(&paths[i]) {
            let replace = match &best {
                None => true,
                Some(y) => parent_class_score(&paths[i]) > parent_class_score(y),
            };
            if replace {
                best = Some(text::copy_of(&paths[i]));
            }
        }
        i = i + 1;
    }
    best
}

/// The parent class that the texts of a file name.
pub fn detect_parent_class_from_strings(strings: &Vec<String>) -> (r: Option<String>)
    ensures
        text::opt_text(r) == ({
            let paths = matches_in(SCRIPT_PATH@, text::texts(strings@));
            best_parent(paths, paths.len() as int)
        }),
{
    let paths = find_all(SCRIPT_PATH, strings);
    assert(text::texts(paths@).len() == paths@.len());
    parent_class_among(&paths)
}

pub open spec fn imported(value: Seq<char>, asset_path: Seq<char>) -> bool {
    !text::same_caseless(value, asset_path) && !text::ends(value, ".Class"@)
}

/// The path names something else than the asset itself.
pub fn should_index_import_path(value: &str, asset_path: &str) -> (r: bool)
    ensures
        r == imported(value@, asset_path@),
{
    !text::eq_caseless(value, asset_path) && !text::ends_with(value, ".Class")
}

pub open spec fn some_upper(s: Seq<char>) -> bool {
    exists|i: int| 0 <= i < s.len() && text::ascii_upper(#[trigger] s[i])
}

pub open spec fn some_lower(s: Seq<char>) -> bool {
    exists|i: int| 0 <= i < s.len() && text::ascii_lower(#[trigger] s[i])
}

fn any_upper(s: &str) -> (r: bool)
    ensures
        r == some_upper(s@),
{
    let v = text::chars_of(s);
    let n: usize = v.len();
    let mut i: usize = 0;
    while i < n
        invariant
            v@ == s@,
            n == v@.len(),
            i <= n,
            forall|j: int| 0 <= j < i ==> !text::ascii_upper(#[trigger] s@[j]),
        decreases n - i,
    {
        if text::is_ascii_upper(v[i]) {
            assert(text::ascii_upper(s@[i as int]));
            return true;
        }
        i = i + 1;
    }
    false
}

fn any_lower(s: &str) -> (r: bool)
    ensures
        r == some_lower(s@),
{
    let v = text::chars_of(s);
    let n: usize = v.len();
    let mut i: usize = 0;
    while i < n
        invariant
            v@ == s@,
            n == v@.len(),
            i <= n,
            forall|j: int| 0 <= j < i ==> !text::ascii_lower(#[trigger] s@[j]),
        decreases n - i,
    {
        if text::is_ascii_lower(v[i]) {
            assert(text::ascii_lower(s@[i as int]));
            return true;
        }
        i = i + 1;
    }
    false
}

pub open spec fn generated_name(s: Seq<char>) -> bool {
    text::ends(s, "_C"@) || text::ends(s, "_GEN_VARIABLE"@) || text::starts(s, "Default__"@)
        || text::starts(s, "SKEL_"@) || text::starts(s, "REINST_"@)
}

fn is_generated_name(s: &str) -> (r: bool)
    ensures
        r == generated_name(s@),
{
    text::ends_with(s, "_C") || text::ends_with(s, "_GEN_VARIABLE") || text::starts_with(
        s,
        "Default__",
    ) || text::starts_with(s, "SKEL_") || text::starts_with(s, "REINST_")
}

pub open spec fn function_token(s: Seq<char>) -> bool {
    3 <= text::byte_len(s) <= 80 && !generated_name(s) && !text::starts(s, "ExecuteUbergraph_"@)
        && !text::starts(s, "K2Node_"@) && !text::has(s, "__"@) && some_upper(s) && some_lower(s)
}

/// The identifier may be that of a function of a blueprint.
pub fn looks_like_blueprint_function_token(token: &str) -> (r: bool)
    ensures
        r == function_token(token@),
{
    let n: usize = text::bytes_in(token);
    if n < 3 || n > 80 {
        return false;
    }
    if is_generated_name(token) || text::starts_with(token, "ExecuteUbergraph_")
        || text::starts_with(token, "K2Node_") {
        return false;
    }
    if text::contains_text(token, "__") {
        return false;
    }
    any_upper(token) && any_lower(token)
}

pub open spec fn type_initial(c: char) -> bool {
    c == 'A' || c == 'U' || c == 'F' || c == 'S' || c == 'E' || c == 'T' || c == 'I'
}

pub open spec fn type_token(s: Seq<char>) -> bool {
    3 <= text::byte_len(s) <= 100 && !generated_name(s) && s.len() >= 2 && type_initial(s[0])
        && text::ascii_upper(s[1]) && some_lower(s)
}

/// The identifier may be that of a type.
pub fn looks_like_unreal_type_token(token: &str) -> (r: bool)
    ensures
        r == type_token(token@),
{
    let n: usize = text::bytes_in(token);
    if n < 3 || n > 100 {
        return false;
    }
    if is_generated_name(token) {
        return false;
    }
    if token.unicode_len() < 2 {
        return false;
    }
    let first = token.get_char(0);
    let second = token.get_char(1);
    if !(first == 'A' || first == 'U' || first == 'F' || first == 'S' || first == 'E' || first
        == 'T' || first == 'I') || !text::is_ascii_upper(second) {
        return false;
    }
    any_lower(token)
}

/// Which of the texts are kept.
#[derive(Clone, Copy, PartialEq, Eq, Structural)]
pub enum Sieve {
    Imports,
    Types,
    Functions,
}

pub open spec fn passes(sieve: Sieve, s: Seq<char>, asset_path: Seq<char>) -> bool {
    match sieve {
        Sieve::Imports => imported(s, asset_path),
        Sieve::Types => type_token(s),
        Sieve::Functions => function_token(s),
    }
}

pub open spec fn sieved(sieve: Sieve, list: Seq<Seq<char>>, asset_path: Seq<char>, k: int) -> Seq<Seq<char>>
    decreases list.len() - k,
{
    if k < 0 || k >= list.len() {
        Seq::empty()
    } else if passes(sieve, list[k], asset_path) {
        seq![list[k]] + sieved(sieve, list, asset_path, k + 1)
    } else {
        sieved(sieve, list, asset_path, k + 1)
    }
}

fn sieve_into(out: &mut Vec<String>, sieve: Sieve, list: &Vec<String>, asset_path: &str)
    ensures
        text::texts(final(out)@) == text::texts(old(out)@) + sieved(
            sieve,
            text::texts(list@),
            asset_path@,
            0,
        ),
{
    let ghost all = text::texts(list@);
    let ghost start = text::texts(out@);
    let n: usize = list.len();
    let mut i: usize = 0;
    while i < n
        invariant
            all == text::texts(list@),
            n == list@.len(),
            i <= n,
            start + sieved(sieve, all, asset_path@, 0) =~= text::texts(out@) + sieved(
                sieve,
                all,
                asset_path@,
                i as int,
            ),
        decreases n - i,
    {
        assert(all[i as int] == list@[i as int]@);
        let keep = match sieve {
            Sieve::Imports => should_index_import_path(&list[i], asset_path),
            Sieve::Types => looks_like_unreal_type_token(&list[i]),
            Sieve::Functions => looks_like_blueprint_function_token(&list[i]),
        };
        if keep {
            let ghost before = text::texts(out@);
            out.push(text::copy_of(&list[i]));
            assert(text::texts(out@) =~= before.push(all[i as int]));
        }
        i = i + 1;
    }
    assert(text::texts(out@) =~= start + sieved(sieve, all, asset_path@, 0));
}

/// What the texts of a file say of its asset.
pub open spec fn fallback_view(
    scripts: Seq<Seq<char>>,
    games: Seq<Seq<char>>,
    words: Seq<Seq<char>>,
    path: Seq<char>,
    mtime: i64,
) -> RecordView {
    let asset_path = asset_path_of(path);
    RecordView {
        asset_path,
        source_path: slashed_path(path),
        mtime,
        asset_class: None,
        parent_class: best_parent(scripts, scripts.len() as int),
        imports: sorted_set(
            sieved(Sieve::Imports, scripts, asset_path, 0) + sieved(
                Sieve::Imports,
                games,
                asset_path,
                0,
            ) + sieved(Sieve::Types, words, asset_path, 0),
        ),
        functions: sorted_set(sieved(Sieve::Functions, words, asset_path, 0)),
    }
}

/// Nothing in the file can be indexed.
#[derive(Clone, Copy, PartialEq, Eq, Structural, Debug)]
pub struct NothingToIndex;

pub open spec fn says_nothing(v: RecordView) -> bool {
    v.imports.len() == 0 && v.functions.len() == 0 && v.parent_class is None
}

/// The record of an asset, from the paths and words that were found in its file.
pub fn fallback_record(
    scripts: &Vec<String>,
    games: &Vec<String>,
    words: &Vec<String>,
    path: &str,
    extension: Option<&str>,
    mtime: i64,
) -> (r: Result<Option<AssetRecord>, NothingToIndex>)
    ensures
        ({
            let v = fallback_view(
                text::texts(scripts@),
                text::texts(games@),
                text::texts(words@),
                path@,
                mtime,
            );
            match r {
                Err(_) => says_nothing(v),
                Ok(record) => !says_nothing(v) && opt_record(record) == if fully_indexed(
                    text::opt_str(extension),
                    v,
                ) {
                    Some(v)
                } else {
                    None
                },
            }
        }),
{
    assert(text::texts(scripts@).len() == scripts@.len());
    let parent_class = parent_class_among(scripts);
    let asset_path = to_asset_path(path);
    let mut imports: Vec<String> = Vec::new();
    assert(text::texts(imports@) =~= Seq::<Seq<char>>::empty());
    sieve_into(&mut imports, Sieve::Imports, scripts, &asset_path);
    sieve_into(&mut imports, Sieve::Imports, games, &asset_path);
    sieve_into(&mut imports, Sieve::Types, words, &asset_path);
    assert(text::texts(imports@) =~= sieved(
        Sieve::Imports,
        text::texts(scripts@),
        asset_path@,
        0,
    ) + sieved(Sieve::Imports, text::texts(games@), asset_path@, 0) + sieved(
        Sieve::Types,
        text::texts(words@),
        asset_path@,
        0,
    ));
    let mut functions: Vec<String> = Vec::new();
    assert(text::texts(functions@) =~= Seq::<Seq<char>>::empty());
    sieve_into(&mut functions, Sieve::Functions, words, &asset_path);
    assert(text::texts(functions@) =~= sieved(
        Sieve::Functions,
        text::texts(words@),
        asset_path@,
        0,
    ));
    let imports = sorted_strings(&imports);
    let functions = sorted_strings(&functions);
    assert(text::texts(imports@).len() == imports@.len());
    assert(text::texts(functions@).len() == functions@.len());
    if imports.len() == 0 && functions.len() == 0 && parent_class.is_none() {
        return Err(NothingToIndex);
    }
    let record = AssetRecord {
        asset_path,
        source_path: normalize_path(path),
        mtime,
        asset_class: None,
        parent_class,
        imports,
        functions,
    };
    Ok(filter_indexed_asset_record(extension, record))
}

/// The record of an asset, from the bytes of its file.
pub fn fallback_parse_asset_record(bytes: &[u8], path: &str, extension: Option<&str>, mtime: i64) -> (r: Result<
    Option<AssetRecord>,
    NothingToIndex,
>)
    ensures
        ({
            let strings = ascii_strings(bytes@, 4);
            let v = fallback_view(
                matches_in(SCRIPT_PATH@, strings),
                matches_in(GAME_PATH@, strings),
                matches_in(IDENTIFIER@, strings),
                path@,
                mtime,
            );
            match r {
                Err(_) => says_nothing(v),
                Ok(record) => !says_nothing(v) && opt_record(record) == if fully_indexed(
                    text::opt_str(extension),
                    v,
                ) {
                    Some(v)
                } else {
                    None
                },
            }
        }),
{
    let strings = extract_ascii_strings(bytes, 4);
    let scripts = find_all(SCRIPT_PATH, &strings);
    let games = find_all(GAME_PATH, &strings);
    let words = find_all(IDENTIFIER, &strings);
    fallback_record(&scripts, &games, &words, path, extension, mtime)
}

proof fn lemma_runs(bytes: Seq<u8>, start: int, i: int, min_len: nat)
    requires
        0 <= start <= i <= bytes.len(),
        forall|j: int| start <= j < i ==> printable(#[trigger] bytes[j]),
    ensures
        forall|k: int|
            0 <= k < runs_from(bytes, start, i, min_len).len() ==> is_run(
                bytes,
                #[trigger] runs_from(bytes, start, i, min_len)[k],
                min_len,
            ),
    decreases bytes.len() - i,
{
    let here = long_run(bytes, start, i, min_len);
    if here.len() > 0 && (i == bytes.len() || !printable(bytes[i])) {
        assert(here[0] == as_chars(bytes.subrange(start, i)));
        assert(run_at(bytes, here[0], start, i));
        assert(is_run(bytes, here[0], min_len));
    }
    if i == bytes.len() {
        assert(runs_from(bytes, start, i, min_len) == here);
        assert forall|k: int| 0 <= k < here.len() implies is_run(
            bytes,
            #[trigger] here[k],
            min_len,
        ) by {}
    } else {
        if printable(bytes[i]) {
            lemma_runs(bytes, start, i + 1, min_len);
            assert(runs_from(bytes, start, i, min_len) == runs_from(bytes, start, i + 1, min_len));
        } else {
            lemma_runs(bytes, i + 1, i + 1, min_len);
            let rest = runs_from(bytes, i + 1, i + 1, min_len);
            let all = here + rest;
            assert(runs_from(bytes, start, i, min_len) == all);
            assert forall|k: int| 0 <= k < all.len() implies is_run(
                bytes,
                #[trigger] all[k],
                min_len,
            ) by {
                if k >= here.len() {
                    assert(all[k] == rest[k - here.len()]);
                }
            }
        }
    }
}

/// The text is what the bytes from `a` up to `b` say, all of them printable.
pub open spec fn run_at(bytes: Seq<u8>, s: Seq<char>, a: int, b: int) -> bool {
    &&& 0 <= a <= b <= bytes.len()
    &&& s == as_chars(bytes.subrange(a, b))
    &&& forall|j: int| a <= j < b ==> printable(#[trigger] bytes[j])
}

/// The text is a run of printable bytes, and long enough.
pub open spec fn is_run(bytes: Seq<u8>, s: Seq<char>, min_len: nat) -> bool {
    s.len() >= min_len && exists|a: int, b: int| run_at(bytes, s, a, b)
}

/// The texts found in a file are runs of its printable bytes, and none is too short.
pub proof fn found_texts_are_printable_runs(bytes: Seq<u8>, min_len: nat)
    ensures
        forall|k: int|
            0 <= k < ascii_strings(bytes, min_len).len() ==> is_run(
                bytes,
                #[trigger] ascii_strings(bytes, min_len)[k],
                min_len,
            ),
{
    lemma_runs(bytes, 0, 0, min_len);
}

proof fn lemma_best_parent(paths: Seq<Seq<char>>, upto: int)
    requires
        0 <= upto <= paths.len(),
    ensures
        match best_parent(paths, upto) {
            Some(x) => paths.contains(x) && parent_candidate(x) && (forall|i: int|
                0 <= i < upto && parent_candidate(#[trigger] paths[i]) ==> parent_score(paths[i])
                    <= parent_score(x)),
            None => forall|i: int| 0 <= i < upto ==> !parent_candidate(#[trigger] paths[i]),
        },
    decreases upto,
{
    if upto > 0 {
        lemma_best_parent(paths, upto - 1);
        assert(paths.contains(paths[upto - 1]));
    }
}

/// The parent class that is chosen is one of the candidates, none of which rates above it; so a
/// class of the project is preferred to one of the engine.
pub proof fn chosen_parent_rates_best(paths: Seq<Seq<char>>)
    ensures
        match best_parent(paths, paths.len() as int) {
            Some(x) => paths.contains(x) && parent_candidate(x) && (forall|i: int|
                0 <= i < paths.len() && parent_candidate(#[trigger] paths[i]) ==> parent_score(
                    paths[i],
                ) <= parent_score(x)),
            None => forall|i: int| 0 <= i < paths.len() ==> !parent_candidate(#[trigger] paths[i]),
        },
{
    lemma_best_parent(paths, paths.len() as int);
}

} // verus!
