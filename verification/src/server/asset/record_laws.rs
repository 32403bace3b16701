//! Which assets are indexed, and what is found out about them.
use vstd::prelude::*;

use super::fallback::{
    best_parent, fallback_view, function_token, module_of, parent_candidate, parent_score, passes, sieved,
    type_token, Sieve,
};
use super::graph_laws::lemma_ascending_list;
use super::record::{asset_path_of, fully_indexed, leaf, logical_class, resource_class, RecordView};
use crate::query::pattern::slashed_path;
use crate::text;
use crate::text_laws::first_and_last_parts;
use crate::textset::{ascending, lemma_sorted_set, same_members, sorted_set};

verus! {

// ---------------------------------------------------------------------------
// What is indexed
// ---------------------------------------------------------------------------
/// Only assets are indexed, and every asset with a parent class is.
pub proof fn assets_with_a_parent_are_indexed(extension: Option<Seq<char>>, r: RecordView)
    ensures
        fully_indexed(extension, r) ==> extension is Some && text::same_caseless(
            extension->0,
            "uasset"@,
        ),
        extension is Some && text::same_caseless(extension->0, "uasset"@) && r.parent_class is Some
            ==> fully_indexed(extension, r),
{
    reveal_strlit("uasset");
    let u = "uasset"@;
    assert(text::lower(u) =~= u);
}

/// Without a parent class, an asset of a class that holds a mere resource is left out, whatever it
/// imports.
pub proof fn resources_are_left_out(extension: Option<Seq<char>>, r: RecordView, front: Seq<char>)
    requires
        r.parent_class is None,
        r.asset_class is Some,
        ({
            let c = r.asset_class->0;
            ||| c == front + seq!['.'] + "Texture2D"@
            ||| c == front + seq!['.'] + "StaticMesh"@
            ||| c == front + seq!['.'] + "SkeletalMesh"@
            ||| c == front + seq!['.'] + "Material"@
            ||| c == front + seq!['.'] + "SoundWave"@
            ||| c == front + seq!['.'] + "AnimSequence"@
        }),
    ensures
        !fully_indexed(extension, r),
{
    let c = r.asset_class->0;
    reveal_strlit("Texture2D");
    reveal_strlit("StaticMesh");
    reveal_strlit("SkeletalMesh");
    reveal_strlit("Material");
    reveal_strlit("SoundWave");
    reveal_strlit("AnimSequence");
    let empty = Seq::<char>::empty();
    first_and_last_parts(front, '.', "Texture2D"@);
    first_and_last_parts(front, '.', "StaticMesh"@);
    first_and_last_parts(front, '.', "SkeletalMesh"@);
    first_and_last_parts(front, '.', "Material"@);
    first_and_last_parts(front, '.', "SoundWave"@);
    first_and_last_parts(front, '.', "AnimSequence"@);
    first_and_last_parts(empty, ':', "Texture2D"@);
    first_and_last_parts(empty, ':', "StaticMesh"@);
    first_and_last_parts(empty, ':', "SkeletalMesh"@);
    first_and_last_parts(empty, ':', "Material"@);
    first_and_last_parts(empty, ':', "SoundWave"@);
    first_and_last_parts(empty, ':', "AnimSequence"@);
    assert(resource_class(leaf(c)));
}

/// The path says that the asset holds logic or data.
pub open spec fn names_logic(path: Seq<char>, front: Seq<char>) -> bool {
    ||| path == front + seq!['.'] + "Blueprint"@
    ||| path == front + seq!['.'] + "WidgetBlueprint"@
    ||| path == front + seq!['.'] + "AnimBlueprint"@
    ||| path == front + seq!['.'] + "DataAsset"@
    ||| path == front + seq!['.'] + "DataTable"@
    ||| path == front + seq!['.'] + "BehaviorTree"@
    ||| path == front + seq!['.'] + "UserDefinedStruct"@
}

/// An asset that imports a class of logic or data is indexed, unless its own class is one of
/// resources.
pub proof fn logic_is_indexed(extension: Seq<char>, r: RecordView, i: int, front: Seq<char>)
    requires
        text::lower(extension) == "uasset"@,
        r.asset_class is None,
        0 <= i < r.imports.len(),
        names_logic(r.imports[i], front),
    ensures
        fully_indexed(Some(extension), r),
{
    let c = r.imports[i];
    reveal_strlit("Blueprint");
    reveal_strlit("WidgetBlueprint");
    reveal_strlit("AnimBlueprint");
    reveal_strlit("DataAsset");
    reveal_strlit("DataTable");
    reveal_strlit("BehaviorTree");
    reveal_strlit("UserDefinedStruct");
    let empty = Seq::<char>::empty();
    first_and_last_parts(front, '.', "Blueprint"@);
    first_and_last_parts(front, '.', "WidgetBlueprint"@);
    first_and_last_parts(front, '.', "AnimBlueprint"@);
    first_and_last_parts(front, '.', "DataAsset"@);
    first_and_last_parts(front, '.', "DataTable"@);
    first_and_last_parts(front, '.', "BehaviorTree"@);
    first_and_last_parts(front, '.', "UserDefinedStruct"@);
    first_and_last_parts(empty, ':', "Blueprint"@);
    first_and_last_parts(empty, ':', "WidgetBlueprint"@);
    first_and_last_parts(empty, ':', "AnimBlueprint"@);
    first_and_last_parts(empty, ':', "DataAsset"@);
    first_and_last_parts(empty, ':', "DataTable"@);
    first_and_last_parts(empty, ':', "BehaviorTree"@);
    first_and_last_parts(empty, ':', "UserDefinedStruct"@);
    assert(logical_class(leaf(c)));
}

/// What has neither class nor parent and imports nothing is not indexed, whatever functions it
/// seems to have; with functions, an import from a package is enough.
pub proof fn functions_need_a_package(extension: Seq<char>, r: RecordView)
    requires
        text::lower(extension) == "uasset"@,
        r.asset_class is None,
        r.parent_class is None,
    ensures
        r.imports.len() == 0 ==> !fully_indexed(Some(extension), r),
        r.functions.len() > 0 && (exists|i: int|
            0 <= i < r.imports.len() && (text::starts(#[trigger] r.imports[i], "/Script/"@)
                || text::starts(r.imports[i], "/Game/"@))) ==> fully_indexed(Some(extension), r),
{
}

/// The case of the letters in the name of a class does not matter.
pub proof fn classes_are_told_without_case(a: Seq<char>, b: Seq<char>)
    requires
        text::lower(a) == text::lower(b),
    ensures
        logical_class(a) == logical_class(b),
        resource_class(a) == resource_class(b),
{
}

// ---------------------------------------------------------------------------
// Paths
// ---------------------------------------------------------------------------
/// A file below the content directory holds the asset of that name below `/Game/`.
pub proof fn content_becomes_game(root: Seq<char>, name: Seq<char>)
    requires
        !root.contains('\\') && !name.contains('\\'),
        !text::has(root + "/Content/"@ + name + ".uasset"@, "//"@),
        forall|j: int|
            0 <= j < root.len() ==> !text::occurs_at(
                root + "/Content/"@ + name + ".uasset"@,
                "/Content/"@,
                j,
            ),
    ensures
        asset_path_of(root + "/Content/"@ + name + ".uasset"@) == "/Game/"@ + name,
{
    reveal_strlit("/Content/");
    reveal_strlit(".uasset");
    let p = "/Content/"@;
    let s = root + p + name + ".uasset"@;
    assert(!s.contains('\\')) by {
        if s.contains('\\') {
            let k = choose|k: int| 0 <= k < s.len() && s[k] == '\\';
            let a = root.len() as int;
            let b = a + p.len();
            let c = b + name.len();
            if k < a {
                assert(root[k] == '\\');
            } else if k < b {
                assert(p[k - a] == '\\');
            } else if k < c {
                assert(name[k - b] == '\\');
            } else {
                assert(".uasset"@[k - c] == '\\');
            }
        }
    }
    lemma_slashed_already(s);
    text::lemma_find_from(s, p, 0);
    assert(s.subrange(root.len() as int, (root.len() + p.len()) as int) =~= p);
    assert(text::occurs_at(s, p, root.len() as int));
    assert(text::find(s, p) == Some(root.len() as int));
    let rest = s.subrange((root.len() + p.len()) as int, s.len() as int);
    let ext = seq!['u', 'a', 's', 's', 'e', 't'];
    assert(rest =~= name + seq!['.'] + ext);
    assert(rest[name.len() as int] == '.');
    first_and_last_parts(name, '.', ext);
    let at = text::after_last(rest, '.', rest.len() as int);
    assert(text::last_part(rest, '.').len() == ext.len());
    lemma_after_last_bounds(rest, '.', rest.len() as int);
    assert(rest.len() - at == ext.len());
    assert(rest.take(at - 1) =~= name);
}

proof fn lemma_after_last_bounds(s: Seq<char>, c: char, upto: int)
    requires
        0 <= upto <= s.len(),
    ensures
        0 <= text::after_last(s, c, upto) <= upto,
    decreases upto,
{
    if upto > 0 && s[upto - 1] != c {
        lemma_after_last_bounds(s, c, upto - 1);
    }
}

proof fn lemma_slashed_already(s: Seq<char>)
    requires
        !s.contains('\\'),
        !text::has(s, "//"@),
    ensures
        slashed_path(s) == s,
{
    lemma_nothing_to_replace(s, '\\', "/"@);
    lemma_no_copy_to_replace(s, "//"@, "/"@, 0);
    assert(s.subrange(0, s.len() as int) =~= s);
}

proof fn lemma_no_copy_to_replace(s: Seq<char>, p: Seq<char>, with: Seq<char>, from: int)
    requires
        p == "//"@,
        !text::has(s, p),
        0 <= from <= s.len(),
    ensures
        text::replaced_from(s, p, with, from) == s.subrange(from, s.len() as int),
    decreases s.len() - from,
{
    reveal_strlit("//");
    if from < s.len() {
        assert(!text::occurs_at(s, p, from));
        lemma_no_copy_to_replace(s, p, with, from + 1);
        assert(seq![s[from]] + s.subrange(from + 1, s.len() as int) =~= s.subrange(
            from,
            s.len() as int,
        ));
    } else {
        assert(s.subrange(from, s.len() as int) =~= Seq::<char>::empty());
    }
}

proof fn lemma_nothing_to_replace(s: Seq<char>, x: char, with: Seq<char>)
    requires
        !s.contains(x),
    ensures
        text::replaced_char(s, x, with) == s,
    decreases s.len(),
{
    if s.len() > 0 {
        assert(s.contains(s.last()));
        let t = s.drop_last();
        assert(!t.contains(x)) by {
            if t.contains(x) {
                let k = choose|k: int| 0 <= k < t.len() && t[k] == x;
                assert(s[k] == x);
            }
        }
        lemma_nothing_to_replace(t, x, with);
        assert(t.push(s.last()) =~= s);
    }
}

// ---------------------------------------------------------------------------
// Searching a file for texts
// ---------------------------------------------------------------------------
/// The path is that of a class in a package of its own, not of one of these names.
pub open spec fn names_a_class(s: Seq<char>) -> bool {
    &&& text::starts(s, "/Script/"@)
    &&& s.contains('.')
    &&& text::last_part(s, '.') != "Class"@
    &&& text::last_part(s, '.') != "Package"@
    &&& text::last_part(s, '.') != "MetaData"@
    &&& text::last_part(s, '.') != "BlueprintGeneratedClass"@
    &&& text::last_part(s, '.') != "Default__Object"@
}

/// The class belongs to the engine's module of this name.
pub open spec fn in_module(s: Seq<char>, module: Seq<char>) -> bool {
    exists|rest: Seq<char>| s == #[trigger] ("/Script/"@ + module + seq!['.'] + rest)
}

pub open spec fn of_core(s: Seq<char>) -> bool {
    in_module(s, "CoreUObject"@) || in_module(s, "UnrealEd"@)
}

proof fn lemma_module(s: Seq<char>, module: Seq<char>)
    requires
        names_a_class(s),
        !module.contains('.'),
    ensures
        module_of(s) == module <==> in_module(s, module),
{
    let p = "/Script/"@;
    reveal_strlit("/Script/");
    let rest = s.subrange(p.len() as int, s.len() as int);
    let k = choose|k: int| 0 <= k < s.len() && s[k] == '.';
    if k < p.len() {
        assert(s.subrange(0, p.len() as int)[k] == '.');
    }
    assert(rest[k - p.len()] == '.');
    text::lemma_char_from(rest, '.', 0);
    let i = text::char_from(rest, '.', 0);
    assert(i < rest.len());
    if module_of(s) == module {
        let back = rest.subrange(i + 1, rest.len() as int);
        assert(rest =~= module + seq!['.'] + back);
        assert(s =~= p + rest);
        assert(s =~= p + module + seq!['.'] + back);
        assert(in_module(s, module));
    }
    if in_module(s, module) {
        let back = choose|back: Seq<char>| s == #[trigger] (p + module + seq!['.'] + back);
        assert(rest =~= module + seq!['.'] + back);
        first_and_last_parts(module, '.', back);
    }
}

/// What a class is worth as a parent: more where it is the project's, less where it is the engine's,
/// and least where it is of the engine's core.
proof fn lemma_scores(s: Seq<char>)
    requires
        names_a_class(s),
    ensures
        of_core(s) ==> parent_score(s) == 10 && !in_module(s, "Engine"@),
        in_module(s, "Engine"@) ==> parent_score(s) == 20,
        !of_core(s) && !in_module(s, "Engine"@) ==> parent_score(s) == 100,
{
    reveal_strlit("Engine");
    reveal_strlit("CoreUObject");
    reveal_strlit("UnrealEd");
    assert("Engine"@.len() == 6 && "CoreUObject"@.len() == 11 && "UnrealEd"@.len() == 8);
    lemma_module(s, "Engine"@);
    lemma_module(s, "CoreUObject"@);
    lemma_module(s, "UnrealEd"@);
}

proof fn lemma_best_parent(paths: Seq<Seq<char>>, upto: int)
    requires
        0 <= upto <= paths.len(),
    ensures
        match best_parent(paths, upto) {
            Some(x) => exists|k: int|
                0 <= k < upto && #[trigger] paths[k] == x && names_a_class(x) && (forall|i: int|
                    0 <= i < upto && names_a_class(#[trigger] paths[i]) ==> parent_score(paths[i])
                        <= parent_score(x) && (i < k ==> parent_score(paths[i]) < parent_score(x))),
            None => forall|i: int| 0 <= i < upto ==> !names_a_class(#[trigger] paths[i]),
        },
    decreases upto,
{
    if upto > 0 {
        lemma_best_parent(paths, upto - 1);
        let x = paths[upto - 1];
        assert(parent_candidate(x) == names_a_class(x));
        match best_parent(paths, upto - 1) {
            None => {
                if names_a_class(x) {
                    assert(paths[upto - 1] == x);
                }
            },
            Some(y) => {
                let k = choose|k: int|
                    0 <= k < upto - 1 && #[trigger] paths[k] == y && names_a_class(y) && (forall|
                        i: int,
                    |
                        0 <= i < upto - 1 && names_a_class(#[trigger] paths[i]) ==> parent_score(
                            paths[i],
                        ) <= parent_score(y) && (i < k ==> parent_score(paths[i]) < parent_score(
                            y,
                        )));
                if names_a_class(x) && parent_score(x) > parent_score(y) {
                    assert(paths[upto - 1] == x);
                } else {
                    assert(paths[k] == y);
                }
            },
        }
    }
}

/// The parent class is a class of the project where a file names one, else one of the engine, and
/// else one of its core; among several of these it is the one that is named first.
pub proof fn parents_are_the_projects_own(paths: Seq<Seq<char>>)
    ensures
        match best_parent(paths, paths.len() as int) {
            None => forall|i: int| 0 <= i < paths.len() ==> !names_a_class(#[trigger] paths[i]),
            Some(x) => exists|k: int|
                0 <= k < paths.len() && #[trigger] paths[k] == x && names_a_class(x) && (forall|
                    i: int,
                |
                    0 <= i < paths.len() && names_a_class(#[trigger] paths[i]) ==> {
                        &&& in_module(x, "Engine"@) ==> of_core(paths[i]) || (in_module(
                            paths[i],
                            "Engine"@,
                        ) && k <= i)
                        &&& of_core(x) ==> of_core(paths[i]) && k <= i
                        &&& !in_module(x, "Engine"@) && !of_core(x) ==> in_module(
                            paths[i],
                            "Engine"@,
                        ) || of_core(paths[i]) || k <= i
                    }),
        },
{
    lemma_best_parent(paths, paths.len() as int);
    match best_parent(paths, paths.len() as int) {
        None => {},
        Some(x) => {
            let n = paths.len() as int;
            let k = choose|k: int|
                0 <= k < n && #[trigger] paths[k] == x && names_a_class(x) && (forall|i: int|
                    0 <= i < n && names_a_class(#[trigger] paths[i]) ==> parent_score(paths[i])
                        <= parent_score(x) && (i < k ==> parent_score(paths[i]) < parent_score(x)));
            lemma_scores(x);
            assert(paths[k] == x);
            assert forall|i: int| 0 <= i < n && names_a_class(#[trigger] paths[i]) implies ({
                &&& in_module(x, "Engine"@) ==> of_core(paths[i]) || (in_module(paths[i], "Engine"@)
                    && k <= i)
                &&& of_core(x) ==> of_core(paths[i]) && k <= i
                &&& !in_module(x, "Engine"@) && !of_core(x) ==> in_module(paths[i], "Engine"@)
                    || of_core(paths[i]) || k <= i
            }) by {
                lemma_scores(paths[i]);
            }
        },
    }
}

/// Names that the compiler of blueprints gives are those of no function and of no type.
pub proof fn generated_names_are_left_out(s: Seq<char>)
    ensures
        !function_token(s + "_C"@) && !type_token(s + "_C"@),
        !function_token("Default__"@ + s) && !type_token("Default__"@ + s),
        !function_token("SKEL_"@ + s) && !type_token("SKEL_"@ + s),
        !function_token("REINST_"@ + s) && !type_token("REINST_"@ + s),
        !function_token(s + "_GEN_VARIABLE"@) && !type_token(s + "_GEN_VARIABLE"@),
        !function_token("ExecuteUbergraph_"@ + s),
        !function_token("K2Node_"@ + s),
{
    lemma_begins("Default__"@, s);
    lemma_begins("SKEL_"@, s);
    lemma_begins("REINST_"@, s);
    lemma_begins("ExecuteUbergraph_"@, s);
    lemma_begins("K2Node_"@, s);
    lemma_stands_last(s, "_C"@);
    lemma_stands_last(s, "_GEN_VARIABLE"@);
}

proof fn lemma_begins(p: Seq<char>, s: Seq<char>)
    ensures
        text::starts(p + s, p),
{
    assert((p + s).subrange(0, p.len() as int) =~= p);
}

proof fn lemma_stands_last(s: Seq<char>, p: Seq<char>)
    ensures
        text::ends(s + p, p),
{
    let t = s + p;
    assert(t.subrange(t.len() - p.len(), t.len() as int) =~= p);
}

/// A name without a small letter is that of no function and of no type, and one without a capital
/// that of no function; nor is a name with two underscores in a row.
pub proof fn tokens_mix_their_letters(s: Seq<char>)
    ensures
        (forall|i: int| 0 <= i < s.len() ==> !('a' <= #[trigger] s[i] <= 'z')) ==> !function_token(s)
            && !type_token(s),
        (forall|i: int| 0 <= i < s.len() ==> !('A' <= #[trigger] s[i] <= 'Z')) ==> !function_token(s)
            && !type_token(s),
        text::has(s, "__"@) ==> !function_token(s),
        text::byte_len(s) < 3 ==> !function_token(s) && !type_token(s),
        text::byte_len(s) > 80 ==> !function_token(s),
        text::byte_len(s) > 100 ==> !type_token(s),
{
}

/// A name of ASCII letters with a capital and a small one is taken for a function's.
pub proof fn plain_names_are_functions(s: Seq<char>, i: int, j: int)
    requires
        3 <= text::byte_len(s) <= 80,
        !s.contains('_'),
        0 <= i < s.len() && 'A' <= s[i] <= 'Z',
        0 <= j < s.len() && 'a' <= s[j] <= 'z',
    ensures
        function_token(s),
{
    reveal_strlit("_C");
    reveal_strlit("_GEN_VARIABLE");
    reveal_strlit("Default__");
    reveal_strlit("SKEL_");
    reveal_strlit("REINST_");
    reveal_strlit("ExecuteUbergraph_");
    reveal_strlit("K2Node_");
    reveal_strlit("__");
    assert(text::ascii_upper(s[i]) && text::ascii_lower(s[j]));
    let n = s.len() as int;
    if text::ends(s, "_C"@) {
        assert(s.subrange(n - 2, n)[0] == s[n - 2]);
    }
    if text::ends(s, "_GEN_VARIABLE"@) {
        assert(s.subrange(n - 13, n)[0] == s[n - 13]);
    }
    if text::starts(s, "Default__"@) {
        assert(s.subrange(0, 9)[7] == s[7]);
    }
    if text::starts(s, "SKEL_"@) {
        assert(s.subrange(0, 5)[4] == s[4]);
    }
    if text::starts(s, "REINST_"@) {
        assert(s.subrange(0, 7)[6] == s[6]);
    }
    if text::starts(s, "ExecuteUbergraph_"@) {
        assert(s.subrange(0, 17)[16] == s[16]);
    }
    if text::starts(s, "K2Node_"@) {
        assert(s.subrange(0, 7)[6] == s[6]);
    }
    if text::has(s, "__"@) {
        let k = choose|k: int| text::occurs_at(s, "__"@, k);
        assert(s.subrange(k, k + 2)[0] == s[k]);
    }
}

proof fn lemma_sieved(sieve: Sieve, list: Seq<Seq<char>>, asset_path: Seq<char>, k: int, x: Seq<char>)
    requires
        0 <= k <= list.len(),
    ensures
        sieved(sieve, list, asset_path, k).contains(x) <==> passes(
            sieve,
            x,
            asset_path,
        ) && exists|i: int| k <= i < list.len() && #[trigger] list[i] == x,
    decreases list.len() - k,
{
    if k < list.len() {
        lemma_sieved(sieve, list, asset_path, k + 1, x);
        let rest = sieved(sieve, list, asset_path, k + 1);
        let all = sieved(sieve, list, asset_path, k);
        if passes(sieve, list[k], asset_path) {
            assert(all == seq![list[k]] + rest);
            if rest.contains(x) {
                let i = choose|i: int| 0 <= i < rest.len() && rest[i] == x;
                assert(all[i + 1] == x);
            }
            if list[k] == x {
                assert(all[0] == x);
            }
            if all.contains(x) {
                let i = choose|i: int| 0 <= i < all.len() && all[i] == x;
                if i > 0 {
                    assert(rest[i - 1] == x);
                }
            }
        }
    }
}

proof fn lemma_sorted_members(list: Seq<Seq<char>>, x: Seq<char>)
    ensures
        sorted_set(list).contains(x) <==> list.contains(x),
        ascending(sorted_set(list)),
{
    let r = lemma_ascending_list(list.to_set());
    assert(same_members(r, list)) by {
        assert forall|y: Seq<char>| #[trigger] r.contains(y) <==> list.contains(y) by {
            assert(list.to_set().contains(y) <==> list.contains(y));
        }
    }
    lemma_sorted_set(list, r);
}

/// What a file imports are the paths of packages that it names, but for its own and those of mere
/// classes, and the names of types; its functions are the names of functions in it.
pub proof fn found_texts_are_imports_and_functions(
    scripts: Seq<Seq<char>>,
    games: Seq<Seq<char>>,
    words: Seq<Seq<char>>,
    path: Seq<char>,
    mtime: i64,
    x: Seq<char>,
)
    ensures
        ({
            let r = fallback_view(scripts, games, words, path, mtime);
            &&& r.imports.contains(x) <==> (words.contains(x) && type_token(x)) || ((
            scripts.contains(x) || games.contains(x)) && text::lower(x) != text::lower(
                r.asset_path,
            ) && !text::ends(x, ".Class"@))
            &&& r.functions.contains(x) <==> words.contains(x) && function_token(x)
            &&& r.asset_class is None
            &&& r.mtime == mtime
        }),
{
    let asset = asset_path_of(path);
    let a = sieved(Sieve::Imports, scripts, asset, 0);
    let b = sieved(Sieve::Imports, games, asset, 0);
    let c = sieved(Sieve::Types, words, asset, 0);
    let d = sieved(Sieve::Functions, words, asset, 0);
    lemma_sieved(Sieve::Imports, scripts, asset, 0, x);
    lemma_sieved(Sieve::Imports, games, asset, 0, x);
    lemma_sieved(Sieve::Types, words, asset, 0, x);
    lemma_sieved(Sieve::Functions, words, asset, 0, x);
    lemma_sorted_members(a + b + c, x);
    lemma_sorted_members(d, x);
    lemma_in_sum(a, b, x);
    lemma_in_sum(a + b, c, x);
}

proof fn lemma_in_sum(a: Seq<Seq<char>>, b: Seq<Seq<char>>, x: Seq<char>)
    ensures
        (a + b).contains(x) <==> a.contains(x) || b.contains(x),
{
    let s = a + b;
    if a.contains(x) {
        let i = choose|i: int| 0 <= i < a.len() && a[i] == x;
        assert(s[i] == x);
    }
    if b.contains(x) {
        let i = choose|i: int| 0 <= i < b.len() && b[i] == x;
        assert(s[a.len() + i] == x);
    }
    if s.contains(x) {
        let i = choose|i: int| 0 <= i < s.len() && s[i] == x;
        if i < a.len() {
            assert(a[i] == x);
        } else {
            assert(b[i - a.len()] == x);
        }
    }
}

} // verus!
