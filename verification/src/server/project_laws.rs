//! How the file of an asset is found.
use vstd::prelude::*;

use super::asset::record::asset_path_of;
use super::asset::record_laws::content_becomes_game;
use super::path::unix_path;
use super::project::{asset_file_from, holds_asset, relative_asset};
use crate::text;
use crate::text_laws::first_and_last_parts;

verus! {

/// An asset below `/Game/` is looked for below `Content/`, under the same name.
pub proof fn game_becomes_content(name: Seq<char>)
    ensures
        relative_asset("/Game/"@ + name) == "Content/"@ + name,
{
    let p = "/Game/"@;
    let s = p + name;
    reveal_strlit("/Game/");
    assert(s.subrange(0, p.len() as int) =~= p);
    assert(text::occurs_at(s, p, 0));
    text::lemma_find_from(s, p, 0);
    assert(text::find(s, p) == Some(0int));
    assert(s.take(0) + "Content/"@ + s.subrange(p.len() as int, s.len() as int) =~= "Content/"@
        + name);
}

proof fn lemma_nothing_to_replace(s: Seq<char>, x: char, with: Seq<char>)
    requires
        !s.contains(x),
    ensures
        text::replaced_char(s, x, with) == s,
    decreases s.len(),
{
    if s.len() > 0 {
        assert(s.contains(s.last()));
        let t = s.drop_last();
        assert(!t.contains(x)) by {
            if t.contains(x) {
                let k = choose|k: int| 0 <= k < t.len() && t[k] == x;
                assert(s[k] == x);
            }
        }
        lemma_nothing_to_replace(t, x, with);
        assert(t.push(s.last()) =~= s);
    }
}

/// From the path of an asset one comes back to the file that it was made from: a file below the
/// content directory is that of its asset.
pub proof fn assets_lead_back_to_their_files(
    root: Seq<char>,
    name: Seq<char>,
    front: Seq<char>,
    base: Seq<char>,
)
    requires
        !(root + "/Content/"@ + name + ".uasset"@).contains('\\'),
        !root.contains('\\') && !name.contains('\\'),
        !text::has(root + "/Content/"@ + name + ".uasset"@, "//"@),
        forall|j: int|
            0 <= j < root.len() ==> !text::occurs_at(
                root + "/Content/"@ + name + ".uasset"@,
                "/Content/"@,
                j,
            ),
        "Content/"@ + name == front + seq!['/'] + base,
        !base.contains('/'),
    ensures
        ({
            let file = root + "/Content/"@ + name + ".uasset"@;
            holds_asset(base + ".uasset"@, file, asset_path_of(file))
        }),
{
    let file = root + "/Content/"@ + name + ".uasset"@;
    content_becomes_game(root, name);
    game_becomes_content(name);
    first_and_last_parts(front, '/', base);
    lemma_nothing_to_replace(file, '\\', "/"@);
    assert(unix_path(file) == file);
    let relative = "Content/"@ + name;
    reveal_strlit("/Content/");
    reveal_strlit("Content/");
    let at = root.len() + 1;
    assert(file.subrange(at as int, (at + relative.len()) as int) =~= relative);
    assert(text::occurs_at(file, relative, at as int));
}

/// A file of another name is not that of the asset, nor is one whose path does not hold the asset's.
pub proof fn other_files_are_passed_over(name: Seq<char>, path: Seq<char>, asset: Seq<char>)
    ensures
        ({
            let relative = "Content/"@ + asset;
            let base = text::last_part(relative, '/');
            let found = holds_asset(name, path, "/Game/"@ + asset);
            &&& name != base + ".uasset"@ && name != base + ".umap"@ ==> !found
            &&& !text::has(unix_path(path), relative) ==> !found
        }),
{
    game_becomes_content(asset);
}

proof fn lemma_asset_file(files: Seq<(Seq<char>, Seq<char>)>, asset: Seq<char>, k: int)
    requires
        0 <= k <= files.len(),
    ensures
        match asset_file_from(files, asset, k) {
            Some(i) => k <= i < files.len() && holds_asset(files[i].0, files[i].1, asset) && forall|
                j: int,
            |
                k <= j < i ==> !holds_asset((#[trigger] files[j]).0, files[j].1, asset),
            None => forall|j: int|
                k <= j < files.len() ==> !holds_asset((#[trigger] files[j]).0, files[j].1, asset),
        },
    decreases files.len() - k,
{
    if k < files.len() && !holds_asset(files[k].0, files[k].1, asset) {
        lemma_asset_file(files, asset, k + 1);
    }
}

/// The file of an asset is the first that holds it; none is found only where none does.
pub proof fn the_first_file_is_taken(files: Seq<(Seq<char>, Seq<char>)>, asset: Seq<char>)
    ensures
        match asset_file_from(files, asset, 0) {
            Some(i) => 0 <= i < files.len() && holds_asset(files[i].0, files[i].1, asset) && forall|
                j: int,
            |
                0 <= j < i ==> !holds_asset((#[trigger] files[j]).0, files[j].1, asset),
            None => forall|j: int|
                0 <= j < files.len() ==> !holds_asset((#[trigger] files[j]).0, files[j].1, asset),
        },
{
    lemma_asset_file(files, asset, 0);
}

} // verus!
