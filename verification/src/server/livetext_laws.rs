//! Which lines of code a live search shows.
use vstd::prelude::*;

use super::livetext::{
    engine_search, file_scanned, in_phase, index_scanned, is_full, line_id, line_item, project_search,
    text_answered, with_line, LineView, LiveTextView, TextPhase,
};
use super::path::{plugin_root, searchable, unix_path};
use super::profile::{literal_code, text_like};
use crate::query::item::{field_of, FieldView, ItemView};
use crate::text;
use crate::textmap::key_position;

verus! {

/// A line is shown with its place, without the white space around it, and with its source.
pub proof fn lines_are_described(pattern: Seq<char>, source: Seq<char>, m: LineView)
    ensures
        ({
            let x = line_item(pattern, source, m);
            &&& field_of(x, "name"@) == Some(FieldView::Text(pattern))
            &&& field_of(x, "type"@) == Some(FieldView::Text("text"@))
            &&& field_of(x, "path"@) == Some(FieldView::Text(unix_path(m.path)))
            &&& field_of(x, "line"@) == Some(FieldView::Int(m.line_number))
            &&& field_of(x, "text"@) == Some(FieldView::Text(text::trimmed(m.line_text)))
            &&& field_of(x, "source"@) == Some(FieldView::Text(source))
        }),
{
    reveal_strlit("name");
    reveal_strlit("type");
    reveal_strlit("path");
    reveal_strlit("line");
    reveal_strlit("text");
    reveal_strlit("source");
    assert("name"@[0] == 'n' && "type"@[0] == 't' && "path"@[0] == 'p' && "line"@[0] == 'l'
        && "text"@[0] == 't' && "source"@[0] == 's');
    assert("type"@[1] == 'y' && "text"@[1] == 'e');
    reveal_with_fuel(key_position, 7);
}

/// The item is that of one of the lines.
pub open spec fn of_lines(v: LiveTextView, list: Seq<LineView>, x: ItemView) -> bool {
    exists|i: int| 0 <= i < list.len() && x == line_item(v.pattern, v.source, #[trigger] list[i])
}

/// The item is that of one of the lines, which lies in a file that may be searched: in the module of
/// the edited file where only that is searched, and in its plugin where only that is.
pub open spec fn of_lines_in_reach(v: LiveTextView, list: Seq<LineView>, x: ItemView) -> bool {
    exists|i: int|
        0 <= i < list.len() && x == line_item(v.pattern, v.source, #[trigger] list[i]) && searchable(
            unix_path(list[i].path),
        ) && (v.phase == TextPhase::Module ==> list[i].module_name is Some && v.current_module is Some
            && text::lower(list[i].module_name->0) == text::lower(v.current_module->0)) && (v.phase
            == TextPhase::Plugin ==> v.current_file is Some && plugin_root(v.current_file->0) is Some
            && text::starts(
            text::lower(unix_path(list[i].path)),
            text::lower(plugin_root(v.current_file->0)->0),
        ))
}

/// The searches are alike but for what was found.
spec fn alike(v: LiveTextView, w: LiveTextView) -> bool {
    v.pattern == w.pattern && v.source == w.source && v.phase == w.phase && v.current_file
        == w.current_file && v.current_module == w.current_module
}

proof fn lemma_with_line(v: LiveTextView, m: LineView)
    ensures
        alike(v, with_line(v, m)),
        forall|x: ItemView| #[trigger]
            with_line(v, m).results.contains(x) ==> v.results.contains(x) || x == line_item(
                v.pattern,
                v.source,
                m,
            ),
{
    let w = with_line(v, m);
    assert forall|x: ItemView| #[trigger] w.results.contains(x) implies v.results.contains(x) || x
        == line_item(v.pattern, v.source, m) by {
        let i = choose|i: int| 0 <= i < w.results.len() && w.results[i] == x;
        if i < v.results.len() {
            assert(v.results[i] == x);
        }
    }
}

proof fn lemma_file_scanned(v: LiveTextView, list: Seq<LineView>, k: int, bytes: usize, x: ItemView)
    requires
        0 <= k <= list.len(),
        file_scanned(v, list, k, bytes).results.contains(x),
    ensures
        v.results.contains(x) || of_lines(v, list, x),
    decreases list.len() - k,
{
    if k < list.len() {
        let w = with_line(v, list[k]);
        lemma_with_line(v, list[k]);
        let more = crate::query::pattern::sum_or_max(
            bytes,
            text::byte_len(list[k].line_text) as usize,
        );
        if w.results.contains(x) {
            if x == line_item(v.pattern, v.source, list[k]) {
                assert(of_lines(v, list, x));
            }
        } else {
            lemma_file_scanned(w, list, k + 1, more, x);
        }
    }
}

proof fn lemma_index_scanned(
    v: LiveTextView,
    list: Seq<LineView>,
    k: int,
    paths: Seq<Seq<char>>,
    bytes: usize,
    x: ItemView,
)
    requires
        0 <= k <= list.len(),
        index_scanned(v, list, k, paths, bytes).results.contains(x),
    ensures
        v.results.contains(x) || of_lines_in_reach(v, list, x),
    decreases list.len() - k,
{
    if k < list.len() {
        let path = unix_path(list[k].path);
        let w = with_line(v, list[k]);
        lemma_with_line(v, list[k]);
        let seen = super::livetext::with_path(paths, path);
        let more = crate::query::pattern::sum_or_max(
            bytes,
            text::byte_len(list[k].line_text) as usize,
        );
        if !in_phase(v, list[k]) || !searchable(path) {
            lemma_index_scanned(v, list, k + 1, paths, bytes, x);
        } else {
            if x == line_item(v.pattern, v.source, list[k]) {
                assert(of_lines_in_reach(v, list, x));
            }
            if !v.results.contains(x) && !w.results.contains(x) {
                lemma_index_scanned(w, list, k + 1, seen, more, x);
            }
        }
    }
}

/// Whatever is found, it is a line that the store answered with. Where more than the edited file is
/// searched, it lies in a file that may be searched, and in the module or the plugin that is.
pub proof fn lines_lie_in_what_is_searched(v: LiveTextView, list: Seq<LineView>, x: ItemView)
    requires
        text_answered(v, list).results.contains(x),
        v.phase != TextPhase::Done,
    ensures
        v.phase == TextPhase::File ==> v.results.contains(x) || of_lines(v, list, x),
        v.phase != TextPhase::File ==> v.results.contains(x) || of_lines_in_reach(v, list, x),
{
    if v.phase == TextPhase::File {
        lemma_file_scanned(v, list, 0, 0, x);
    } else {
        lemma_index_scanned(v, list, 0, Seq::empty(), 0, x);
    }
}

/// A line that was found is not found again, wherever it comes from.
pub proof fn lines_are_found_once(v: LiveTextView, m: LineView)
    ensures
        v.lines.contains(line_id(m)) ==> with_line(v, m) == v,
        with_line(with_line(v, m), m) == with_line(v, m),
        !v.lines.contains(line_id(m)) ==> with_line(v, m).results == v.results.push(
            line_item(v.pattern, v.source, m),
        ),
{
    if !v.lines.contains(line_id(m)) {
        let w = with_line(v, m);
        assert(w.lines[v.lines.len() as int] == line_id(m));
    }
}

/// A search of the project begins in the file that is edited, goes on in its module, then in its
/// plugin, and then everywhere; beyond the module only for text, code or a repeated query.
pub proof fn near_lines_are_searched_first(
    pattern: Seq<char>,
    limit: usize,
    file: Seq<char>,
    module: Seq<char>,
    repeated: bool,
    list: Seq<LineView>,
)
    requires
        limit > 0,
        searchable(file),
        text::trimmed(module).len() > 0,
    ensures
        ({
            let v = project_search(pattern, limit, Some(file), Some(module), repeated);
            let wide = text_like(pattern) || literal_code(pattern) || repeated;
            let second = text_answered(v, Seq::empty());
            let third = text_answered(second, Seq::empty());
            let fourth = text_answered(third, Seq::empty());
            &&& v.phase == TextPhase::File && v.source == "project"@
            &&& second.phase == TextPhase::Module
            &&& third.phase == TextPhase::Plugin <==> wide && plugin_root(file) is Some
            &&& third.phase == TextPhase::All <==> wide && plugin_root(file) is None
            &&& third.phase == TextPhase::Done <==> !wide
            &&& third.phase == TextPhase::Plugin ==> fourth.phase == TextPhase::All
        }),
{
}

/// The engine is searched everywhere at once, and lines of it are marked so.
pub proof fn the_engine_is_searched_everywhere(pattern: Seq<char>, limit: usize)
    ensures
        engine_search(pattern, limit).source == "engine"@,
        limit > 0 ==> engine_search(pattern, limit).phase == TextPhase::All,
        limit == 0 ==> engine_search(pattern, limit).phase == TextPhase::Done,
        engine_search(pattern, limit).results.len() == 0,
{
}

/// A full page ends a search.
pub proof fn full_pages_end_the_search(v: LiveTextView, list: Seq<LineView>)
    ensures
        is_full(text_answered(v, list)) && v.phase != TextPhase::Done ==> text_answered(v, list).phase
            == TextPhase::Done,
{
}

} // verus!
