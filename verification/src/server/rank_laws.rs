//! In which order matches are shown, said of what is shown.
use vstd::prelude::*;

use super::path::path_key;
use super::rank::{
    class_rank, class_ranked, class_results_come_best_first, distinct_items, good_matches,
    key_before, labelled, labelled_from, like_before, live_ranked, match_before, matches_from,
    quality, shown_matches_come_best_first, shows_match, sort_key, KeyView, MatchQuality,
};
use crate::query::item::{
    as_int, as_text, field_of, int_or, live_identity, path_at, set_field_is_read_back, text_at,
    with_field, FieldView, ItemView, Likeness,
};
use crate::sort::{orders, sorted_by, sorting_puts_in_order};
use crate::text;

verus! {

/// How far a match is from what was asked for.
pub open spec fn distance(q: MatchQuality) -> int {
    match q {
        MatchQuality::ExactSymbol => 0,
        MatchQuality::PrefixSymbol => 1,
        MatchQuality::NormalizedSymbol => 2,
        MatchQuality::FileNameMatch => 3,
        MatchQuality::OwnerClassMatch => 4,
        MatchQuality::TextMatch => 5,
        MatchQuality::Other => 6,
    }
}

pub open spec fn from_project(item: ItemView) -> bool {
    text_at(item, "source"@) == "project"@
}

pub open spec fn from_engine(item: ItemView) -> bool {
    text_at(item, "source"@) == "engine"@
}

/// The item stands in the file that is edited.
pub open spec fn in_file(item: ItemView, file: Option<Seq<char>>) -> bool {
    file matches Some(f) && path_key(f) == path_key(path_at(item))
}

/// The item stands in the module that is edited.
pub open spec fn in_module(item: ItemView, module: Option<Seq<char>>) -> bool {
    module matches Some(wanted) && (as_text(field_of(item, "module_name"@)) matches Some(own)
        && text::lower(own) == text::lower(wanted))
}

/// The item stands among the sources of others.
pub open spec fn among_others(item: ItemView) -> bool {
    let path = text::lower(path_at(item));
    text::has(path, "/thirdparty/"@) || text::has(path, "/source/thirdparty/"@) || text::has(
        path,
        "/framework/libs/"@,
    ) || text::has(path, "/external/"@)
}

/// The item is a type.
pub open spec fn is_type(item: ItemView) -> bool {
    let kind = text::lower(text_at(item, "type"@));
    kind == "class"@ || kind == "struct"@ || kind == "enum"@ || kind == "uclass"@ || kind
        == "ustruct"@ || kind == "uenum"@ || kind == "uinterface"@
}

/// The fields by which matches are ordered are not changed by the marks of a match.
proof fn lemma_marks_keep(key: KeyView, item: ItemView, at: int, field: Seq<char>)
    requires
        field != "match_quality"@,
        field != "backend_rank"@,
    ensures
        field_of(labelled(key, item, at), field) == field_of(item, field),
{
    let q = FieldView::Text(super::rank::quality_label(key.quality));
    set_field_is_read_back(item, "match_quality"@, q, field);
    set_field_is_read_back(
        with_field(item, "match_quality"@, q),
        "backend_rank"@,
        FieldView::Int(at as i64),
        field,
    );
}

proof fn lemma_marks_keep_key(
    key: KeyView,
    item: ItemView,
    at: int,
    pattern: Seq<char>,
    file: Option<Seq<char>>,
    module: Option<Seq<char>>,
)
    ensures
        ({
            let shown = labelled(key, item, at);
            &&& sort_key(shown, pattern, file, module) == sort_key(item, pattern, file, module)
            &&& text_at(shown, "source"@) == text_at(item, "source"@)
            &&& text_at(shown, "type"@) == text_at(item, "type"@)
            &&& text_at(shown, "name"@) == text_at(item, "name"@)
            &&& path_at(shown) == path_at(item)
            &&& field_of(shown, "module_name"@) == field_of(item, "module_name"@)
        }),
{
    reveal_strlit("match_quality");
    reveal_strlit("backend_rank");
    reveal_strlit("type");
    reveal_strlit("name");
    reveal_strlit("class_name");
    reveal_strlit("module_name");
    reveal_strlit("source");
    reveal_strlit("path");
    reveal_strlit("file_path");
    reveal_strlit("line");
    assert("module_name"@[1] == 'o' && "match_quality"@[1] == 'a');
    assert("match_quality"@[0] == 'm' && "backend_rank"@[0] == 'b');
    assert("class_name"@[0] == 'c' && "source"@[0] == 's' && "file_path"@[0] == 'f');
    lemma_marks_keep(key, item, at, "type"@);
    lemma_marks_keep(key, item, at, "name"@);
    lemma_marks_keep(key, item, at, "class_name"@);
    lemma_marks_keep(key, item, at, "module_name"@);
    lemma_marks_keep(key, item, at, "source"@);
    lemma_marks_keep(key, item, at, "path"@);
    lemma_marks_keep(key, item, at, "file_path"@);
    lemma_marks_keep(key, item, at, "line"@);
}

/// Every match carries the key of its item.
proof fn lemma_keys(
    list: Seq<ItemView>,
    pattern: Seq<char>,
    file: Option<Seq<char>>,
    module: Option<Seq<char>>,
    k: int,
)
    ensures
        forall|i: int|
            0 <= i < matches_from(list, pattern, file, module, k).len() ==> {
                let m = #[trigger] matches_from(list, pattern, file, module, k)[i];
                m.0 == sort_key(m.1, pattern, file, module) && !(quality(m.1, pattern) is Other)
                    && list.contains(m.1)
            },
    decreases list.len() - k,
{
    if 0 <= k < list.len() {
        lemma_keys(list, pattern, file, module, k + 1);
        let rest = matches_from(list, pattern, file, module, k + 1);
        let all = matches_from(list, pattern, file, module, k);
        assert forall|i: int| 0 <= i < all.len() implies {
            let m = #[trigger] all[i];
            m.0 == sort_key(m.1, pattern, file, module) && !(quality(m.1, pattern) is Other)
                && list.contains(m.1)
        } by {
            if all.len() == rest.len() {
                assert(all[i] == rest[i]);
            } else if i > 0 {
                assert(all[i] == rest[i - 1]);
            } else {
                assert(list[k] == all[0].1);
            }
        }
    }
}

proof fn lemma_keys_ordered()
    ensures
        orders(|a: (KeyView, ItemView), b: (KeyView, ItemView)| match_before(a, b)),
{
    super::rank::lemma_matches_ordered();
}

/// What is shown first has the key that stands before.
proof fn lemma_shown_keys(
    list: Seq<ItemView>,
    pattern: Seq<char>,
    file: Option<Seq<char>>,
    module: Option<Seq<char>>,
    i: int,
    j: int,
)
    requires
        0 <= i < j < live_ranked(list, pattern, file, module).len(),
    ensures
        key_before(
            sort_key(live_ranked(list, pattern, file, module)[i], pattern, file, module),
            sort_key(live_ranked(list, pattern, file, module)[j], pattern, file, module),
        ),
{
    let shown = live_ranked(list, pattern, file, module);
    let found = matches_from(list, pattern, file, module, 0);
    let before = |a: (KeyView, ItemView), b: (KeyView, ItemView)| match_before(a, b);
    let all = sorted_by(found, before);
    shown_matches_come_best_first(list, pattern, file, module, i, j);
    lemma_keys_ordered();
    let order = sorting_puts_in_order(found, before);
    lemma_keys(list, pattern, file, module, 0);
    let (p, q) = choose|p: int, q: int| #[trigger]
        shows_match(shown, all, i, p) && #[trigger] shows_match(shown, all, j, q) && p < q
            && key_before(all[p].0, all[q].0);
    assert(all[p] == found[order[p]]);
    assert(all[q] == found[order[q]]);
    lemma_marks_keep_key(all[p].0, all[p].1, p, pattern, file, module);
    lemma_marks_keep_key(all[q].0, all[q].1, q, pattern, file, module);
}

/// Matches are shown by how near they are to what was asked for. Of matches that are equally near,
/// those of the project come before those of the engine, and these before the rest. Among those of
/// one source, what stands in the file that is edited comes before what stands in its module, that
/// before the rest, and the sources of others come last. After that types come first, and in the end
/// names and paths in their order.
pub proof fn matches_are_shown_in_order(
    list: Seq<ItemView>,
    pattern: Seq<char>,
    file: Option<Seq<char>>,
    module: Option<Seq<char>>,
    i: int,
    j: int,
)
    requires
        0 <= i < j < live_ranked(list, pattern, file, module).len(),
    ensures
        ({
            let a = live_ranked(list, pattern, file, module)[i];
            let b = live_ranked(list, pattern, file, module)[j];
            let same_quality = quality(a, pattern) == quality(b, pattern);
            let same_source = text_at(a, "source"@) == text_at(b, "source"@);
            &&& distance(quality(a, pattern)) <= distance(quality(b, pattern))
            &&& same_quality && from_project(b) ==> from_project(a)
            &&& same_quality && from_engine(b) ==> from_project(a) || from_engine(a)
            &&& same_quality && same_source && in_file(b, file) ==> in_file(a, file)
            &&& same_quality && same_source && in_module(b, module) ==> in_file(a, file)
                || in_module(a, module)
            &&& same_quality && same_source && among_others(a) && !in_file(a, file) && !in_module(
                a,
                module,
            ) ==> among_others(b) && !in_file(b, file) && !in_module(b, module)
        }),
{
    reveal_strlit("project");
    reveal_strlit("engine");
    assert("project"@[0] == 'p' && "engine"@[0] == 'e');
    lemma_shown_keys(list, pattern, file, module, i, j);
}

/// Of two matches that are equally near, of one source and both outside the file and the module that
/// are edited and outside the sources of others, a type comes first. Of two such types the names, and
/// of one name the paths, stand in their order.
pub proof fn types_are_shown_first(
    list: Seq<ItemView>,
    pattern: Seq<char>,
    file: Option<Seq<char>>,
    module: Option<Seq<char>>,
    i: int,
    j: int,
)
    requires
        0 <= i < j < live_ranked(list, pattern, file, module).len(),
        ({
            let a = live_ranked(list, pattern, file, module)[i];
            let b = live_ranked(list, pattern, file, module)[j];
            &&& quality(a, pattern) == quality(b, pattern)
            &&& text_at(a, "source"@) == text_at(b, "source"@)
            &&& !in_file(a, file) && !in_file(b, file)
            &&& !in_module(a, module) && !in_module(b, module)
            &&& !among_others(a) && !among_others(b)
        }),
    ensures
        ({
            let a = live_ranked(list, pattern, file, module)[i];
            let b = live_ranked(list, pattern, file, module)[j];
            let x = text::lower(text_at(a, "name"@));
            let y = text::lower(text_at(b, "name"@));
            let p = text::lower(path_at(a));
            let q = text::lower(path_at(b));
            &&& is_type(b) ==> is_type(a)
            &&& text::lower(text_at(a, "type"@)) == "text"@ ==> text::lower(text_at(b, "type"@))
                == "text"@
            &&& is_type(a) && is_type(b) ==> text::less(x, y) || (x == y && (text::less(p, q) || (p
                == q && int_or(as_int(field_of(a, "line"@)), 1) <= int_or(
                as_int(field_of(b, "line"@)),
                1,
            ))))
        }),
{
    lemma_shown_keys(list, pattern, file, module, i, j);
    lemma_kinds(live_ranked(list, pattern, file, module)[i]);
    lemma_kinds(live_ranked(list, pattern, file, module)[j]);
}

/// Only types rank as types, and only lines of text as text.
proof fn lemma_kinds(item: ItemView)
    ensures
        super::rank::kind_rank(item) == 0 <==> is_type(item),
        super::rank::kind_rank(item) == 5 <==> text::lower(text_at(item, "type"@)) == "text"@,
{
    reveal_strlit("class");
    reveal_strlit("struct");
    reveal_strlit("enum");
    reveal_strlit("uclass");
    reveal_strlit("ustruct");
    reveal_strlit("uenum");
    reveal_strlit("uinterface");
    reveal_strlit("define");
    reveal_strlit("delegate");
    reveal_strlit("event");
    reveal_strlit("file");
    reveal_strlit("function");
    reveal_strlit("method");
    reveal_strlit("text");
    let kind = text::lower(text_at(item, "type"@));
    if kind == "text"@ {
        assert(kind.len() == 4 && kind[0] == 't');
        assert("file"@[0] == 'f');
        assert(!text::has(kind, "delegate"@));
        assert(!text::has(kind, "event"@));
        assert(!text::has(kind, "function"@));
        assert(!text::has(kind, "method"@));
        assert("enum"@[0] == 'e');
    }
}

/// What is shown says how near it is and where it stood in the order, and is one of the items
/// otherwise unchanged, which matches.
pub proof fn shown_matches_are_marked(
    list: Seq<ItemView>,
    pattern: Seq<char>,
    file: Option<Seq<char>>,
    module: Option<Seq<char>>,
    i: int,
)
    requires
        0 <= i < live_ranked(list, pattern, file, module).len(),
    ensures
        ({
            let a = live_ranked(list, pattern, file, module)[i];
            let label = text_at(a, "match_quality"@);
            &&& !(quality(a, pattern) is Other)
            &&& quality(a, pattern) is ExactSymbol ==> label == "exact_symbol"@
            &&& quality(a, pattern) is PrefixSymbol ==> label == "prefix_symbol"@
            &&& quality(a, pattern) is NormalizedSymbol ==> label == "normalized_symbol"@
            &&& quality(a, pattern) is FileNameMatch ==> label == "file_name_match"@
            &&& quality(a, pattern) is OwnerClassMatch ==> label == "owner_class_match"@
            &&& quality(a, pattern) is TextMatch ==> label == "text_match"@
            &&& exists|x: ItemView| #[trigger]
                list.contains(x) && marked_of(a, x)
        }),
{
    let found = matches_from(list, pattern, file, module, 0);
    let before = |a: (KeyView, ItemView), b: (KeyView, ItemView)| match_before(a, b);
    let all = sorted_by(found, before);
    lemma_keys_ordered();
    let order = sorting_puts_in_order(found, before);
    lemma_keys(list, pattern, file, module, 0);
    super::rank::lemma_shown_place(all, 0, i);
    let p = super::rank::shown_place(all, 0, i);
    let a = live_ranked(list, pattern, file, module)[i];
    let x = all[p].1;
    assert(all[p] == found[order[p]]);
    lemma_marks_keep_key(all[p].0, x, p, pattern, file, module);
    assert forall|f: Seq<char>| f != "match_quality"@ && f != "backend_rank"@ implies field_of(a, f)
        == #[trigger] field_of(x, f) by {
        lemma_marks_keep(all[p].0, x, p, f);
    }
    let q = FieldView::Text(super::rank::quality_label(all[p].0.quality));
    let n = FieldView::Int(p as i64);
    reveal_strlit("match_quality");
    reveal_strlit("backend_rank");
    assert("match_quality"@[0] == 'm' && "backend_rank"@[0] == 'b');
    set_field_is_read_back(x, "match_quality"@, q, "match_quality"@);
    set_field_is_read_back(with_field(x, "match_quality"@, q), "backend_rank"@, n, "match_quality"@);
    assert(list.contains(x) && marked_of(a, x));
}

/// The first is the second with the marks of a match.
pub open spec fn marked_of(a: ItemView, x: ItemView) -> bool {
    forall|f: Seq<char>|
        f != "match_quality"@ && f != "backend_rank"@ ==> field_of(a, f) == #[trigger] field_of(x, f)
}

/// Every item that matches is shown, or one that is the same item.
pub proof fn all_matches_are_shown(
    list: Seq<ItemView>,
    pattern: Seq<char>,
    file: Option<Seq<char>>,
    module: Option<Seq<char>>,
    k: int,
)
    requires
        0 <= k < list.len(),
        !(quality(list[k], pattern) is Other),
    ensures
        exists|i: int|
            0 <= i < live_ranked(list, pattern, file, module).len() && live_identity(
                #[trigger] live_ranked(list, pattern, file, module)[i],
            ) == live_identity(list[k]),
{
    let found = matches_from(list, pattern, file, module, 0);
    let before = |a: (KeyView, ItemView), b: (KeyView, ItemView)| match_before(a, b);
    let all = sorted_by(found, before);
    lemma_keys_ordered();
    let order = sorting_puts_in_order(found, before);
    lemma_match_found(list, pattern, file, module, 0, k);
    let m = (sort_key(list[k], pattern, file, module), list[k]);
    assert(all.contains(m));
    let p = choose|p: int| 0 <= p < all.len() && all[p] == m;
    lemma_identity_shown(all, 0, p);
    let shown = live_ranked(list, pattern, file, module);
    assert(shown == labelled_from(all, 0));
    let i = choose|i: int|
        0 <= i < labelled_from(all, 0).len() && live_identity(#[trigger] labelled_from(all, 0)[i])
            == live_identity(all[p].1);
    assert(live_identity(shown[i]) == live_identity(list[k]));
}

proof fn lemma_match_found(
    list: Seq<ItemView>,
    pattern: Seq<char>,
    file: Option<Seq<char>>,
    module: Option<Seq<char>>,
    from: int,
    k: int,
)
    requires
        0 <= from <= k < list.len(),
        !(quality(list[k], pattern) is Other),
    ensures
        matches_from(list, pattern, file, module, from).contains(
            (sort_key(list[k], pattern, file, module), list[k]),
        ),
    decreases k - from,
{
    let all = matches_from(list, pattern, file, module, from);
    let m = (sort_key(list[k], pattern, file, module), list[k]);
    if from < k {
        lemma_match_found(list, pattern, file, module, from + 1, k);
        let rest = matches_from(list, pattern, file, module, from + 1);
        let i = choose|i: int| 0 <= i < rest.len() && rest[i] == m;
        if all.len() == rest.len() {
            assert(all[i] == m);
        } else {
            assert(all[i + 1] == m);
        }
    } else {
        assert(all[0] == m);
    }
}

proof fn lemma_identity_shown(all: Seq<(KeyView, ItemView)>, from: int, p: int)
    requires
        0 <= from <= p < all.len(),
        !like_before(all, live_identity(all[p].1), from),
    ensures
        exists|i: int|
            0 <= i < labelled_from(all, from).len() && live_identity(
                #[trigger] labelled_from(all, from)[i],
            ) == live_identity(all[p].1),
    decreases p - from,
{
    let shown = labelled_from(all, from);
    let id = live_identity(all[p].1);
    if live_identity(all[from].1) == id {
        super::rank::labels_keep_identity(all[from].0, all[from].1, from);
        assert(live_identity(shown[0]) == id);
    } else {
        assert(!like_before(all, id, from + 1)) by {
            if like_before(all, id, from + 1) {
                let w = choose|w: int| 0 <= w < from + 1 && live_identity((#[trigger] all[w]).1) == id;
                if w < from {
                    assert(like_before(all, id, from));
                }
            }
        }
        lemma_identity_shown(all, from + 1, p);
        let rest = labelled_from(all, from + 1);
        let i = choose|i: int| 0 <= i < rest.len() && live_identity(#[trigger] rest[i]) == id;
        if like_before(all, live_identity(all[from].1), from) {
            assert(shown[i] == rest[i]);
        } else {
            assert(shown[i + 1] == rest[i]);
        }
    }
}

/// A symbol whose name begins with the query matches better than by the name of its file, its owner
/// or its text; one whose name holds it at least as well as one that is found by its name at all. A
/// line of text matches as text. What holds the query nowhere does not match.
pub proof fn names_match_better_than_places(item: ItemView, pattern: Seq<char>)
    ensures
        ({
            let query = text::lower(text::trimmed(pattern));
            let kind = text::lower(text_at(item, "type"@));
            let name = text::lower(text_at(item, "name"@));
            let symbol = kind != "text"@ && kind != "file"@;
            &&& kind == "text"@ ==> quality(item, pattern) is TextMatch
            &&& symbol && query.len() > 0 && text::starts(name, query) ==> distance(
                quality(item, pattern),
            ) <= 1
            &&& symbol && name == query ==> quality(item, pattern) is ExactSymbol
            &&& quality(item, pattern) is PrefixSymbol ==> text::starts(name, query) && name != query
            &&& kind == "file"@ && !(quality(item, pattern) is ExactSymbol) ==> quality(
                item,
                pattern,
            ) is FileNameMatch
            &&& quality(item, pattern) is OwnerClassMatch ==> text::has(
                text::lower(text_at(item, "class_name"@)),
                query,
            )
            &&& quality(item, pattern) is Other ==> query.len() == 0 || !text::has(
                text::lower(path_at(item)),
                query,
            ) && !text::has(text::lower(text_at(item, "class_name"@)), query)
        }),
{
    reveal_strlit("file");
    reveal_strlit("text");
    reveal_strlit("class");
    reveal_strlit("struct");
    reveal_strlit("enum");
    reveal_strlit("uclass");
    reveal_strlit("ustruct");
    reveal_strlit("uenum");
    reveal_strlit("uinterface");
    assert("file"@[0] == 'f' && "text"@[0] == 't' && "enum"@[0] == 'e');
}

// ---------------------------------------------------------------------------
// Types
// ---------------------------------------------------------------------------
/// Of the results of a search for types, one that has the name that was asked for comes before one
/// that only begins with it, that before one that only holds it, and that before one that is found by
/// its owner, its module or its path; results that are found in the same way come in the order of
/// their names.
pub proof fn types_are_listed_in_order(list: Seq<ItemView>, pattern: Seq<char>, i: int, j: int)
    requires
        0 <= i < j < class_ranked(list, pattern).len(),
        text::lower(text::trimmed(pattern)).len() > 0,
    ensures
        ({
            let query = text::lower(text::trimmed(pattern));
            let x = text::lower(text_at(class_ranked(list, pattern)[i], "name"@));
            let y = text::lower(text_at(class_ranked(list, pattern)[j], "name"@));
            &&& y == query ==> x == query
            &&& text::starts(y, query) ==> x == query || text::starts(x, query)
            &&& text::has(y, query) ==> x == query || text::starts(x, query) || text::has(x, query)
            &&& x != query && y != query && text::starts(x, query) && text::starts(y, query)
                ==> text::less(x, y) || x == y
        }),
{
    class_results_come_best_first(list, pattern);
    let a = class_ranked(list, pattern)[i];
    let b = class_ranked(list, pattern)[j];
    assert(super::rank::class_rank_before(class_rank(a, pattern), class_rank(b, pattern)));
}

/// The number of good matches is that of the results marked as such.
pub proof fn good_matches_are_counted(list: Seq<ItemView>, upto: int)
    requires
        0 <= upto < list.len(),
    ensures
        good_matches(list, upto + 1) == good_matches(list, upto) + if text_at(
            list[upto],
            "match_quality"@,
        ) == "exact_symbol"@ || text_at(list[upto], "match_quality"@) == "prefix_symbol"@
            || text_at(list[upto], "match_quality"@) == "normalized_symbol"@ {
            1nat
        } else {
            0nat
        },
        good_matches(list, 0) == 0,
{
}

} // verus!
