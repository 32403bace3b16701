//! What a search asks for and shows, and how its texts are written into queries.
use vstd::prelude::*;

use super::bucket::{
    anywhere, begun, exact_query, fuzzy_file_params, fuzzy_files, fuzzy_symbol_params, fuzzy_symbols,
    next_sql, prefix_query, search_text, with_ids, with_rows, BucketView, ParamView, Stage,
};
use super::item::{merging_adds_new_items_only, page, text_at, ItemView, Likeness};
use super::pattern::{
    class_like, compact, file_fts_query, fts_terms, identifier, like_escaped, quoted, symbol_fts_query,
    tokens, type_query, within,
};
use super::search::{
    answered, beside_exact_type, find_begun, shown, shown_beside_from, suppressed, symbol_group,
    symbols_come_in_groups, FindKind, FindStep, FindView,
};
use crate::text;

verus! {

// ---------------------------------------------------------------------------
// Texts in queries
// ---------------------------------------------------------------------------
/// What a LIKE pattern means whose escape character is the backslash: the text that it stands for,
/// or nothing where a sign in it stands for more than itself.
pub open spec fn like_read(s: Seq<char>) -> Option<Seq<char>>
    decreases s.len(),
{
    if s.len() == 0 {
        Some(Seq::empty())
    } else if s[0] == '\\' {
        if s.len() < 2 {
            None
        } else {
            match like_read(s.subrange(2, s.len() as int)) {
                Some(rest) => Some(seq![s[1]] + rest),
                None => None,
            }
        }
    } else if s[0] == '%' || s[0] == '_' {
        None
    } else {
        match like_read(s.subrange(1, s.len() as int)) {
            Some(rest) => Some(seq![s[0]] + rest),
            None => None,
        }
    }
}

/// One character of a text, as it is written.
spec fn like_char(c: char) -> Seq<char> {
    if c == '\\' || c == '%' || c == '_' {
        seq!['\\', c]
    } else {
        seq![c]
    }
}

proof fn lemma_replaced_sum(a: Seq<char>, b: Seq<char>, x: char, with: Seq<char>)
    ensures
        text::replaced_char(a + b, x, with) == text::replaced_char(a, x, with)
            + text::replaced_char(b, x, with),
    decreases b.len(),
{
    if b.len() == 0 {
        assert(a + b =~= a);
        assert(text::replaced_char(a, x, with) + b =~= text::replaced_char(a, x, with));
    } else {
        let s = a + b;
        assert(s.drop_last() =~= a + b.drop_last());
        assert(s.last() == b.last());
        lemma_replaced_sum(a, b.drop_last(), x, with);
        assert(text::replaced_char(s, x, with) =~= text::replaced_char(a, x, with)
            + text::replaced_char(b, x, with));
    }
}

proof fn lemma_replaced_one(c: char, x: char, with: Seq<char>)
    ensures
        text::replaced_char(seq![c], x, with) == if c == x {
            with
        } else {
            seq![c]
        },
{
    reveal_with_fuel(text::replaced_char, 2);
    assert(seq![c].drop_last() =~= Seq::<char>::empty());
    assert(Seq::<char>::empty() + with =~= with);
    assert(Seq::<char>::empty().push(c) =~= seq![c]);
}

proof fn lemma_like_char(c: char)
    ensures
        like_escaped(seq![c]) == like_char(c),
{
    reveal_strlit("\\\\");
    reveal_strlit("\\%");
    reveal_strlit("\\_");
    let back = "\\\\"@;
    assert(back =~= seq!['\\', '\\'] && back =~= seq!['\\'] + seq!['\\']);
    assert("\\%"@ =~= seq!['\\', '%'] && "\\%"@ =~= seq!['\\'] + seq!['%']);
    assert("\\_"@ =~= seq!['\\', '_']);
    lemma_replaced_one(c, '\\', back);
    lemma_replaced_one(c, '%', "\\%"@);
    lemma_replaced_one(c, '_', "\\_"@);
    lemma_replaced_one('\\', '%', "\\%"@);
    lemma_replaced_one('\\', '_', "\\_"@);
    lemma_replaced_one('%', '_', "\\_"@);
    lemma_replaced_sum(seq!['\\'], seq!['\\'], '%', "\\%"@);
    lemma_replaced_sum(seq!['\\'], seq!['\\'], '_', "\\_"@);
    lemma_replaced_sum(seq!['\\'], seq!['%'], '_', "\\_"@);
}

proof fn lemma_like_sum(a: Seq<char>, b: Seq<char>)
    ensures
        like_escaped(a + b) == like_escaped(a) + like_escaped(b),
{
    let f = "\\\\"@;
    let g = "\\%"@;
    lemma_replaced_sum(a, b, '\\', f);
    let a1 = text::replaced_char(a, '\\', f);
    let b1 = text::replaced_char(b, '\\', f);
    lemma_replaced_sum(a1, b1, '%', g);
    lemma_replaced_sum(
        text::replaced_char(a1, '%', g),
        text::replaced_char(b1, '%', g),
        '_',
        "\\_"@,
    );
}

/// A text that is escaped for a LIKE pattern stands there for itself, whatever signs it holds.
pub proof fn escaped_text_means_itself(s: Seq<char>)
    ensures
        like_read(like_escaped(s)) == Some(s),
    decreases s.len(),
{
    if s.len() == 0 {
        reveal_with_fuel(text::replaced_char, 1);
        assert(like_escaped(s) =~= s);
        assert(s =~= Seq::<char>::empty());
    } else {
        let rest = s.subrange(1, s.len() as int);
        assert(s =~= seq![s[0]] + rest);
        lemma_like_sum(seq![s[0]], rest);
        lemma_like_char(s[0]);
        escaped_text_means_itself(rest);
        let e = like_escaped(s);
        let first = like_char(s[0]);
        assert(e == first + like_escaped(rest));
        assert(e.subrange(first.len() as int, e.len() as int) =~= like_escaped(rest));
        assert(seq![s[0]] + rest =~= s);
    }
}

/// What a term in quotes means, where a quote is written twice: the text between the quotes.
pub open spec fn quotes_read(s: Seq<char>) -> Option<Seq<char>>
    decreases s.len(),
{
    if s.len() == 0 {
        Some(Seq::empty())
    } else if s[0] == '"' {
        if s.len() < 2 || s[1] != '"' {
            None
        } else {
            match quotes_read(s.subrange(2, s.len() as int)) {
                Some(rest) => Some(seq!['"'] + rest),
                None => None,
            }
        }
    } else {
        match quotes_read(s.subrange(1, s.len() as int)) {
            Some(rest) => Some(seq![s[0]] + rest),
            None => None,
        }
    }
}

proof fn lemma_quotes(s: Seq<char>)
    ensures
        quotes_read(text::replaced_char(s, '"', "\"\""@)) == Some(s),
    decreases s.len(),
{
    reveal_strlit("\"\"");
    let two = "\"\""@;
    if s.len() == 0 {
        assert(s =~= Seq::<char>::empty());
    } else {
        let rest = s.subrange(1, s.len() as int);
        assert(s =~= seq![s[0]] + rest);
        lemma_replaced_sum(seq![s[0]], rest, '"', two);
        lemma_replaced_one(s[0], '"', two);
        lemma_quotes(rest);
        let e = text::replaced_char(s, '"', two);
        let first = text::replaced_char(seq![s[0]], '"', two);
        assert(e.subrange(first.len() as int, e.len() as int) =~= text::replaced_char(
            rest,
            '"',
            two,
        ));
        assert(seq![s[0]] + rest =~= s);
    }
}

/// A term in quotes is one term, and means its text, whatever quotes it holds.
pub proof fn quoted_term_means_its_text(s: Seq<char>)
    ensures
        quoted(s).len() >= 2,
        quoted(s)[0] == '"' && quoted(s).last() == '"',
        quotes_read(quoted(s).subrange(1, quoted(s).len() - 1)) == Some(s),
{
    reveal_strlit("\"");
    let inner = text::replaced_char(s, '"', "\"\""@);
    assert(quoted(s).subrange(1, quoted(s).len() - 1) =~= inner);
    lemma_quotes(s);
}

/// The compacted text of two is that of one behind that of the other; case and signs do not matter.
pub proof fn compacting_goes_by_letters(a: Seq<char>, b: Seq<char>)
    ensures
        compact(a + b) == compact(a) + compact(b),
        compact(text::lower(a)) == compact(a),
        (forall|i: int|
            0 <= i < a.len() ==> 'a' <= #[trigger] a[i] <= 'z' || '0' <= a[i] <= '9') ==> compact(a)
            == a,
        (forall|i: int|
            0 <= i < a.len() ==> #[trigger] a[i] == '_' || a[i] == ':' || a[i] == ' ') ==> compact(
            a,
        ).len() == 0,
{
    lemma_compact_sum(a, b, b.len() as int);
    assert((a + b).take((a.len() + b.len()) as int) =~= a + b);
    lemma_compact_lower(a, a.len() as int);
    if forall|i: int| 0 <= i < a.len() ==> 'a' <= #[trigger] a[i] <= 'z' || '0' <= a[i] <= '9' {
        lemma_compact_same(a, a.len() as int);
        assert(a.take(a.len() as int) =~= a);
    }
    if forall|i: int| 0 <= i < a.len() ==> #[trigger] a[i] == '_' || a[i] == ':' || a[i] == ' ' {
        lemma_compact_none(a, a.len() as int);
    }
}

proof fn lemma_compact_sum(a: Seq<char>, b: Seq<char>, upto: int)
    requires
        0 <= upto <= b.len(),
    ensures
        super::pattern::compact_upto(a + b, a.len() + upto) == compact(a)
            + super::pattern::compact_upto(b, upto),
    decreases upto,
{
    let s = a + b;
    if upto == 0 {
        lemma_compact_front(a, b, a.len() as int);
        assert(compact(a) + Seq::<char>::empty() =~= compact(a));
    } else {
        lemma_compact_sum(a, b, upto - 1);
        assert(s[a.len() + upto - 1] == b[upto - 1]);
        assert(super::pattern::compact_upto(s, a.len() + upto) =~= compact(a)
            + super::pattern::compact_upto(b, upto));
    }
}

proof fn lemma_compact_front(a: Seq<char>, b: Seq<char>, upto: int)
    requires
        0 <= upto <= a.len(),
    ensures
        super::pattern::compact_upto(a + b, upto) == super::pattern::compact_upto(a, upto),
    decreases upto,
{
    if upto > 0 {
        lemma_compact_front(a, b, upto - 1);
        assert((a + b)[upto - 1] == a[upto - 1]);
    }
}

proof fn lemma_compact_lower(a: Seq<char>, upto: int)
    requires
        0 <= upto <= a.len(),
    ensures
        super::pattern::compact_upto(text::lower(a), upto) == super::pattern::compact_upto(a, upto),
    decreases upto,
{
    if upto > 0 {
        lemma_compact_lower(a, upto - 1);
        let c = a[upto - 1];
        crate::text_laws::capitals_become_small(c);
        crate::text_laws::capitals_become_small(text::lower_char(c));
        assert(text::lower(a)[upto - 1] == text::lower_char(c));
    }
}

proof fn lemma_compact_same(a: Seq<char>, upto: int)
    requires
        0 <= upto <= a.len(),
        forall|i: int| 0 <= i < a.len() ==> 'a' <= #[trigger] a[i] <= 'z' || '0' <= a[i] <= '9',
    ensures
        super::pattern::compact_upto(a, upto) == a.take(upto),
    decreases upto,
{
    if upto > 0 {
        lemma_compact_same(a, upto - 1);
        assert(a[upto - 1] == a[upto - 1]);
        assert(a.take(upto - 1).push(a[upto - 1]) =~= a.take(upto));
    } else {
        assert(a.take(0) =~= Seq::<char>::empty());
    }
}

proof fn lemma_compact_none(a: Seq<char>, upto: int)
    requires
        0 <= upto <= a.len(),
        forall|i: int| 0 <= i < a.len() ==> #[trigger] a[i] == '_' || a[i] == ':' || a[i] == ' ',
    ensures
        super::pattern::compact_upto(a, upto).len() == 0,
    decreases upto,
{
    if upto > 0 {
        lemma_compact_none(a, upto - 1);
        assert(a[upto - 1] == '_' || a[upto - 1] == ':' || a[upto - 1] == ' ');
    }
}

/// A limit that is kept within bounds is the limit where it lies in them, else the nearer bound.
pub proof fn limits_are_kept_within_bounds(n: usize, low: usize, high: usize)
    requires
        low <= high,
    ensures
        low <= within(n, low, high) <= high,
        low <= n <= high ==> within(n, low, high) == n,
        n < low ==> within(n, low, high) == low,
        n > high ==> within(n, low, high) == high,
{
}

// ---------------------------------------------------------------------------
// Stages
// ---------------------------------------------------------------------------
/// The number of rows that a query asks for at most, which is its last value.
pub open spec fn most_rows(v: BucketView) -> Option<i64> {
    match next_sql(v) {
        Some(q) => match q.params.last() {
            ParamView::Integer(n) => Some(n),
            _ => None,
        },
        None => None,
    }
}

/// A search asks for exact names first, then for beginnings of names; while it wants more, it goes
/// on, and asks for what is missing only.
pub proof fn exact_names_are_asked_for_first(
    of_files: bool,
    class_only: bool,
    path_cte: Seq<char>,
    pattern: Seq<char>,
    limit: usize,
    rows: Seq<ItemView>,
)
    requires
        text::trimmed(pattern).len() > 0,
        1 <= limit <= 10_000,
    ensures
        ({
            let v = begun(of_files, class_only, path_cte, pattern, limit);
            let w = with_rows(v, rows);
            &&& v.stage == Stage::Exact && v.found.len() == 0
            &&& most_rows(v) == Some(limit as i64)
            &&& w.stage == Stage::Prefix <==> w.found.len() < limit
            &&& w.stage == Stage::Done <==> w.found.len() >= limit
            &&& w.stage == Stage::Prefix ==> most_rows(w) == Some((limit - w.found.len()) as i64)
        }),
{
    let v = begun(of_files, class_only, path_cte, pattern, limit);
    let w = with_rows(v, rows);
    assert(exact_query(v).params.last() == ParamView::Integer(limit as i64));
    assert(w.stage == Stage::Prefix ==> prefix_query(w).params.last() == ParamView::Integer(
        (limit - w.found.len()) as i64,
    ));
}

/// Candidates are ranked where the store named some, and what was found stays.
pub proof fn named_candidates_are_ranked(v: BucketView, ids: Seq<i64>)
    requires
        v.stage == Stage::Candidates,
    ensures
        with_ids(v, ids).stage == Stage::Ranked <==> ids.len() > 0,
        with_ids(v, ids).stage == Stage::Done <==> ids.len() == 0,
        with_ids(v, ids).found == v.found,
        with_ids(v, ids).ids == ids,
{
}

// ---------------------------------------------------------------------------
// Results
// ---------------------------------------------------------------------------
/// The results of a search for symbols show names that are the pattern before all others, and names
/// that begin with it before all but those.
pub proof fn exact_names_are_shown_first(v: FindView, rows: Seq<ItemView>, i: int, j: int)
    requires
        v.kind == FindKind::Symbols,
        v.step == FindStep::Symbols,
        0 <= i < j < rows.len(),
    ensures
        ({
            let r = answered(v, rows).results;
            let q = text::lower(text::trimmed(v.pattern));
            let first = text::lower(text_at(r[i], "name"@));
            let second = text::lower(text_at(r[j], "name"@));
            &&& second == q ==> first == q
            &&& text::starts(second, q) ==> text::starts(first, q)
            &&& text::has(second, q) && !identifier(text::trimmed(v.pattern)) ==> text::has(first, q)
        }),
{
    symbols_come_in_groups(v, rows);
    let r = answered(v, rows).results;
    let q = text::lower(text::trimmed(v.pattern));
    let first = text::lower(text_at(r[i], "name"@));
    assert(symbol_group(r[i], v.pattern) <= symbol_group(r[j], v.pattern));
    if first == q {
        assert(first.subrange(0, q.len() as int) =~= q);
    }
    if text::starts(first, q) {
        assert(text::occurs_at(first, q, 0));
    }
    let second = text::lower(text_at(r[j], "name"@));
    if text::starts(second, q) {
        assert(text::occurs_at(second, q, 0));
    }
}

/// The kind is one of types.
pub open spec fn of_type(item: ItemView) -> bool {
    let kind = text_at(item, "type"@);
    kind == "class"@ || kind == "struct"@ || kind == "enum"@ || kind == "UCLASS"@ || kind
        == "USTRUCT"@ || kind == "UENUM"@ || kind == "UINTERFACE"@
}

proof fn lemma_beside(list: Seq<ItemView>, q: Seq<char>, k: int, x: ItemView)
    requires
        0 <= k <= list.len(),
    ensures
        shown_beside_from(list, q, k).contains(x) <==> beside_exact_type(x, q) && exists|i: int|
            k <= i < list.len() && #[trigger] list[i] == x,
    decreases list.len() - k,
{
    if k < list.len() {
        lemma_beside(list, q, k + 1, x);
        let rest = shown_beside_from(list, q, k + 1);
        let all = shown_beside_from(list, q, k);
        if beside_exact_type(list[k], q) {
            assert(all == seq![list[k]] + rest);
            if list[k] == x {
                assert(all[0] == x);
            }
            if rest.contains(x) {
                let i = choose|i: int| 0 <= i < rest.len() && rest[i] == x;
                assert(all[i + 1] == x);
            }
            if all.contains(x) {
                let i = choose|i: int| 0 <= i < all.len() && all[i] == x;
                if i > 0 {
                    assert(rest[i - 1] == x);
                }
            }
        }
    }
}

/// Where the pattern asks for a type and that type is among the results, what is shown bears its
/// name or is a file; else everything is shown.
pub proof fn other_names_give_way_to_the_type(list: Seq<ItemView>, pattern: Seq<char>, x: ItemView)
    ensures
        ({
            let q = text::trimmed(pattern);
            let found = type_query(q) && exists|i: int|
                0 <= i < list.len() && of_type(#[trigger] list[i]) && text::lower(
                    text_at(list[i], "name"@),
                ) == text::lower(q);
            &&& !found ==> suppressed(list, pattern) == list
            &&& found ==> (suppressed(list, pattern).contains(x) <==> list.contains(x) && (
            text::lower(text_at(x, "name"@)) == text::lower(q) || !of_type(x) && text::lower(
                text_at(x, "type"@),
            ) == text::lower("file"@)))
        }),
{
    let q = text::trimmed(pattern);
    crate::text_laws::lower_case_stays(q);
    let low = text::lower(q);
    lemma_beside(list, low, 0, x);
    assert forall|i: int| 0 <= i < list.len() implies #[trigger] of_type(list[i]) == class_like(
        text_at(list[i], "type"@),
    ) by {}
    if exists|i: int| 0 <= i < list.len() && super::search::exact_type(#[trigger] list[i], low) {
        let i = choose|i: int|
            0 <= i < list.len() && super::search::exact_type(#[trigger] list[i], low);
        assert(of_type(list[i]));
    }
    if exists|i: int|
        0 <= i < list.len() && of_type(#[trigger] list[i]) && text::lower(text_at(list[i], "name"@))
            == low {
        let i = choose|i: int|
            0 <= i < list.len() && of_type(#[trigger] list[i]) && text::lower(
                text_at(list[i], "name"@),
            ) == low;
        assert(super::search::exact_type(list[i], low));
    }
}

// ---------------------------------------------------------------------------
// Steps
// ---------------------------------------------------------------------------
/// A search for a name does not look among files, unless everything is searched; every other search
/// for more than symbols looks there next, and a search for symbols or types is over.
pub proof fn names_are_not_searched_among_files(v: FindView, rows: Seq<ItemView>)
    requires
        v.step == FindStep::Symbols,
    ensures
        ({
            let fast = v.kind == FindKind::Fast || v.kind == FindKind::IndexedFast;
            let global = v.kind == FindKind::IndexedGlobal;
            let w = answered(v, rows);
            &&& fast || global ==> (w.step == FindStep::Files <==> !identifier(v.pattern))
            &&& v.kind == FindKind::Global ==> w.step == FindStep::Files
            &&& v.kind == FindKind::Symbols || v.kind == FindKind::Classes || v.kind
                == FindKind::IndexedSymbols || v.kind == FindKind::IndexedClasses ==> w.step
                == FindStep::Done
        }),
{
}

/// A blank pattern lists all symbols, or all types where types are searched; any other is looked for
/// among the symbols, unless the index fills the page.
pub proof fn blank_patterns_list_everything(
    kind: FindKind,
    pattern: Seq<char>,
    limit: usize,
    offset: usize,
)
    requires
        1 <= limit <= 500,
        offset + limit <= 10_000,
    ensures
        ({
            let v = find_begun(kind, None, pattern, limit, offset);
            let types = kind == FindKind::Classes || kind == FindKind::IndexedClasses;
            let blank = text::trimmed(pattern).len() == 0;
            &&& v.step == FindStep::ListClasses <==> blank && types
            &&& v.step == FindStep::ListSymbols <==> blank && !types
            &&& v.step == FindStep::Symbols <==> !blank
            &&& v.limit == limit && v.offset == offset && v.target == offset + limit
            &&& v.results.len() == 0
        }),
{
}

// ---------------------------------------------------------------------------
// Pages
// ---------------------------------------------------------------------------
/// A page shows the results from its offset on, each in its place, as many as there are up to its
/// limit.
pub proof fn pages_show_results_in_place(list: Seq<ItemView>, offset: nat, limit: nat, i: int)
    ensures
        ({
            let p = page(list, offset, limit);
            &&& 0 <= i < limit && offset + i < list.len() ==> i < p.len() && p[i] == list[offset + i]
            &&& p.len() <= limit
            &&& p.len() > 0 ==> offset + p.len() <= list.len()
        }),
{
}

/// What a search shows is the page of its results that was asked for; a list is shown as it came.
pub proof fn searches_show_the_page_asked_for(v: FindView, i: int)
    ensures
        v.pattern.len() > 0 && 0 <= i < v.limit && v.offset + i < v.results.len() ==> i < shown(
            v,
        ).len() && shown(v)[i] == v.results[v.offset + i],
        v.pattern.len() == 0 ==> shown(v) == v.results,
{
    pages_show_results_in_place(v.results, v.offset as nat, v.limit as nat, i);
}

// ---------------------------------------------------------------------------
// How far a search goes
// ---------------------------------------------------------------------------
/// The pattern asks for a type, and one whose name holds it is among the items.
pub open spec fn type_is_there(list: Seq<ItemView>, pattern: Seq<char>) -> bool {
    let q = text::trimmed(pattern);
    type_query(q) && compact(q).len() > 0 && exists|i: int|
        0 <= i < list.len() && of_type(#[trigger] list[i]) && compact(
            text_at(list[i], "name"@),
        ).len() > 0 && text::has(compact(text_at(list[i], "name"@)), compact(q))
}

/// After the files, loose matches are looked for where the store has not found enough, unless the
/// type that was asked for is there; everything is searched on regardless of that.
pub proof fn loose_matches_are_a_last_resort(v: FindView, rows: Seq<ItemView>)
    requires
        v.step == FindStep::Files,
    ensures
        ({
            let w = answered(v, rows);
            w.step == FindStep::FuzzySymbols <==> w.stored.len() < v.store_target && (v.kind
                == FindKind::Global || !type_is_there(w.stored, v.pattern))
        }),
{
    let w = answered(v, rows);
    let stored = super::search::join(v.stored, rows, v.store_target);
    let q = text::trimmed(v.pattern);
    assert(super::search::strong_match(stored, v.pattern) == type_is_there(stored, v.pattern)) by {
        if super::search::strong_match(stored, v.pattern) {
            let i = choose|i: int|
                0 <= i < stored.len() && super::search::strong_type_match(
                    #[trigger] stored[i],
                    compact(q),
                );
            assert(of_type(stored[i]));
        }
        if type_is_there(stored, v.pattern) {
            let i = choose|i: int|
                0 <= i < stored.len() && of_type(#[trigger] stored[i]) && compact(
                    text_at(stored[i], "name"@),
                ).len() > 0 && text::has(compact(text_at(stored[i], "name"@)), compact(q));
            assert(super::search::strong_type_match(stored[i], compact(q)));
        }
    }
    assert(w.stored == stored);
}

/// Lines of code are looked at last, where everything is searched and the page is not full; every
/// other search is over with the loose matches.
pub proof fn lines_are_looked_at_last(v: FindView, rows: Seq<ItemView>)
    requires
        v.step == FindStep::FuzzyFiles,
    ensures
        ({
            let w = answered(v, rows);
            let everything = v.kind == FindKind::Global || v.kind == FindKind::IndexedGlobal;
            &&& w.step == FindStep::CodeText <==> everything && w.results.len() < v.target
            &&& w.step == FindStep::Done <==> !everything || w.results.len() >= v.target
        }),
{
}

/// The lines that are found join the results behind what was found before.
pub proof fn lines_join_the_results(v: FindView, rows: Seq<ItemView>)
    requires
        v.step == FindStep::CodeText,
        v.kind == FindKind::Global || v.kind == FindKind::IndexedGlobal,
    ensures
        answered(v, rows).step == FindStep::Done,
        answered(v, rows).results.len() >= v.results.len(),
        answered(v, rows).results.take(v.results.len() as int) == v.results,
        v.results.len() <= v.target ==> answered(v, rows).results.len() <= v.target,
{
    merging_adds_new_items_only(Likeness::Find, v.results, rows, 0, v.target as nat);
}

/// Candidates are looked for where a pattern is long enough, and more results are wanted: for a name
/// three letters or digits are.
pub proof fn candidates_need_three_letters(v: BucketView, rows: Seq<ItemView>)
    requires
        v.stage == Stage::Prefix,
        !v.of_files,
        text::trimmed(v.text.query_text) == v.text.query_text,
        identifier(v.text.query_text),
    ensures
        ({
            let w = with_rows(v, rows);
            let long = compact(v.text.query_text).len() >= 3;
            &&& w.stage == Stage::Candidates <==> w.found.len() < v.limit && long
            &&& w.stage == Stage::Done <==> w.found.len() >= v.limit || !long
        }),
{
}

// ---------------------------------------------------------------------------
// What is asked for
// ---------------------------------------------------------------------------
/// A text is looked for at the beginning of names: the pattern is the text, as it stands, and
/// anything behind it. The same goes for a name without the signs between its words.
pub proof fn beginnings_are_looked_for(pattern: Seq<char>)
    ensures
        ({
            let t = search_text(pattern);
            let q = text::trimmed(pattern);
            &&& t.query_text == q
            &&& t.query == text::lower(q)
            &&& t.identifier_query == identifier(q)
            &&& t.prefix_query.len() > 0 && t.prefix_query.last() == '%'
            &&& like_read(t.prefix_query.drop_last()) == Some(text::lower(q))
            &&& identifier(q) ==> t.compact_query == compact(q)
            &&& identifier(q) && compact(q).len() > 0 ==> t.compact_prefix_query.last() == '%'
                && like_read(t.compact_prefix_query.drop_last()) == Some(compact(q))
        }),
{
    let q = text::trimmed(pattern);
    let t = search_text(pattern);
    reveal_strlit("%");
    escaped_text_means_itself(text::lower(q));
    escaped_text_means_itself(compact(q));
    assert(t.prefix_query.drop_last() =~= like_escaped(text::lower(q)));
    if identifier(q) && compact(q).len() > 0 {
        assert(t.compact_prefix_query.drop_last() =~= like_escaped(compact(q)));
    }
}

/// A text is looked for anywhere in a name by the text, as it stands, with anything around it.
pub proof fn texts_are_looked_for_anywhere(s: Seq<char>)
    ensures
        anywhere(s).len() >= 2,
        anywhere(s)[0] == '%' && anywhere(s).last() == '%',
        like_read(anywhere(s).subrange(1, anywhere(s).len() - 1)) == Some(s),
{
    reveal_strlit("%");
    escaped_text_means_itself(s);
    assert(anywhere(s).subrange(1, anywhere(s).len() - 1) =~= like_escaped(s));
}

/// The full-text query for a name is one term: the name without the signs between its words.
pub proof fn names_are_one_term(pattern: Seq<char>)
    requires
        identifier(text::trimmed(pattern)),
        compact(text::trimmed(pattern)).len() >= 3,
    ensures
        ({
            let q = symbol_fts_query(pattern);
            &&& q is Some
            &&& q->0[0] == '"' && q->0.last() == '"'
            &&& quotes_read(q->0.subrange(1, q->0.len() - 1)) == Some(
                compact(text::trimmed(pattern)),
            )
        }),
{
    quoted_term_means_its_text(compact(text::trimmed(pattern)));
}

proof fn lemma_terms(list: Seq<Seq<char>>, k: int, x: Seq<char>)
    requires
        0 <= k <= list.len(),
    ensures
        fts_terms(list, k).contains(x) <==> exists|i: int|
            k <= i < list.len() && (#[trigger] list[i]).len() >= 3 && x == quoted(list[i]),
    decreases list.len() - k,
{
    if k < list.len() {
        lemma_terms(list, k + 1, x);
        let rest = fts_terms(list, k + 1);
        let all = fts_terms(list, k);
        if list[k].len() >= 3 {
            assert(all == seq![quoted(list[k])] + rest);
            if x == quoted(list[k]) {
                assert(all[0] == x);
            }
            if rest.contains(x) {
                let i = choose|i: int| 0 <= i < rest.len() && rest[i] == x;
                assert(all[i + 1] == x);
            }
            if all.contains(x) {
                let i = choose|i: int| 0 <= i < all.len() && all[i] == x;
                if i > 0 {
                    assert(rest[i - 1] == x);
                }
            }
        }
    }
}

/// The terms of a full-text query are the words of at least three characters, in quotes; without one
/// there is no query.
pub proof fn long_words_are_terms(pattern: Seq<char>, x: Seq<char>)
    ensures
        ({
            let list = tokens(text::trimmed(pattern));
            &&& fts_terms(list, 0).contains(x) <==> exists|i: int|
                0 <= i < list.len() && (#[trigger] list[i]).len() >= 3 && x == quoted(list[i])
            &&& file_fts_query(pattern) is None <==> forall|i: int|
                0 <= i < list.len() ==> (#[trigger] list[i]).len() < 3
        }),
{
    let list = tokens(text::trimmed(pattern));
    let terms = fts_terms(list, 0);
    lemma_terms(list, 0, x);
    if terms.len() > 0 {
        assert(terms.contains(terms[0]));
        lemma_terms(list, 0, terms[0]);
    }
    if exists|i: int| 0 <= i < list.len() && (#[trigger] list[i]).len() >= 3 {
        let i = choose|i: int| 0 <= i < list.len() && (#[trigger] list[i]).len() >= 3;
        lemma_terms(list, 0, quoted(list[i]));
        assert(terms.contains(quoted(list[i])));
    }
}

/// A loose search asks for every word: without words for nothing, else for between one and a
/// thousand rows, with the first word anywhere in the name.
pub proof fn loose_searches_ask_for_words(pattern: Seq<char>, cte: Seq<char>, limit: usize)
    requires
        1 <= limit <= 1000,
    ensures
        ({
            let list = tokens(pattern);
            &&& fuzzy_symbols(pattern, limit) is None <==> list.len() == 0
            &&& fuzzy_files(cte, pattern, limit) is None <==> list.len() == 0
            &&& list.len() > 0 ==> {
                let s = fuzzy_symbols(pattern, limit)->0.params;
                let f = fuzzy_files(cte, pattern, limit)->0.params;
                &&& s.last() == ParamView::Integer(limit as i64)
                &&& f.last() == ParamView::Integer(limit as i64)
                &&& s[0] == ParamView::Text(anywhere(compact(list[0])))
                &&& f[0] == ParamView::Text(anywhere(list[0])) && f[1] == f[0]
                &&& f.len() == 2 * list.len() + 1
                &&& s.len() == (if type_query(text::trimmed(pattern)) {
                    2 * list.len() + 1
                } else {
                    3 * list.len() + 1
                })
            }
        }),
{
    let list = tokens(pattern);
    let owners = !type_query(text::trimmed(pattern));
    lemma_symbol_params(list, owners, 0);
    lemma_file_params(list, 0);
}

proof fn lemma_symbol_params(list: Seq<Seq<char>>, owners: bool, k: int)
    requires
        0 <= k <= list.len(),
    ensures
        fuzzy_symbol_params(list, owners, k).len() == (list.len() - k) * (if owners {
            3int
        } else {
            2int
        }),
    decreases list.len() - k,
{
    if k < list.len() {
        lemma_symbol_params(list, owners, k + 1);
    }
}

proof fn lemma_file_params(list: Seq<Seq<char>>, k: int)
    requires
        0 <= k <= list.len(),
    ensures
        fuzzy_file_params(list, k).len() == (list.len() - k) * 2,
    decreases list.len() - k,
{
    if k < list.len() {
        lemma_file_params(list, k + 1);
    }
}

} // verus!
