//! Index of macro definitions for completion by prefix.
use vstd::prelude::*;

use crate::query::member_index::extends;
use crate::query::member_index::kept;
use crate::query::member_index::kept_opt;
use crate::query::member_index::text_in;
use crate::query::member_index::text_or_empty;
use crate::query::member_index::StrId;
use crate::query::member_index::StringPool;
use crate::text;

verus! {

/// Macro definitions in the order of their lower-case names.
pub struct MacroHotIndex {
    pool: StringPool,
    entries: Vec<MacroEntry>,
}

#[derive(Debug, Clone, Copy)]
struct MacroEntry {
    name: StrId,
    name_lc: StrId,
    parameters: StrId,
    detail: StrId,
    is_function_like: bool,
}

#[derive(Debug, Clone)]
pub struct MacroCandidate {
    pub name: String,
    pub parameters: Option<String>,
    pub detail: Option<String>,
    pub is_function_like: bool,
}

/// One macro definition.
pub struct MacroRow {
    pub name: String,
    pub is_function_like: bool,
    pub parameters: Option<String>,
    pub detail: Option<String>,
}

/// What a candidate says.
pub struct MacroView {
    pub name: Seq<char>,
    pub parameters: Option<Seq<char>>,
    pub detail: Option<Seq<char>>,
    pub is_function_like: bool,
}

impl MacroCandidate {
    pub open spec fn view(&self) -> MacroView {
        MacroView {
            name: self.name@,
            parameters: text::opt_text(self.parameters),
            detail: text::opt_text(self.detail),
            is_function_like: self.is_function_like,
        }
    }
}

pub open spec fn views(v: Seq<MacroCandidate>) -> Seq<MacroView> {
    v.map_values(|c: MacroCandidate| c.view())
}

/// The key by which a macro is ordered and found.
pub open spec fn key_of(name: Seq<char>) -> Seq<char> {
    text_or_empty(kept(text::lower(name)))
}

pub open spec fn row_view(row: MacroRow) -> MacroView {
    MacroView {
        name: text_or_empty(kept(row.name@)),
        parameters: kept_opt(text::opt_text(row.parameters)),
        detail: kept_opt(text::opt_text(row.detail)),
        is_function_like: row.is_function_like,
    }
}

/// The macros among the first `upto` whose key begins with `prefix`.
pub open spec fn with_prefix(
    keys: Seq<Seq<char>>,
    macros: Seq<MacroView>,
    prefix: Seq<char>,
    upto: int,
) -> Seq<MacroView>
    decreases upto,
{
    if upto <= 0 {
        Seq::empty()
    } else if text::starts(keys[upto - 1], prefix) {
        with_prefix(keys, macros, prefix, upto - 1).push(macros[upto - 1])
    } else {
        with_prefix(keys, macros, prefix, upto - 1)
    }
}

pub open spec fn sorted_texts(keys: Seq<Seq<char>>) -> bool {
    forall|i: int, j: int| 0 <= i <= j < keys.len() ==> text::at_most(keys[i], keys[j])
}

spec fn entry_view(strings: Seq<Seq<char>>, e: MacroEntry) -> MacroView {
    MacroView {
        name: text_or_empty(text_in(strings, e.name)),
        parameters: nonempty(text_in(strings, e.parameters)),
        detail: nonempty(text_in(strings, e.detail)),
        is_function_like: e.is_function_like,
    }
}

spec fn nonempty(t: Option<Seq<char>>) -> Option<Seq<char>> {
    match t {
        Some(s) => if s.len() == 0 {
            None
        } else {
            Some(s)
        },
        None => None,
    }
}

proof fn lemma_with_prefix_none(
    keys: Seq<Seq<char>>,
    macros: Seq<MacroView>,
    prefix: Seq<char>,
    from: int,
    upto: int,
)
    requires
        0 <= from <= upto <= keys.len(),
        forall|j: int| from <= j < upto ==> !text::starts(#[trigger] keys[j], prefix),
    ensures
        with_prefix(keys, macros, prefix, upto) == with_prefix(keys, macros, prefix, from),
    decreases upto,
{
    if from < upto {
        assert(!text::starts(keys[upto - 1], prefix));
        lemma_with_prefix_none(keys, macros, prefix, from, upto - 1);
    }
}

proof fn lemma_with_prefix_take(
    keys: Seq<Seq<char>>,
    macros: Seq<MacroView>,
    prefix: Seq<char>,
    from: int,
    upto: int,
)
    requires
        0 <= from <= upto <= keys.len(),
    ensures
        ({
            let a = with_prefix(keys, macros, prefix, from);
            let b = with_prefix(keys, macros, prefix, upto);
            a.len() <= b.len() && b.take(a.len() as int) == a
        }),
    decreases upto,
{
    let a = with_prefix(keys, macros, prefix, from);
    let b = with_prefix(keys, macros, prefix, upto);
    if from < upto {
        lemma_with_prefix_take(keys, macros, prefix, from, upto - 1);
        let c = with_prefix(keys, macros, prefix, upto - 1);
        assert(b.take(a.len() as int) =~= c.take(a.len() as int));
    } else {
        assert(b.take(a.len() as int) =~= a);
    }
}

impl MacroHotIndex {
    #[verifier::type_invariant]
    spec fn inv(self) -> bool {
        sorted_texts(self.keys())
    }

    /// The keys of the macros, in order.
    pub closed spec fn keys(&self) -> Seq<Seq<char>> {
        self.entries@.map_values(|e: MacroEntry| text_or_empty(text_in(self.pool@, e.name_lc)))
    }

    /// The macros, in the order of their keys.
    pub closed spec fn macros(&self) -> Seq<MacroView> {
        self.entries@.map_values(|e: MacroEntry| entry_view(self.pool@, e))
    }

    pub fn size_hint(&self) -> (r: usize)
        ensures
            r == self.macros().len(),
    {
        self.entries.len()
    }

    /// The first `limit` macros whose name begins with `prefix`, regardless of ASCII case.
    pub fn lookup_by_prefix(&self, prefix: &str, limit: usize) -> (r: Vec<MacroCandidate>)
        ensures
            ({
                let p = text::trimmed(prefix@);
                let all = with_prefix(
                    self.keys(),
                    self.macros(),
                    text::lower(p),
                    self.keys().len() as int,
                );
                views(r@) == if p.len() == 0 || limit == 0 {
                    Seq::empty()
                } else if all.len() <= limit {
                    all
                } else {
                    all.take(limit as int)
                }
            }),
    {
        proof {
            use_type_invariant(self);
        }
        let mut out: Vec<MacroCandidate> = Vec::new();
        assert(views(out@) =~= Seq::<MacroView>::empty());
        let prefix = text::trim(prefix);
        if prefix.is_empty() || limit == 0 {
            return out;
        }
        let low = text::to_lower(prefix);
        let ghost p = low@;
        let ghost keys = self.keys();
        let ghost macros = self.macros();
        let n: usize = self.entries.len();
        let mut lo: usize = 0;
        let mut hi: usize = n;
        while lo < hi
            invariant
                lo <= hi <= n,
                n == self.entries@.len(),
                keys == self.keys(),
                sorted_texts(keys),
                p == low@,
                forall|j: int| 0 <= j < lo ==> text::less(#[trigger] keys[j], p),
                forall|j: int| hi <= j < n ==> !text::less(#[trigger] keys[j], p),
            decreases hi - lo,
        {
            let mid: usize = lo + (hi - lo) / 2;
            let key = self.text(self.entries[mid].name_lc);
            assert(key@ == keys[mid as int]);
            if text::is_less(key, low.as_str()) {
                assert forall|j: int| 0 <= j < mid + 1 implies text::less(#[trigger] keys[j], p) by {
                    assert(text::at_most(keys[j], keys[mid as int]));
                    if !text::less(keys[j], p) {
                        text::lemma_at_most_trans(p, keys[j], keys[mid as int]);
                    }
                }
                lo = mid + 1;
            } else {
                assert forall|j: int| mid <= j < n implies !text::less(#[trigger] keys[j], p) by {
                    assert(text::at_most(keys[mid as int], keys[j]));
                    text::lemma_at_most_trans(p, keys[mid as int], keys[j]);
                }
                hi = mid;
            }
        }
        let start: usize = lo;
        proof {
            assert forall|j: int| 0 <= j < start implies !text::starts(#[trigger] keys[j], p) by {
                if text::starts(keys[j], p) {
                    text::lemma_prefix_not_less(keys[j], p, 0);
                }
            }
            lemma_with_prefix_none(keys, macros, p, 0, start as int);
        }
        let mut i: usize = start;
        while i < n
            invariant_except_break
                views(out@) == with_prefix(keys, macros, p, i as int),
                out@.len() < limit,
            invariant
                start <= i <= n,
                n == self.entries@.len(),
                keys == self.keys(),
                macros == self.macros(),
                sorted_texts(keys),
                p == low@,
                forall|j: int| start <= j < n ==> !text::less(#[trigger] keys[j], p),
            ensures
                views(out@) == with_prefix(keys, macros, p, n as int) && out@.len() < limit
                    || out@.len() == limit && views(out@) == with_prefix(
                    keys,
                    macros,
                    p,
                    n as int,
                ).take(limit as int) && with_prefix(keys, macros, p, n as int).len() >= limit,
            decreases n - i,
        {
            let entry = self.entries[i];
            let key = self.text(entry.name_lc);
            assert(key@ == keys[i as int]);
            if !text::starts_with(key, low.as_str()) {
                proof {
                    assert forall|j: int| i <= j < n implies !text::starts(#[trigger] keys[j], p) by {
                        if text::starts(keys[j], p) {
                            assert(text::at_most(keys[i as int], keys[j]));
                            text::lemma_prefix_run_ends(keys[i as int], keys[j], p, 0);
                        }
                    }
                    lemma_with_prefix_none(keys, macros, p, i as int, n as int);
                }
                break;
            }
            let candidate = MacroCandidate {
                name: text::copy_of(self.text(entry.name)),
                parameters: match self.text_opt(entry.parameters) {
                    Some(t) => Some(text::copy_of(t)),
                    None => None,
                },
                detail: match self.text_opt(entry.detail) {
                    Some(t) => Some(text::copy_of(t)),
                    None => None,
                },
                is_function_like: entry.is_function_like,
            };
            let ghost before = views(out@);
            assert(candidate.view() == macros[i as int]);
            out.push(candidate);
            assert(views(out@) =~= before.push(macros[i as int]));
            i = i + 1;
            if out.len() >= limit {
                proof {
                    lemma_with_prefix_take(keys, macros, p, i as int, n as int);
                    assert(views(out@).len() == limit);
                }
                break;
            }
        }
        proof {
            let all = with_prefix(keys, macros, p, n as int);
            assert(views(out@).len() == out@.len());
            if all.len() == limit {
                assert(all.take(limit as int) =~= all);
            }
        }
        out
    }

    fn text(&self, id: StrId) -> (r: &str)
        ensures
            r@ == text_or_empty(text_in(self.pool@, id)),
    {
        proof {
            reveal_strlit("");
            assert(""@ =~= Seq::<char>::empty());
        }
        match self.pool.get(id) {
            Some(t) => t,
            None => "",
        }
    }

    fn text_opt(&self, id: StrId) -> (r: Option<&str>)
        ensures
            text::opt_str(r) == nonempty(text_in(self.pool@, id)),
    {
        match self.pool.get(id) {
            Some(t) => if t.is_empty() {
                None
            } else {
                Some(t)
            },
            None => None,
        }
    }
}

pub open spec fn row_keys(rows: Seq<MacroRow>) -> Seq<Seq<char>> {
    rows.map_values(|r: MacroRow| key_of(r.name@))
}

pub open spec fn row_views(rows: Seq<MacroRow>) -> Seq<MacroView> {
    rows.map_values(|r: MacroRow| row_view(r))
}

fn intern_option(pool: &mut StringPool, value: &Option<String>) -> (r: StrId)
    requires
        old(pool)@.len() <= u32::MAX,
        old(pool)@.len() >= 1,
    ensures
        text_in(final(pool)@, r) == kept_opt(text::opt_text(*value)),
        extends(old(pool)@, final(pool)@),
        final(pool)@.len() <= old(pool)@.len() + 1,
        r.0 < final(pool)@.len(),
{
    match value {
        Some(t) => pool.intern(t.as_str()),
        None => StrId(0),
    }
}

spec fn entry_known(strings: Seq<Seq<char>>, e: MacroEntry) -> bool {
    e.name.0 < strings.len() && e.name_lc.0 < strings.len() && e.parameters.0 < strings.len()
        && e.detail.0 < strings.len()
}

proof fn lemma_entry_kept(a: Seq<Seq<char>>, b: Seq<Seq<char>>, e: MacroEntry)
    requires
        extends(a, b),
        entry_known(a, e),
    ensures
        entry_known(b, e),
        entry_view(a, e) == entry_view(b, e),
        text_in(a, e.name_lc) == text_in(b, e.name_lc),
{
}

/// Builds the index from rows that come in the order of their lower-case names.
pub fn build_macro_hot_index(rows: &Vec<MacroRow>) -> (r: MacroHotIndex)
    requires
        1 + 4 * rows@.len() <= u32::MAX,
        sorted_texts(row_keys(rows@)),
    ensures
        r.keys() == row_keys(rows@),
        r.macros() == row_views(rows@),
{
    let mut pool = StringPool::new();
    let mut entries: Vec<MacroEntry> = Vec::new();
    let mut i: usize = 0;
    while i < rows.len()
        invariant
            i <= rows@.len(),
            1 + 4 * rows@.len() <= u32::MAX,
            1 <= pool@.len() <= 1 + 4 * i,
            entries@.len() == i,
            forall|j: int|
                0 <= j < i ==> entry_known(pool@, #[trigger] entries@[j]) && entry_view(
                    pool@,
                    entries@[j],
                ) == row_view(rows@[j]) && text_or_empty(text_in(pool@, entries@[j].name_lc))
                    == key_of(rows@[j].name@),
        decreases rows@.len() - i,
    {
        let row = &rows[i];
        let ghost s0 = pool@;
        let low = text::to_lower(row.name.as_str());
        let name_lc = pool.intern(low.as_str());
        let ghost s1 = pool@;
        let name = pool.intern(row.name.as_str());
        let ghost s2 = pool@;
        let parameters = intern_option(&mut pool, &row.parameters);
        let ghost s3 = pool@;
        let detail = intern_option(&mut pool, &row.detail);
        let entry = MacroEntry {
            name,
            name_lc,
            parameters,
            detail,
            is_function_like: row.is_function_like,
        };
        entries.push(entry);
        proof {
            assert(text_in(pool@, name_lc) == text_in(s1, name_lc));
            assert(text_in(pool@, name) == text_in(s2, name));
            assert(text_in(pool@, parameters) == text_in(s3, parameters));
            assert(extends(s0, pool@));
            assert forall|j: int| 0 <= j < i + 1 implies entry_known(pool@, #[trigger] entries@[j])
                && entry_view(pool@, entries@[j]) == row_view(rows@[j]) && text_or_empty(
                text_in(pool@, entries@[j].name_lc),
            ) == key_of(rows@[j].name@) by {
                if j < i {
                    lemma_entry_kept(s0, pool@, entries@[j]);
                }
            }
        }
        i = i + 1;
    }
    let ghost strings = pool@;
    let ghost listed = entries@;
    proof {
        assert(listed.map_values(
            |e: MacroEntry| text_or_empty(text_in(strings, e.name_lc)),
        ) =~= row_keys(rows@));
    }
    let r = MacroHotIndex { pool, entries };
    assert(r.keys() =~= row_keys(rows@));
    assert(r.macros() =~= row_views(rows@));
    r
}

/// The macros that are listed for a prefix are those whose key begins with it, in their order.
pub proof fn listed_macros_have_the_prefix(
    keys: Seq<Seq<char>>,
    macros: Seq<MacroView>,
    prefix: Seq<char>,
    upto: int,
)
    requires
        0 <= upto <= keys.len(),
        keys.len() == macros.len(),
    ensures
        forall|m: MacroView|
            with_prefix(keys, macros, prefix, upto).contains(m) <==> exists|i: int|
                0 <= i < upto && text::starts(#[trigger] keys[i], prefix) && macros[i] == m,
    decreases upto,
{
    let r = with_prefix(keys, macros, prefix, upto);
    if upto > 0 {
        listed_macros_have_the_prefix(keys, macros, prefix, upto - 1);
        let before = with_prefix(keys, macros, prefix, upto - 1);
        assert forall|m: MacroView|
            r.contains(m) <==> exists|i: int|
                0 <= i < upto && text::starts(#[trigger] keys[i], prefix) && macros[i] == m by {
            if r.contains(m) {
                let j = choose|j: int| 0 <= j < r.len() && r[j] == m;
                if j < before.len() {
                    assert(before[j] == m);
                    assert(before.contains(m));
                } else {
                    assert(text::starts(keys[upto - 1], prefix));
                }
            }
            if exists|i: int|
                0 <= i < upto && text::starts(#[trigger] keys[i], prefix) && macros[i] == m {
                let i = choose|i: int|
                    0 <= i < upto && text::starts(#[trigger] keys[i], prefix) && macros[i] == m;
                if i < upto - 1 {
                    assert(before.contains(m));
                    let j = choose|j: int| 0 <= j < before.len() && before[j] == m;
                    assert(r[j] == m);
                } else {
                    assert(r.last() == m);
                }
            }
        }
    }
}

} // verus!
