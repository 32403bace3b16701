//! Index of symbols and files in memory, for searches by name, owner, module and path.
use vstd::prelude::*;

use super::item::{
    all_differ, identity, int_field, merged, merging_adds_new_items_only, page, page_of, text_field,
    Field, FieldView, Item, ItemView, Likeness, Merged,
};
use super::pattern::{
    clamped, compact, compact_identifier, identifier, is_identifier_query, normalize_path,
    saturated_sum, slashed_path, sum_or_max, within,
};
use crate::sort::{arrangement, comes_first, sort, stable_sorted, Ranked};
use crate::text;
use crate::textmap::{list_at, TextMap};

verus! {

/// A symbol as a store keeps it.
pub struct SymbolRow {
    pub name: String,
    pub kind: String,
    pub owner_name: Option<String>,
    pub path: String,
    pub line_number: Option<i64>,
    pub module_name: Option<String>,
    pub name_lc: String,
    pub compact_name: String,
    pub owner_name_lc: Option<String>,
    pub module_name_lc: Option<String>,
    pub kind_rank: i64,
    pub is_class_like: i64,
}

/// A file as a store keeps it.
pub struct FileRow {
    pub basename: String,
    pub path: String,
    pub module_name: Option<String>,
    pub module_root: Option<String>,
    pub basename_lc: String,
    pub path_lc: String,
}

pub struct SymbolHotEntry {
    pub name: String,
    pub kind: String,
    pub owner_name: Option<String>,
    pub path: String,
    pub line_number: Option<i64>,
    pub module_name: Option<String>,
    pub name_lc: String,
    pub compact_name: String,
    pub owner_name_lc: String,
    pub module_name_lc: String,
    pub kind_rank: i64,
    pub is_class_like: bool,
}

pub struct FileHotEntry {
    pub basename: String,
    pub path: String,
    pub module_name: Option<String>,
    pub module_root: Option<String>,
    pub basename_lc: String,
    pub path_lc: String,
}

pub struct SymbolView {
    pub name: Seq<char>,
    pub kind: Seq<char>,
    pub owner_name: Option<Seq<char>>,
    pub path: Seq<char>,
    pub line_number: Option<i64>,
    pub module_name: Option<Seq<char>>,
    pub name_lc: Seq<char>,
    pub compact_name: Seq<char>,
    pub owner_name_lc: Seq<char>,
    pub module_name_lc: Seq<char>,
    pub kind_rank: i64,
    pub is_class_like: bool,
}

pub struct FileView {
    pub basename: Seq<char>,
    pub path: Seq<char>,
    pub module_name: Option<Seq<char>>,
    pub module_root: Option<Seq<char>>,
    pub basename_lc: Seq<char>,
    pub path_lc: Seq<char>,
}

impl View for SymbolHotEntry {
    type V = SymbolView;

    open spec fn view(&self) -> SymbolView {
        SymbolView {
            name: self.name@,
            kind: self.kind@,
            owner_name: text::opt_text(self.owner_name),
            path: self.path@,
            line_number: self.line_number,
            module_name: text::opt_text(self.module_name),
            name_lc: self.name_lc@,
            compact_name: self.compact_name@,
            owner_name_lc: self.owner_name_lc@,
            module_name_lc: self.module_name_lc@,
            kind_rank: self.kind_rank,
            is_class_like: self.is_class_like,
        }
    }
}

impl View for FileHotEntry {
    type V = FileView;

    open spec fn view(&self) -> FileView {
        FileView {
            basename: self.basename@,
            path: self.path@,
            module_name: text::opt_text(self.module_name),
            module_root: text::opt_text(self.module_root),
            basename_lc: self.basename_lc@,
            path_lc: self.path_lc@,
        }
    }
}

pub open spec fn or_nothing(s: Option<Seq<char>>) -> Seq<char> {
    match s {
        Some(t) => t,
        None => Seq::empty(),
    }
}

/// What the index keeps of a symbol.
pub open spec fn symbol_kept(row: SymbolRow) -> SymbolView {
    SymbolView {
        name: row.name@,
        kind: row.kind@,
        owner_name: text::opt_text(row.owner_name),
        path: slashed_path(row.path@),
        line_number: row.line_number,
        module_name: text::opt_text(row.module_name),
        name_lc: row.name_lc@,
        compact_name: row.compact_name@,
        owner_name_lc: or_nothing(text::opt_text(row.owner_name_lc)),
        module_name_lc: or_nothing(text::opt_text(row.module_name_lc)),
        kind_rank: row.kind_rank,
        is_class_like: row.is_class_like != 0,
    }
}

pub open spec fn opt_slashed(path: Option<Seq<char>>) -> Option<Seq<char>> {
    match path {
        Some(p) => Some(slashed_path(p)),
        None => None,
    }
}

/// What the index keeps of a file.
pub open spec fn file_kept(row: FileRow) -> FileView {
    FileView {
        basename: row.basename@,
        path: slashed_path(row.path@),
        module_name: text::opt_text(row.module_name),
        module_root: opt_slashed(text::opt_text(row.module_root)),
        basename_lc: row.basename_lc@,
        path_lc: row.path_lc@,
    }
}

/// The item that a symbol is answered with.
pub open spec fn symbol_item(
    name: Seq<char>,
    kind: Seq<char>,
    owner: Option<Seq<char>>,
    path: Seq<char>,
    line: Option<i64>,
    module: Option<Seq<char>>,
) -> ItemView {
    seq![
        ("name"@, FieldView::Text(name)),
        ("type"@, FieldView::Text(kind)),
        ("class_name"@, text_field(owner)),
        ("path"@, FieldView::Text(path)),
        ("line"@, int_field(line)),
        ("module_name"@, text_field(module)),
    ]
}

/// The item that a file is answered with.
pub open spec fn file_item(
    name: Seq<char>,
    path: Seq<char>,
    module: Option<Seq<char>>,
    root: Option<Seq<char>>,
) -> ItemView {
    seq![
        ("name"@, FieldView::Text(name)),
        ("type"@, FieldView::Text("file"@)),
        ("path"@, FieldView::Text(path)),
        ("line"@, FieldView::Int(1)),
        ("module_name"@, text_field(module)),
        ("module_root"@, text_field(root)),
    ]
}

pub open spec fn item_of_symbol(s: SymbolView) -> ItemView {
    symbol_item(s.name, s.kind, s.owner_name, s.path, s.line_number, s.module_name)
}

pub open spec fn item_of_file(f: FileView) -> ItemView {
    file_item(f.basename, f.path, f.module_name, f.module_root)
}

pub fn make_symbol_item(
    name: &str,
    kind: &str,
    owner: &Option<String>,
    path: &str,
    line: Option<i64>,
    module: &Option<String>,
) -> (r: Item)
    ensures
        r@ == symbol_item(
            name@,
            kind@,
            text::opt_text(*owner),
            path@,
            line,
            text::opt_text(*module),
        ),
{
    let r = Item::new().and("name", Field::text(name)).and("type", Field::text(kind)).and(
        "class_name",
        Field::text_opt(owner),
    ).and("path", Field::text(path)).and("line", Field::int_opt(line)).and(
        "module_name",
        Field::text_opt(module),
    );
    assert(r@ =~= symbol_item(
        name@,
        kind@,
        text::opt_text(*owner),
        path@,
        line,
        text::opt_text(*module),
    ));
    r
}

pub fn make_file_item(name: &str, path: &str, module: &Option<String>, root: &Option<String>) -> (r: Item)
    ensures
        r@ == file_item(name@, path@, text::opt_text(*module), text::opt_text(*root)),
{
    let r = Item::new().and("name", Field::text(name)).and("type", Field::text("file")).and(
        "path",
        Field::text(path),
    ).and("line", Field::Int(1)).and("module_name", Field::text_opt(module)).and(
        "module_root",
        Field::text_opt(root),
    );
    assert(r@ =~= file_item(name@, path@, text::opt_text(*module), text::opt_text(*root)));
    r
}

/// The item of a symbol that a store answered with.
pub fn symbol_row_to_item(
    name: &str,
    kind: &str,
    owner: &Option<String>,
    path: &str,
    line: Option<i64>,
    module: &Option<String>,
) -> (r: Item)
    ensures
        r@ == symbol_item(
            name@,
            kind@,
            text::opt_text(*owner),
            slashed_path(path@),
            line,
            text::opt_text(*module),
        ),
{
    let path = normalize_path(path);
    make_symbol_item(name, kind, owner, &path, line, module)
}

fn normalize_opt(path: &Option<String>) -> (r: Option<String>)
    ensures
        text::opt_text(r) == opt_slashed(text::opt_text(*path)),
{
    match path {
        Some(p) => Some(normalize_path(p)),
        None => None,
    }
}

/// The item of a file that a store answered with.
pub fn file_row_to_item(name: &str, path: &str, module: &Option<String>, root: &Option<String>) -> (r: Item)
    ensures
        r@ == file_item(
            name@,
            slashed_path(path@),
            text::opt_text(*module),
            opt_slashed(text::opt_text(*root)),
        ),
{
    let path = normalize_path(path);
    let root = normalize_opt(root);
    make_file_item(name, &path, module, &root)
}

pub fn symbol_hot_entry_to_item(entry: &SymbolHotEntry) -> (r: Item)
    ensures
        r@ == item_of_symbol(entry@),
{
    make_symbol_item(
        &entry.name,
        &entry.kind,
        &entry.owner_name,
        &entry.path,
        entry.line_number,
        &entry.module_name,
    )
}

pub fn file_hot_entry_to_item(entry: &FileHotEntry) -> (r: Item)
    ensures
        r@ == item_of_file(entry@),
{
    make_file_item(&entry.basename, &entry.path, &entry.module_name, &entry.module_root)
}

/// The text by which an entry is found, what decides between entries of the same text, and where
/// the entry stands.
struct Sorted {
    key: String,
    rank: i64,
    tie: String,
    index: usize,
}

pub open spec fn stands_before(k1: Seq<char>, r1: i64, t1: Seq<char>, k2: Seq<char>, r2: i64, t2: Seq<char>) -> bool {
    text::less(k1, k2) || k1 == k2 && (r1 < r2 || r1 == r2 && text::at_most(t1, t2))
}

impl Ranked for Sorted {
    closed spec fn before(self, other: Self) -> bool {
        stands_before(self.key@, self.rank, self.tie@, other.key@, other.rank, other.tie@)
    }

    proof fn before_total(a: Self, b: Self) {
        text::lemma_less_total(a.key@, b.key@);
        text::lemma_less_total(a.tie@, b.tie@);
    }

    proof fn before_trans(a: Self, b: Self, c: Self) {
        text::lemma_less_total(a.key@, b.key@);
        text::lemma_less_total(b.key@, c.key@);
        text::lemma_less_total(a.key@, c.key@);
        text::lemma_at_most_trans(a.key@, b.key@, c.key@);
        if a.key@ == b.key@ && b.key@ == c.key@ && a.rank == b.rank && b.rank == c.rank {
            text::lemma_at_most_trans(a.tie@, b.tie@, c.tie@);
        }
    }

    fn may_precede(&self, other: &Self) -> (r: bool) {
        proof {
            text::lemma_less_total(self.key@, other.key@);
        }
        if text::is_less(&self.key, &other.key) {
            return true;
        }
        if !text::same(&self.key, &other.key) {
            return false;
        }
        if self.rank < other.rank {
            return true;
        }
        self.rank == other.rank && !text::is_less(&other.tie, &self.tie)
    }
}

/// A list of texts with what decides between equal ones.
pub struct Keyed {
    pub keys: Seq<Seq<char>>,
    pub ranks: Seq<i64>,
    pub ties: Seq<Seq<char>>,
    /// Whether empty texts are listed too.
    pub blanks: bool,
}

impl Keyed {
    pub open spec fn lists(self, i: int) -> bool {
        0 <= i < self.keys.len() && (self.blanks || self.keys[i].len() > 0)
    }

    /// Position `i` is listed before position `j`.
    pub open spec fn earlier(self, i: int, j: int) -> bool {
        &&& stands_before(
            self.keys[i],
            self.ranks[i],
            self.ties[i],
            self.keys[j],
            self.ranks[j],
            self.ties[j],
        )
        &&& stands_before(
            self.keys[j],
            self.ranks[j],
            self.ties[j],
            self.keys[i],
            self.ranks[i],
            self.ties[i],
        ) ==> i < j
    }

    /// `order` holds the listed positions in the order of their texts.
    pub open spec fn ordered(self, order: Seq<usize>) -> bool {
        &&& forall|i: int| 0 <= i < order.len() ==> self.lists((#[trigger] order[i]) as int)
        &&& forall|i: int, j: int|
            0 <= i < j < order.len() ==> self.earlier(
                (#[trigger] order[i]) as int,
                (#[trigger] order[j]) as int,
            )
        &&& forall|p: usize| self.lists(p as int) ==> #[trigger] order.contains(p)
    }

    /// The listed positions before `upto` whose text is this one.
    pub open spec fn equal_to(self, key: Seq<char>, upto: int) -> Seq<usize>
        decreases upto,
    {
        if upto <= 0 {
            Seq::empty()
        } else if self.lists(upto - 1) && self.keys[upto - 1] == key {
            self.equal_to(key, upto - 1).push((upto - 1) as usize)
        } else {
            self.equal_to(key, upto - 1)
        }
    }

    /// The positions in the order, from `k` on, whose text begins like this.
    pub open spec fn beginning(self, order: Seq<usize>, prefix: Seq<char>, k: int) -> Seq<usize>
        decreases order.len() - k,
    {
        if k < 0 || k >= order.len() || prefix.len() == 0 {
            Seq::empty()
        } else if text::starts(self.keys[order[k] as int], prefix) {
            seq![order[k]] + self.beginning(order, prefix, k + 1)
        } else {
            self.beginning(order, prefix, k + 1)
        }
    }
}

/// A list of texts that can be asked which positions hold a text, or one that begins with it.
pub struct Lookup {
    pub exact: TextMap<Vec<usize>>,
    pub prefix: Vec<(String, usize)>,
}

pub open spec fn order_of(prefix: Seq<(String, usize)>) -> Seq<usize> {
    prefix.map_values(|e: (String, usize)| e.1)
}

impl Lookup {
    /// The positions in the order of their texts.
    pub open spec fn order(self) -> Seq<usize> {
        order_of(self.prefix@)
    }

    pub open spec fn answers(self, list: Keyed) -> bool {
        &&& list.ranks.len() == list.keys.len()
        &&& list.ties.len() == list.keys.len()
        &&& list.keys.len() <= usize::MAX
        &&& list.ordered(self.order())
        &&& forall|i: int|
            0 <= i < self.prefix@.len() ==> (#[trigger] self.prefix@[i]).0@
                == list.keys[self.prefix@[i].1 as int]
        &&& forall|key: Seq<char>| #[trigger]
            list_at(self.exact, key) == list.equal_to(key, list.keys.len() as int)
    }

    fn places_of(&self, key: &str, Ghost(list): Ghost<Keyed>) -> (r: Vec<usize>)
        requires
            self.answers(list),
        ensures
            r@ == list.equal_to(key@, list.keys.len() as int),
    {
        let mut r: Vec<usize> = Vec::new();
        assert(list_at(self.exact, key@) == list.equal_to(key@, list.keys.len() as int));
        match self.exact.get(key) {
            Some(v) => {
                let n: usize = v.len();
                let mut i: usize = 0;
                while i < n
                    invariant
                        n == v@.len(),
                        i <= n,
                        r@ == v@.take(i as int),
                    decreases n - i,
                {
                    r.push(v[i]);
                    assert(v@.take(i + 1) =~= v@.take(i as int).push(v@[i as int]));
                    i = i + 1;
                }
                assert(v@.take(n as int) =~= v@);
            },
            None => {},
        }
        r
    }

    /// The first position in the order whose text is not less than this one.
    fn lower_bound_prefix(&self, prefix: &str, Ghost(list): Ghost<Keyed>) -> (r: usize)
        requires
            self.answers(list),
        ensures
            r <= self.prefix@.len(),
            forall|j: int| 0 <= j < r ==> text::less((#[trigger] self.prefix@[j]).0@, prefix@),
            forall|j: int|
                r <= j < self.prefix@.len() ==> !text::less(
                    (#[trigger] self.prefix@[j]).0@,
                    prefix@,
                ),
    {
        let n: usize = self.prefix.len();
        let mut left: usize = 0;
        let mut right: usize = n;
        proof {
            self.lemma_in_order(list);
        }
        while left < right
            invariant
                n == self.prefix@.len(),
                left <= right <= n,
                forall|i: int, j: int|
                    0 <= i <= j < self.prefix@.len() ==> text::at_most(
                        (#[trigger] self.prefix@[i]).0@,
                        (#[trigger] self.prefix@[j]).0@,
                    ),
                forall|j: int|
                    0 <= j < left ==> text::less((#[trigger] self.prefix@[j]).0@, prefix@),
                forall|j: int|
                    right <= j < n ==> !text::less((#[trigger] self.prefix@[j]).0@, prefix@),
            decreases right - left,
        {
            let mid: usize = left + (right - left) / 2;
            if text::is_less(&self.prefix[mid].0, prefix) {
                assert forall|j: int| 0 <= j < mid + 1 implies text::less(
                    (#[trigger] self.prefix@[j]).0@,
                    prefix@,
                ) by {
                    assert(text::at_most(self.prefix@[j].0@, self.prefix@[mid as int].0@));
                    if !text::less(self.prefix@[j].0@, prefix@) {
                        text::lemma_at_most_trans(
                            prefix@,
                            self.prefix@[j].0@,
                            self.prefix@[mid as int].0@,
                        );
                    }
                }
                left = mid + 1;
            } else {
                assert forall|j: int| mid <= j < n implies !text::less(
                    (#[trigger] self.prefix@[j]).0@,
                    prefix@,
                ) by {
                    assert(text::at_most(self.prefix@[mid as int].0@, self.prefix@[j].0@));
                    text::lemma_at_most_trans(
                        prefix@,
                        self.prefix@[mid as int].0@,
                        self.prefix@[j].0@,
                    );
                }
                right = mid;
            }
        }
        left
    }

    proof fn lemma_in_order(self, list: Keyed)
        requires
            self.answers(list),
        ensures
            forall|i: int, j: int|
                0 <= i <= j < self.prefix@.len() ==> text::at_most(
                    (#[trigger] self.prefix@[i]).0@,
                    (#[trigger] self.prefix@[j]).0@,
                ),
    {
        assert forall|i: int, j: int| 0 <= i <= j < self.prefix@.len() implies text::at_most(
            (#[trigger] self.prefix@[i]).0@,
            (#[trigger] self.prefix@[j]).0@,
        ) by {
            text::lemma_less_total(self.prefix@[i].0@, self.prefix@[j].0@);
            if i < j {
                let order = self.order();
                assert(order[i] == self.prefix@[i].1);
                assert(order[j] == self.prefix@[j].1);
                assert(list.earlier(order[i] as int, order[j] as int));
            }
        }
    }

    /// The positions whose text begins like this.
    fn places_beginning(&self, prefix: &str, Ghost(list): Ghost<Keyed>) -> (r: Vec<usize>)
        requires
            self.answers(list),
        ensures
            r@ == list.beginning(self.order(), prefix@, 0),
    {
        let mut r: Vec<usize> = Vec::new();
        if prefix.is_empty() {
            return r;
        }
        let ghost order = self.order();
        let n: usize = self.prefix.len();
        let start: usize = self.lower_bound_prefix(prefix, Ghost(list));
        proof {
            self.lemma_in_order(list);
            assert forall|j: int| 0 <= j < start implies !text::starts(
                list.keys[(#[trigger] order[j]) as int],
                prefix@,
            ) by {
                assert(order[j] == self.prefix@[j].1);
                assert(text::less(self.prefix@[j].0@, prefix@));
                if text::starts(self.prefix@[j].0@, prefix@) {
                    text::lemma_prefix_not_less(self.prefix@[j].0@, prefix@, 0);
                }
            }
            lemma_none_beginning(list, order, prefix@, 0, start as int);
        }
        let ghost whole = list.beginning(order, prefix@, 0);
        let mut i: usize = start;
        while i < n
            invariant
                start <= i <= n,
                n == self.prefix@.len(),
                order == self.order(),
                order.len() == n,
                prefix@.len() > 0,
                self.answers(list),
                forall|i: int, j: int|
                    0 <= i <= j < self.prefix@.len() ==> text::at_most(
                        (#[trigger] self.prefix@[i]).0@,
                        (#[trigger] self.prefix@[j]).0@,
                    ),
                forall|j: int|
                    start <= j < n ==> !text::less((#[trigger] self.prefix@[j]).0@, prefix@),
                whole == list.beginning(order, prefix@, 0),
                whole =~= r@ + list.beginning(order, prefix@, i as int),
            decreases n - i,
        {
            assert(order[i as int] == self.prefix@[i as int].1);
            if !text::starts_with(&self.prefix[i].0, prefix) {
                proof {
                    assert forall|j: int| i <= j < n implies !text::starts(
                        list.keys[(#[trigger] order[j]) as int],
                        prefix@,
                    ) by {
                        assert(order[j] == self.prefix@[j].1);
                        if text::starts(self.prefix@[j].0@, prefix@) {
                            assert(text::at_most(
                                self.prefix@[i as int].0@,
                                self.prefix@[j].0@,
                            ));
                            text::lemma_prefix_run_ends(
                                self.prefix@[i as int].0@,
                                self.prefix@[j].0@,
                                prefix@,
                                0,
                            );
                        }
                    }
                    lemma_none_beginning(list, order, prefix@, i as int, n as int);
                    assert(list.beginning(order, prefix@, n as int) =~= Seq::<usize>::empty());
                }
                return r;
            }
            r.push(self.prefix[i].1);
            i = i + 1;
        }
        r
    }
}

proof fn lemma_none_beginning(list: Keyed, order: Seq<usize>, prefix: Seq<char>, from: int, upto: int)
    requires
        0 <= from <= upto <= order.len(),
        forall|j: int|
            from <= j < upto ==> !text::starts(list.keys[(#[trigger] order[j]) as int], prefix),
    ensures
        list.beginning(order, prefix, from) == list.beginning(order, prefix, upto),
    decreases upto - from,
{
    if from < upto {
        assert(!text::starts(list.keys[order[from] as int], prefix));
        lemma_none_beginning(list, order, prefix, from + 1, upto);
    }
}

spec fn listed(v: Seq<Sorted>, list: Keyed, upto: int) -> bool {
    &&& forall|i: int|
        0 <= i < v.len() ==> {
            let e = #[trigger] v[i];
            list.lists(e.index as int) && e.index < upto && e.key@ == list.keys[e.index as int]
                && e.rank == list.ranks[e.index as int] && e.tie@ == list.ties[e.index as int]
        }
    &&& forall|i: int, j: int|
        0 <= i < j < v.len() ==> (#[trigger] v[i]).index < (#[trigger] v[j]).index
    &&& forall|p: int| list.lists(p) && p < upto ==> exists|i: int|
        0 <= i < v.len() && (#[trigger] v[i]).index == p
}

proof fn lemma_listed_sorted(v: Seq<Sorted>, s: Seq<Sorted>, list: Keyed, order: Seq<usize>)
    requires
        listed(v, list, list.keys.len() as int),
        list.keys.len() <= usize::MAX,
        stable_sorted(v, s),
        order.len() == s.len(),
        forall|i: int| 0 <= i < s.len() ==> #[trigger] order[i] == s[i].index,
    ensures
        list.ordered(order),
{
    let p = choose|p: Seq<int>| arrangement(v, s, p);
    assert forall|i: int| 0 <= i < order.len() implies list.lists((#[trigger] order[i]) as int) by {
        assert(s[i] == v[p[i]]);
    }
    assert forall|i: int, j: int| 0 <= i < j < order.len() implies list.earlier(
        (#[trigger] order[i]) as int,
        (#[trigger] order[j]) as int,
    ) by {
        assert(comes_first(v, p[i], p[j]));
        assert(s[i] == v[p[i]]);
        assert(s[j] == v[p[j]]);
        if p[i] < p[j] {
            assert(v[p[i]].index < v[p[j]].index);
        }
    }
    assert forall|q: usize| list.lists(q as int) implies #[trigger] order.contains(q) by {
        let i = choose|i: int| 0 <= i < v.len() && (#[trigger] v[i]).index == q as int;
        crate::sort::lemma_arrangement_onto(v, s, p);
        assert(p.contains(i));
        let k = choose|k: int| 0 <= k < p.len() && p[k] == i;
        assert(s[k] == v[p[k]]);
        assert(order[k] == q);
    }
}

/// Builds the lookup of a list of texts; `keys`, `ranks` and `ties` go together by position.
fn build_lookup(
    keys: Vec<String>,
    ranks: &Vec<i64>,
    ties: Vec<String>,
    blanks: bool,
) -> (r: Lookup)
    requires
        ranks@.len() == keys@.len(),
        ties@.len() == keys@.len(),
    ensures
        r.answers(
            (Keyed { keys: text::texts(keys@), ranks: ranks@, ties: text::texts(ties@), blanks }),
        ),
{
    let ghost list = Keyed {
        keys: text::texts(keys@),
        ranks: ranks@,
        ties: text::texts(ties@),
        blanks,
    };
    let n: usize = keys.len();
    let mut exact: TextMap<Vec<usize>> = TextMap::new();
    let mut entries: Vec<Sorted> = Vec::new();
    let mut i: usize = 0;
    assert forall|key: Seq<char>| #[trigger] list_at(exact, key) == list.equal_to(key, 0) by {
        assert(list_at(exact, key) =~= list.equal_to(key, 0));
    }
    while i < n
        invariant
            n == keys@.len(),
            ranks@.len() == n,
            ties@.len() == n,
            i <= n,
            list == (Keyed {
                keys: text::texts(keys@),
                ranks: ranks@,
                ties: text::texts(ties@),
                blanks,
            }),
            forall|key: Seq<char>| #[trigger]
                list_at(exact, key) == list.equal_to(key, i as int),
            listed(entries@, list, i as int),
        decreases n - i,
    {
        assert(list.keys[i as int] == keys@[i as int]@);
        assert(list.ties[i as int] == ties@[i as int]@);
        if blanks || !keys[i].as_str().is_empty() {
            let ghost before = exact;
            let ghost old_entries = entries@;
            exact.push_item(&keys[i], i);
            entries.push(
                Sorted {
                    key: text::copy_of(&keys[i]),
                    rank: ranks[i],
                    tie: text::copy_of(&ties[i]),
                    index: i,
                },
            );
            proof {
                assert forall|key: Seq<char>| #[trigger]
                    list_at(exact, key) == list.equal_to(key, i + 1) by {
                    assert(list_at(before, key) == list.equal_to(key, i as int));
                }
                assert forall|p: int| list.lists(p) && p < i + 1 implies exists|k: int|
                    0 <= k < entries@.len() && (#[trigger] entries@[k]).index == p by {
                    if p < i {
                        let k = choose|k: int|
                            0 <= k < old_entries.len() && (#[trigger] old_entries[k]).index == p;
                        assert(entries@[k].index == p);
                    } else {
                        assert(entries@[old_entries.len() as int].index == p);
                    }
                }
            }
        } else {
            assert forall|key: Seq<char>| #[trigger]
                list_at(exact, key) == list.equal_to(key, i + 1) by {
                assert(list_at(exact, key) == list.equal_to(key, i as int));
            }
        }
        i = i + 1;
    }
    let ghost unsorted = entries@;
    let sorted = sort(entries);
    let m: usize = sorted.len();
    let mut prefix: Vec<(String, usize)> = Vec::new();
    let mut j: usize = 0;
    while j < m
        invariant
            m == sorted@.len(),
            j <= m,
            prefix@.len() == j,
            forall|k: int|
                0 <= k < j ==> (#[trigger] prefix@[k]).0@ == sorted@[k].key@ && prefix@[k].1
                    == sorted@[k].index,
        decreases m - j,
    {
        prefix.push((text::copy_of(&sorted[j].key), sorted[j].index));
        j = j + 1;
    }
    let r = Lookup { exact, prefix };
    proof {
        let order = r.order();
        assert forall|k: int| 0 <= k < sorted@.len() implies #[trigger] order[k]
            == sorted@[k].index by {
            assert(prefix@[k].1 == sorted@[k].index);
        }
        lemma_listed_sorted(unsorted, sorted@, list, order);
        let p = choose|p: Seq<int>| arrangement(unsorted, sorted@, p);
        assert forall|k: int| 0 <= k < r.prefix@.len() implies (#[trigger] r.prefix@[k]).0@
            == list.keys[r.prefix@[k].1 as int] by {
            assert(sorted@[k] == unsorted[p[k]]);
        }
    }
    r
}

pub struct SearchHotIndex {
    pub symbols: Vec<SymbolHotEntry>,
    pub files: Vec<FileHotEntry>,
    pub by_name: Lookup,
    pub by_compact_name: Lookup,
    pub by_owner: Lookup,
    pub by_module: Lookup,
    pub by_basename: Lookup,
    pub by_path: Lookup,
}

/// What the index knows.
pub struct HotView {
    pub symbols: Seq<SymbolView>,
    pub files: Seq<FileView>,
    pub name_order: Seq<usize>,
    pub compact_order: Seq<usize>,
    pub owner_order: Seq<usize>,
    pub module_order: Seq<usize>,
    pub basename_order: Seq<usize>,
    pub path_order: Seq<usize>,
}

pub open spec fn symbol_views(v: Seq<SymbolHotEntry>) -> Seq<SymbolView> {
    v.map_values(|e: SymbolHotEntry| e@)
}

pub open spec fn file_views(v: Seq<FileHotEntry>) -> Seq<FileView> {
    v.map_values(|e: FileHotEntry| e@)
}

pub open spec fn kind_ranks(s: Seq<SymbolView>) -> Seq<i64> {
    s.map_values(|e: SymbolView| e.kind_rank)
}

pub open spec fn symbol_paths(s: Seq<SymbolView>) -> Seq<Seq<char>> {
    s.map_values(|e: SymbolView| e.path)
}

pub open spec fn names(s: Seq<SymbolView>) -> Keyed {
    Keyed {
        keys: s.map_values(|e: SymbolView| e.name_lc),
        ranks: kind_ranks(s),
        ties: symbol_paths(s),
        blanks: true,
    }
}

pub open spec fn compact_names(s: Seq<SymbolView>) -> Keyed {
    Keyed {
        keys: s.map_values(|e: SymbolView| e.compact_name),
        ranks: kind_ranks(s),
        ties: symbol_paths(s),
        blanks: false,
    }
}

pub open spec fn owners(s: Seq<SymbolView>) -> Keyed {
    Keyed {
        keys: s.map_values(|e: SymbolView| e.owner_name_lc),
        ranks: kind_ranks(s),
        ties: symbol_paths(s),
        blanks: false,
    }
}

pub open spec fn modules(s: Seq<SymbolView>) -> Keyed {
    Keyed {
        keys: s.map_values(|e: SymbolView| e.module_name_lc),
        ranks: kind_ranks(s),
        ties: symbol_paths(s),
        blanks: false,
    }
}

pub open spec fn no_ranks(n: nat) -> Seq<i64> {
    Seq::new(n, |i: int| 0i64)
}

pub open spec fn basenames(f: Seq<FileView>) -> Keyed {
    Keyed {
        keys: f.map_values(|e: FileView| e.basename_lc),
        ranks: no_ranks(f.len()),
        ties: f.map_values(|e: FileView| e.path),
        blanks: true,
    }
}

pub open spec fn paths(f: Seq<FileView>) -> Keyed {
    Keyed {
        keys: f.map_values(|e: FileView| e.path_lc),
        ranks: no_ranks(f.len()),
        ties: f.map_values(|e: FileView| e.basename),
        blanks: true,
    }
}

impl HotView {
    /// The orders are those of the symbols and the files.
    pub open spec fn well_formed(self) -> bool {
        &&& names(self.symbols).ordered(self.name_order)
        &&& compact_names(self.symbols).ordered(self.compact_order)
        &&& owners(self.symbols).ordered(self.owner_order)
        &&& modules(self.symbols).ordered(self.module_order)
        &&& basenames(self.files).ordered(self.basename_order)
        &&& paths(self.files).ordered(self.path_order)
    }
}

/// The items of the symbols at the places from position `k` on, of classes only if so asked.
pub open spec fn symbol_items(s: Seq<SymbolView>, places: Seq<usize>, class_only: bool, k: int) -> Seq<ItemView>
    decreases places.len() - k,
{
    if k < 0 || k >= places.len() {
        Seq::empty()
    } else if class_only && !s[places[k] as int].is_class_like {
        symbol_items(s, places, class_only, k + 1)
    } else {
        seq![item_of_symbol(s[places[k] as int])] + symbol_items(s, places, class_only, k + 1)
    }
}

pub open spec fn file_items(f: Seq<FileView>, places: Seq<usize>) -> Seq<ItemView> {
    places.map_values(|p: usize| item_of_file(f[p as int]))
}

/// The results with the symbols at these places.
pub open spec fn with_symbols(
    out: Seq<ItemView>,
    s: Seq<SymbolView>,
    places: Seq<usize>,
    class_only: bool,
    limit: usize,
) -> Seq<ItemView> {
    merged(Likeness::Find, out, symbol_items(s, places, class_only, 0), 0, limit as nat)
}

pub open spec fn with_files(out: Seq<ItemView>, f: Seq<FileView>, places: Seq<usize>, limit: usize) -> Seq<ItemView> {
    merged(Likeness::Find, out, file_items(f, places), 0, limit as nat)
}

/// The symbols of the index that match a query, the better matches first.
pub open spec fn symbols_found(v: HotView, query_text: Seq<char>, class_only: bool, limit: usize) -> Seq<ItemView> {
    let s = v.symbols;
    let n = s.len() as int;
    let q = text::lower(query_text);
    let c = compact(query_text);
    let a = with_symbols(Seq::empty(), s, names(s).equal_to(q, n), class_only, limit);
    let b = if identifier(query_text) {
        with_symbols(
            with_symbols(a, s, compact_names(s).equal_to(c, n), class_only, limit),
            s,
            compact_names(s).beginning(v.compact_order, c, 0),
            class_only,
            limit,
        )
    } else {
        a
    };
    let d = with_symbols(b, s, names(s).beginning(v.name_order, q, 0), class_only, limit);
    if identifier(query_text) {
        d
    } else {
        let e = with_symbols(d, s, owners(s).equal_to(q, n), class_only, limit);
        let f = with_symbols(e, s, owners(s).beginning(v.owner_order, q, 0), class_only, limit);
        let g = with_symbols(f, s, modules(s).equal_to(q, n), class_only, limit);
        with_symbols(g, s, modules(s).beginning(v.module_order, q, 0), class_only, limit)
    }
}

/// The symbols and files of the index that match a query.
pub open spec fn everything_found(v: HotView, query_text: Seq<char>, class_only: bool, limit: usize) -> Seq<ItemView> {
    let found = symbols_found(v, query_text, class_only, limit);
    if class_only || identifier(query_text) {
        found
    } else {
        let f = v.files;
        let n = f.len() as int;
        let q = text::lower(query_text);
        let a = with_files(found, f, basenames(f).equal_to(q, n), limit);
        let b = with_files(a, f, paths(f).equal_to(q, n), limit);
        let c = with_files(b, f, basenames(f).beginning(v.basename_order, q, 0), limit);
        with_files(c, f, paths(f).beginning(v.path_order, q, 0), limit)
    }
}

/// How many results must be found for a page.
pub open spec fn wanted(limit: usize, offset: usize) -> usize {
    within(sum_or_max(offset, limit), 1, 10_000)
}

pub open spec fn query_answer(v: HotView, pattern: Seq<char>, limit: usize, offset: usize, class_only: bool) -> Seq<ItemView> {
    let q = text::trimmed(pattern);
    if q.len() == 0 {
        Seq::empty()
    } else {
        page(everything_found(v, q, class_only, wanted(limit, offset)), offset as nat, limit as nat)
    }
}

pub open spec fn symbol_query_answer(
    v: HotView,
    pattern: Seq<char>,
    limit: usize,
    offset: usize,
    class_only: bool,
) -> Seq<ItemView> {
    let q = text::trimmed(pattern);
    if q.len() == 0 {
        Seq::empty()
    } else {
        page(symbols_found(v, q, class_only, wanted(limit, offset)), offset as nat, limit as nat)
    }
}

proof fn lemma_merged_behind(kind: Likeness, list: Seq<ItemView>, x: ItemView, rest: Seq<ItemView>, k: int, limit: nat)
    requires
        0 <= k,
    ensures
        merged(kind, list, seq![x] + rest, k + 1, limit) == merged(kind, list, rest, k, limit),
    decreases rest.len() - k,
{
    let more = seq![x] + rest;
    if k < rest.len() && list.len() < limit {
        assert(more[k + 1] == rest[k]);
        if super::item::has_like(kind, list, identity(kind, rest[k])) {
            lemma_merged_behind(kind, list, x, rest, k + 1, limit);
        } else {
            lemma_merged_behind(kind, list.push(rest[k]), x, rest, k + 1, limit);
        }
    }
}

spec fn valid(places: Seq<usize>, n: nat) -> bool {
    forall|i: int| 0 <= i < places.len() ==> (#[trigger] places[i]) < n
}

proof fn lemma_equal_valid(list: Keyed, key: Seq<char>, upto: int)
    requires
        upto <= list.keys.len() <= usize::MAX,
    ensures
        valid(list.equal_to(key, upto), list.keys.len()),
    decreases upto,
{
    if upto > 0 {
        lemma_equal_valid(list, key, upto - 1);
    }
}

proof fn lemma_beginning_valid(list: Keyed, order: Seq<usize>, prefix: Seq<char>, k: int)
    requires
        list.ordered(order),
    ensures
        valid(list.beginning(order, prefix, k), list.keys.len()),
    decreases order.len() - k,
{
    if 0 <= k < order.len() {
        lemma_beginning_valid(list, order, prefix, k + 1);
        assert(list.lists(order[k] as int));
    }
}

impl SearchHotIndex {
    pub open spec fn view(&self) -> HotView {
        HotView {
            symbols: symbol_views(self.symbols@),
            files: file_views(self.files@),
            name_order: self.by_name.order(),
            compact_order: self.by_compact_name.order(),
            owner_order: self.by_owner.order(),
            module_order: self.by_module.order(),
            basename_order: self.by_basename.order(),
            path_order: self.by_path.order(),
        }
    }

    /// The lookups answer for the symbols and files that the index holds.
    pub open spec fn well_formed(&self) -> bool {
        &&& self.by_name.answers(names(self@.symbols))
        &&& self.by_compact_name.answers(compact_names(self@.symbols))
        &&& self.by_owner.answers(owners(self@.symbols))
        &&& self.by_module.answers(modules(self@.symbols))
        &&& self.by_basename.answers(basenames(self@.files))
        &&& self.by_path.answers(paths(self@.files))
    }

    fn merge_symbol_indices(&self, out: &mut Merged, places: &Vec<usize>, class_only: bool, limit: usize)
        requires
            old(out).known(),
            old(out).kind == Likeness::Find,
            valid(places@, self@.symbols.len()),
        ensures
            final(out).known(),
            final(out).kind == Likeness::Find,
            final(out)@ == with_symbols(old(out)@, self@.symbols, places@, class_only, limit),
    {
        let ghost s = self@.symbols;
        let ghost whole = with_symbols(out@, s, places@, class_only, limit);
        let n: usize = places.len();
        let mut i: usize = 0;
        while i < n
            invariant
                out.known(),
                out.kind == Likeness::Find,
                s == self@.symbols,
                valid(places@, s.len()),
                n == places@.len(),
                i <= n,
                whole == with_symbols(old(out)@, s, places@, class_only, limit),
                whole == merged(
                    Likeness::Find,
                    out@,
                    symbol_items(s, places@, class_only, i as int),
                    0,
                    limit as nat,
                ),
            decreases n - i,
        {
            assert(out@.len() == out.items@.len());
            if out.items.len() >= limit {
                return ;
            }
            assert(places@[i as int] < s.len());
            let entry = &self.symbols[places[i]];
            assert(s[places@[i as int] as int] == entry@);
            if !class_only || entry.is_class_like {
                let ghost before = out@;
                let mut one: Vec<Item> = Vec::new();
                one.push(symbol_hot_entry_to_item(entry));
                out.merge(one.as_slice(), limit);
                proof {
                    let x = item_of_symbol(entry@);
                    let rest = symbol_items(s, places@, class_only, i + 1);
                    assert(super::item::items(one@) =~= seq![x]);
                    assert((seq![x] + rest)[0] == x);
                    let list = if super::item::has_like(
                        Likeness::Find,
                        before,
                        identity(Likeness::Find, x),
                    ) {
                        before
                    } else {
                        before.push(x)
                    };
                    assert(merged(Likeness::Find, list, seq![x], 1, limit as nat) == list);
                    assert(out@ == list);
                    lemma_merged_behind(Likeness::Find, list, x, rest, 0, limit as nat);
                }
            }
            i = i + 1;
        }
    }

    fn merge_file_indices(&self, out: &mut Merged, places: &Vec<usize>, limit: usize)
        requires
            old(out).known(),
            old(out).kind == Likeness::Find,
            valid(places@, self@.files.len()),
        ensures
            final(out).known(),
            final(out).kind == Likeness::Find,
            final(out)@ == with_files(old(out)@, self@.files, places@, limit),
    {
        let ghost f = self@.files;
        let n: usize = places.len();
        let mut more: Vec<Item> = Vec::new();
        let mut i: usize = 0;
        while i < n
            invariant
                f == self@.files,
                valid(places@, f.len()),
                n == places@.len(),
                i <= n,
                more@.len() == i,
                forall|j: int|
                    0 <= j < i ==> (#[trigger] more@[j])@ == item_of_file(f[places@[j] as int]),
            decreases n - i,
        {
            assert(places@[i as int] < f.len());
            let entry = &self.files[places[i]];
            assert(f[places@[i as int] as int] == entry@);
            more.push(file_hot_entry_to_item(entry));
            i = i + 1;
        }
        assert(super::item::items(more@) =~= file_items(f, places@));
        out.merge(more.as_slice(), limit);
    }

    fn merge_symbols_in(
        &self,
        out: &mut Merged,
        lookup: &Lookup,
        key: &str,
        begins: bool,
        class_only: bool,
        limit: usize,
        Ghost(list): Ghost<Keyed>,
    )
        requires
            old(out).known(),
            old(out).kind == Likeness::Find,
            lookup.answers(list),
            list.keys.len() == self@.symbols.len(),
        ensures
            final(out).known(),
            final(out).kind == Likeness::Find,
            final(out)@ == with_symbols(
                old(out)@,
                self@.symbols,
                if begins {
                    list.beginning(lookup.order(), key@, 0)
                } else {
                    list.equal_to(key@, list.keys.len() as int)
                },
                class_only,
                limit,
            ),
    {
        proof {
            lemma_equal_valid(list, key@, list.keys.len() as int);
            lemma_beginning_valid(list, lookup.order(), key@, 0);
        }
        let places = if begins {
            lookup.places_beginning(key, Ghost(list))
        } else {
            lookup.places_of(key, Ghost(list))
        };
        self.merge_symbol_indices(out, &places, class_only, limit);
    }

    fn merge_files_in(
        &self,
        out: &mut Merged,
        lookup: &Lookup,
        key: &str,
        begins: bool,
        limit: usize,
        Ghost(list): Ghost<Keyed>,
    )
        requires
            old(out).known(),
            old(out).kind == Likeness::Find,
            lookup.answers(list),
            list.keys.len() == self@.files.len(),
        ensures
            final(out).known(),
            final(out).kind == Likeness::Find,
            final(out)@ == with_files(
                old(out)@,
                self@.files,
                if begins {
                    list.beginning(lookup.order(), key@, 0)
                } else {
                    list.equal_to(key@, list.keys.len() as int)
                },
                limit,
            ),
    {
        proof {
            lemma_equal_valid(list, key@, list.keys.len() as int);
            lemma_beginning_valid(list, lookup.order(), key@, 0);
        }
        let places = if begins {
            lookup.places_beginning(key, Ghost(list))
        } else {
            lookup.places_of(key, Ghost(list))
        };
        self.merge_file_indices(out, &places, limit);
    }

    fn query_symbols_into(&self, query_text: &str, class_only: bool, limit: usize) -> (r: Merged)
        requires
            self.well_formed(),
        ensures
            r.known(),
            r.kind == Likeness::Find,
            r@ == symbols_found(self@, query_text@, class_only, limit),
    {
        let ghost s = self@.symbols;
        let mut out = Merged::new(Likeness::Find);
        let query = text::to_lower(query_text);
        let identifier_query = is_identifier_query(query_text);
        self.merge_symbols_in(
            &mut out,
            &self.by_name,
            &query,
            false,
            class_only,
            limit,
            Ghost(names(s)),
        );
        if identifier_query {
            let c = compact_identifier(query_text);
            self.merge_symbols_in(
                &mut out,
                &self.by_compact_name,
                &c,
                false,
                class_only,
                limit,
                Ghost(compact_names(s)),
            );
            self.merge_symbols_in(
                &mut out,
                &self.by_compact_name,
                &c,
                true,
                class_only,
                limit,
                Ghost(compact_names(s)),
            );
        }
        self.merge_symbols_in(
            &mut out,
            &self.by_name,
            &query,
            true,
            class_only,
            limit,
            Ghost(names(s)),
        );
        if !identifier_query {
            self.merge_symbols_in(
                &mut out,
                &self.by_owner,
                &query,
                false,
                class_only,
                limit,
                Ghost(owners(s)),
            );
            self.merge_symbols_in(
                &mut out,
                &self.by_owner,
                &query,
                true,
                class_only,
                limit,
                Ghost(owners(s)),
            );
            self.merge_symbols_in(
                &mut out,
                &self.by_module,
                &query,
                false,
                class_only,
                limit,
                Ghost(modules(s)),
            );
            self.merge_symbols_in(
                &mut out,
                &self.by_module,
                &query,
                true,
                class_only,
                limit,
                Ghost(modules(s)),
            );
        }
        out
    }

    /// Symbols and files that match the pattern; files only where the pattern is no identifier.
    pub fn query(&self, pattern: &str, limit: usize, offset: usize, class_only: bool) -> (r: Vec<Item>)
        requires
            self.well_formed(),
        ensures
            super::item::items(r@) == query_answer(self@, pattern@, limit, offset, class_only),
    {
        let target = clamped(saturated_sum(offset, limit), 1, 10_000);
        let query_text = text::trim(pattern);
        if query_text.is_empty() {
            let r: Vec<Item> = Vec::new();
            assert(super::item::items(r@) =~= Seq::<ItemView>::empty());
            return r;
        }
        let ghost f = self@.files;
        let mut out = self.query_symbols_into(query_text, class_only, target);
        if !class_only && !is_identifier_query(query_text) {
            let query = text::to_lower(query_text);
            self.merge_files_in(
                &mut out,
                &self.by_basename,
                &query,
                false,
                target,
                Ghost(basenames(f)),
            );
            self.merge_files_in(&mut out, &self.by_path, &query, false, target, Ghost(paths(f)));
            self.merge_files_in(
                &mut out,
                &self.by_basename,
                &query,
                true,
                target,
                Ghost(basenames(f)),
            );
            self.merge_files_in(&mut out, &self.by_path, &query, true, target, Ghost(paths(f)));
        }
        page_of(out.items.as_slice(), offset, limit)
    }

    /// Symbols that match the pattern.
    pub fn query_symbols_only(&self, pattern: &str, limit: usize, offset: usize, class_only: bool) -> (r: Vec<
        Item,
    >)
        requires
            self.well_formed(),
        ensures
            super::item::items(r@) == symbol_query_answer(
                self@,
                pattern@,
                limit,
                offset,
                class_only,
            ),
    {
        let target = clamped(saturated_sum(offset, limit), 1, 10_000);
        let query_text = text::trim(pattern);
        if query_text.is_empty() {
            let r: Vec<Item> = Vec::new();
            assert(super::item::items(r@) =~= Seq::<ItemView>::empty());
            return r;
        }
        let out = self.query_symbols_into(query_text, class_only, target);
        page_of(out.items.as_slice(), offset, limit)
    }
}

fn or_default(s: &Option<String>) -> (r: String)
    ensures
        r@ == or_nothing(text::opt_text(*s)),
{
    match s {
        Some(t) => text::copy_of(t),
        None => String::new(),
    }
}

fn symbol_entry(row: &SymbolRow) -> (r: SymbolHotEntry)
    ensures
        r@ == symbol_kept(*row),
{
    SymbolHotEntry {
        name: text::copy_of(&row.name),
        kind: text::copy_of(&row.kind),
        owner_name: text::copy_opt(&row.owner_name),
        path: normalize_path(&row.path),
        line_number: row.line_number,
        module_name: text::copy_opt(&row.module_name),
        name_lc: text::copy_of(&row.name_lc),
        compact_name: text::copy_of(&row.compact_name),
        owner_name_lc: or_default(&row.owner_name_lc),
        module_name_lc: or_default(&row.module_name_lc),
        kind_rank: row.kind_rank,
        is_class_like: row.is_class_like != 0,
    }
}

fn file_entry(row: &FileRow) -> (r: FileHotEntry)
    ensures
        r@ == file_kept(*row),
{
    FileHotEntry {
        basename: text::copy_of(&row.basename),
        path: normalize_path(&row.path),
        module_name: text::copy_opt(&row.module_name),
        module_root: normalize_opt(&row.module_root),
        basename_lc: text::copy_of(&row.basename_lc),
        path_lc: text::copy_of(&row.path_lc),
    }
}

pub open spec fn symbols_kept(rows: Seq<SymbolRow>) -> Seq<SymbolView> {
    rows.map_values(|r: SymbolRow| symbol_kept(r))
}

pub open spec fn files_kept(rows: Seq<FileRow>) -> Seq<FileView> {
    rows.map_values(|r: FileRow| file_kept(r))
}

/// The four texts of a symbol by which it can be found.
#[derive(Clone, Copy, PartialEq, Eq, Structural)]
enum SymbolKey {
    Name,
    Compact,
    Owner,
    Module,
}

spec fn keyed_by(s: Seq<SymbolView>, which: SymbolKey) -> Keyed {
    match which {
        SymbolKey::Name => names(s),
        SymbolKey::Compact => compact_names(s),
        SymbolKey::Owner => owners(s),
        SymbolKey::Module => modules(s),
    }
}

fn symbol_lookup(symbols: &Vec<SymbolHotEntry>, which: SymbolKey) -> (r: Lookup)
    ensures
        r.answers(keyed_by(symbol_views(symbols@), which)),
{
    let ghost s = symbol_views(symbols@);
    let ghost list = keyed_by(s, which);
    let n: usize = symbols.len();
    let mut keys: Vec<String> = Vec::new();
    let mut ranks: Vec<i64> = Vec::new();
    let mut ties: Vec<String> = Vec::new();
    let mut i: usize = 0;
    while i < n
        invariant
            s == symbol_views(symbols@),
            list == keyed_by(s, which),
            n == symbols@.len(),
            i <= n,
            keys@.len() == i,
            ranks@.len() == i,
            ties@.len() == i,
            forall|j: int| 0 <= j < i ==> (#[trigger] keys@[j])@ == list.keys[j],
            forall|j: int| 0 <= j < i ==> #[trigger] ranks@[j] == list.ranks[j],
            forall|j: int| 0 <= j < i ==> (#[trigger] ties@[j])@ == list.ties[j],
        decreases n - i,
    {
        let entry = &symbols[i];
        assert(s[i as int] == entry@);
        let key = match which {
            SymbolKey::Name => &entry.name_lc,
            SymbolKey::Compact => &entry.compact_name,
            SymbolKey::Owner => &entry.owner_name_lc,
            SymbolKey::Module => &entry.module_name_lc,
        };
        keys.push(text::copy_of(key));
        ranks.push(entry.kind_rank);
        ties.push(text::copy_of(&entry.path));
        i = i + 1;
    }
    assert(text::texts(keys@) =~= list.keys);
    assert(ranks@ =~= list.ranks);
    assert(text::texts(ties@) =~= list.ties);
    build_lookup(keys, &ranks, ties, which == SymbolKey::Name)
}

fn file_lookup(files: &Vec<FileHotEntry>, by_path: bool) -> (r: Lookup)
    ensures
        r.answers(
            if by_path {
                paths(file_views(files@))
            } else {
                basenames(file_views(files@))
            },
        ),
{
    let ghost f = file_views(files@);
    let ghost list = if by_path {
        paths(f)
    } else {
        basenames(f)
    };
    let n: usize = files.len();
    let mut keys: Vec<String> = Vec::new();
    let mut ranks: Vec<i64> = Vec::new();
    let mut ties: Vec<String> = Vec::new();
    let mut i: usize = 0;
    while i < n
        invariant
            f == file_views(files@),
            list == if by_path {
                paths(f)
            } else {
                basenames(f)
            },
            n == files@.len(),
            i <= n,
            keys@.len() == i,
            ranks@.len() == i,
            ties@.len() == i,
            forall|j: int| 0 <= j < i ==> (#[trigger] keys@[j])@ == list.keys[j],
            forall|j: int| 0 <= j < i ==> #[trigger] ranks@[j] == list.ranks[j],
            forall|j: int| 0 <= j < i ==> (#[trigger] ties@[j])@ == list.ties[j],
        decreases n - i,
    {
        let entry = &files[i];
        assert(f[i as int] == entry@);
        if by_path {
            keys.push(text::copy_of(&entry.path_lc));
            ties.push(text::copy_of(&entry.basename));
        } else {
            keys.push(text::copy_of(&entry.basename_lc));
            ties.push(text::copy_of(&entry.path));
        }
        ranks.push(0);
        i = i + 1;
    }
    assert(text::texts(keys@) =~= list.keys);
    assert(ranks@ =~= list.ranks);
    assert(text::texts(ties@) =~= list.ties);
    build_lookup(keys, &ranks, ties, true)
}

/// Builds the index from the rows of a store.
pub fn build_search_hot_index(symbol_rows: &Vec<SymbolRow>, file_rows: &Vec<FileRow>) -> (r: SearchHotIndex)
    ensures
        r.well_formed(),
        r@.symbols == symbols_kept(symbol_rows@),
        r@.files == files_kept(file_rows@),
{
    let mut symbols: Vec<SymbolHotEntry> = Vec::new();
    let n: usize = symbol_rows.len();
    let mut i: usize = 0;
    while i < n
        invariant
            n == symbol_rows@.len(),
            i <= n,
            symbols@.len() == i,
            forall|j: int|
                0 <= j < i ==> (#[trigger] symbols@[j])@ == symbol_kept(symbol_rows@[j]),
        decreases n - i,
    {
        symbols.push(symbol_entry(&symbol_rows[i]));
        i = i + 1;
    }
    let mut files: Vec<FileHotEntry> = Vec::new();
    let m: usize = file_rows.len();
    let mut k: usize = 0;
    while k < m
        invariant
            m == file_rows@.len(),
            k <= m,
            files@.len() == k,
            forall|j: int| 0 <= j < k ==> (#[trigger] files@[j])@ == file_kept(file_rows@[j]),
        decreases m - k,
    {
        files.push(file_entry(&file_rows[k]));
        k = k + 1;
    }
    assert(symbol_views(symbols@) =~= symbols_kept(symbol_rows@));
    assert(file_views(files@) =~= files_kept(file_rows@));
    let by_name = symbol_lookup(&symbols, SymbolKey::Name);
    let by_compact_name = symbol_lookup(&symbols, SymbolKey::Compact);
    let by_owner = symbol_lookup(&symbols, SymbolKey::Owner);
    let by_module = symbol_lookup(&symbols, SymbolKey::Module);
    let by_basename = file_lookup(&files, false);
    let by_path = file_lookup(&files, true);
    SearchHotIndex {
        symbols,
        files,
        by_name,
        by_compact_name,
        by_owner,
        by_module,
        by_basename,
        by_path,
    }
}

// ---------------------------------------------------------------------------
// What holds of the answers
// ---------------------------------------------------------------------------
/// The item stands for something that the index knows.
pub open spec fn known_item(v: HotView, item: ItemView) -> bool {
    (exists|i: int| 0 <= i < v.symbols.len() && item == item_of_symbol(#[trigger] v.symbols[i])) || (
    exists|i: int| 0 <= i < v.files.len() && item == item_of_file(#[trigger] v.files[i]))
}

spec fn known_items(v: HotView, list: Seq<ItemView>) -> bool {
    forall|i: int| 0 <= i < list.len() ==> known_item(v, #[trigger] list[i])
}

/// The results hold no two alike, come from the index and are no more than asked for.
spec fn fit(v: HotView, list: Seq<ItemView>, limit: nat) -> bool {
    all_differ(Likeness::Find, list) && known_items(v, list) && list.len() <= limit
}

proof fn lemma_symbol_items_known(v: HotView, places: Seq<usize>, class_only: bool, k: int)
    requires
        valid(places, v.symbols.len()),
    ensures
        known_items(v, symbol_items(v.symbols, places, class_only, k)),
    decreases places.len() - k,
{
    if 0 <= k < places.len() {
        lemma_symbol_items_known(v, places, class_only, k + 1);
        let rest = symbol_items(v.symbols, places, class_only, k + 1);
        let x = item_of_symbol(v.symbols[places[k] as int]);
        assert(known_item(v, x));
        assert forall|i: int| 0 <= i < (seq![x] + rest).len() implies known_item(
            v,
            #[trigger] (seq![x] + rest)[i],
        ) by {
            if i > 0 {
                assert((seq![x] + rest)[i] == rest[i - 1]);
            }
        }
    }
}

proof fn lemma_merged_known(v: HotView, list: Seq<ItemView>, more: Seq<ItemView>, k: int, limit: nat)
    requires
        known_items(v, list),
        known_items(v, more),
    ensures
        known_items(v, merged(Likeness::Find, list, more, k, limit)),
    decreases more.len() - k,
{
    if 0 <= k < more.len() && list.len() < limit {
        if super::item::has_like(Likeness::Find, list, identity(Likeness::Find, more[k])) {
            lemma_merged_known(v, list, more, k + 1, limit);
        } else {
            lemma_merged_known(v, list.push(more[k]), more, k + 1, limit);
        }
    }
}

/// Symbols that are added leave the results fit, and in front of them what was there.
proof fn lemma_with_symbols(v: HotView, out: Seq<ItemView>, places: Seq<usize>, class_only: bool, limit: usize)
    requires
        fit(v, out, limit as nat),
        valid(places, v.symbols.len()),
    ensures
        ({
            let r = with_symbols(out, v.symbols, places, class_only, limit);
            fit(v, r, limit as nat) && out.len() <= r.len() && r.take(out.len() as int) == out
        }),
{
    let more = symbol_items(v.symbols, places, class_only, 0);
    lemma_symbol_items_known(v, places, class_only, 0);
    lemma_merged_known(v, out, more, 0, limit as nat);
    merging_adds_new_items_only(Likeness::Find, out, more, 0, limit as nat);
}

proof fn lemma_with_files(v: HotView, out: Seq<ItemView>, places: Seq<usize>, limit: usize)
    requires
        fit(v, out, limit as nat),
        valid(places, v.files.len()),
    ensures
        ({
            let r = with_files(out, v.files, places, limit);
            fit(v, r, limit as nat) && out.len() <= r.len() && r.take(out.len() as int) == out
        }),
{
    let more = file_items(v.files, places);
    assert forall|i: int| 0 <= i < more.len() implies known_item(v, #[trigger] more[i]) by {
        assert(more[i] == item_of_file(v.files[places[i] as int]));
    }
    lemma_merged_known(v, out, more, 0, limit as nat);
    merging_adds_new_items_only(Likeness::Find, out, more, 0, limit as nat);
}

proof fn lemma_take_twice(a: Seq<ItemView>, b: Seq<ItemView>, c: Seq<ItemView>)
    requires
        a.len() <= b.len() <= c.len(),
        b.take(a.len() as int) == a,
        c.take(b.len() as int) == b,
    ensures
        c.take(a.len() as int) == a,
{
    assert(c.take(a.len() as int) =~= c.take(b.len() as int).take(a.len() as int));
}

proof fn lemma_symbols_found(v: HotView, q: Seq<char>, class_only: bool, limit: usize)
    requires
        v.well_formed(),
        v.symbols.len() <= usize::MAX,
    ensures
        ({
            let s = v.symbols;
            let r = symbols_found(v, q, class_only, limit);
            let first = with_symbols(
                Seq::empty(),
                s,
                names(s).equal_to(text::lower(q), s.len() as int),
                class_only,
                limit,
            );
            fit(v, r, limit as nat) && first.len() <= r.len() && r.take(first.len() as int) == first
        }),
{
    let s = v.symbols;
    let n = s.len() as int;
    let low = text::lower(q);
    let c = compact(q);
    lemma_equal_valid(names(s), low, n);
    lemma_equal_valid(compact_names(s), c, n);
    lemma_equal_valid(owners(s), low, n);
    lemma_equal_valid(modules(s), low, n);
    lemma_beginning_valid(names(s), v.name_order, low, 0);
    lemma_beginning_valid(compact_names(s), v.compact_order, c, 0);
    lemma_beginning_valid(owners(s), v.owner_order, low, 0);
    lemma_beginning_valid(modules(s), v.module_order, low, 0);
    let none = Seq::<ItemView>::empty();
    let a = with_symbols(none, s, names(s).equal_to(low, n), class_only, limit);
    lemma_with_symbols(v, none, names(s).equal_to(low, n), class_only, limit);
    assert(a.take(a.len() as int) =~= a);
    let b = if identifier(q) {
        let b1 = with_symbols(a, s, compact_names(s).equal_to(c, n), class_only, limit);
        let places = compact_names(s).beginning(v.compact_order, c, 0);
        lemma_with_symbols(v, a, compact_names(s).equal_to(c, n), class_only, limit);
        lemma_with_symbols(v, b1, places, class_only, limit);
        lemma_take_twice(a, b1, with_symbols(b1, s, places, class_only, limit));
        with_symbols(b1, s, places, class_only, limit)
    } else {
        a
    };
    let d = with_symbols(b, s, names(s).beginning(v.name_order, low, 0), class_only, limit);
    lemma_with_symbols(v, b, names(s).beginning(v.name_order, low, 0), class_only, limit);
    lemma_take_twice(a, b, d);
    if !identifier(q) {
        let e = with_symbols(d, s, owners(s).equal_to(low, n), class_only, limit);
        lemma_with_symbols(v, d, owners(s).equal_to(low, n), class_only, limit);
        lemma_take_twice(a, d, e);
        let behind = owners(s).beginning(v.owner_order, low, 0);
        let f = with_symbols(e, s, behind, class_only, limit);
        lemma_with_symbols(v, e, behind, class_only, limit);
        lemma_take_twice(a, e, f);
        let g = with_symbols(f, s, modules(s).equal_to(low, n), class_only, limit);
        lemma_with_symbols(v, f, modules(s).equal_to(low, n), class_only, limit);
        lemma_take_twice(a, f, g);
        let last = modules(s).beginning(v.module_order, low, 0);
        lemma_with_symbols(v, g, last, class_only, limit);
        lemma_take_twice(a, g, with_symbols(g, s, last, class_only, limit));
    }
}

proof fn lemma_everything_found(v: HotView, q: Seq<char>, class_only: bool, limit: usize)
    requires
        v.well_formed(),
        v.symbols.len() <= usize::MAX,
        v.files.len() <= usize::MAX,
    ensures
        ({
            let r = everything_found(v, q, class_only, limit);
            let first = symbols_found(v, q, class_only, limit);
            fit(v, r, limit as nat) && first.len() <= r.len() && r.take(first.len() as int) == first
        }),
{
    let found = symbols_found(v, q, class_only, limit);
    lemma_symbols_found(v, q, class_only, limit);
    assert(found.take(found.len() as int) =~= found);
    if !(class_only || identifier(q)) {
        let f = v.files;
        let n = f.len() as int;
        let low = text::lower(q);
        lemma_equal_valid(basenames(f), low, n);
        lemma_equal_valid(paths(f), low, n);
        lemma_beginning_valid(basenames(f), v.basename_order, low, 0);
        lemma_beginning_valid(paths(f), v.path_order, low, 0);
        let a = with_files(found, f, basenames(f).equal_to(low, n), limit);
        lemma_with_files(v, found, basenames(f).equal_to(low, n), limit);
        let b = with_files(a, f, paths(f).equal_to(low, n), limit);
        lemma_with_files(v, a, paths(f).equal_to(low, n), limit);
        lemma_take_twice(found, a, b);
        let places = basenames(f).beginning(v.basename_order, low, 0);
        let c = with_files(b, f, places, limit);
        lemma_with_files(v, b, places, limit);
        lemma_take_twice(found, b, c);
        let last = paths(f).beginning(v.path_order, low, 0);
        lemma_with_files(v, c, last, limit);
        lemma_take_twice(found, c, with_files(c, f, last, limit));
    }
}

proof fn lemma_page_fit(v: HotView, list: Seq<ItemView>, most: nat, offset: nat, limit: nat)
    requires
        fit(v, list, most),
    ensures
        fit(v, page(list, offset, limit), limit),
{
    let p = page(list, offset, limit);
    assert forall|i: int| 0 <= i < p.len() implies #[trigger] p[i] == list[offset + i] by {}
}

/// An answer of the index is no longer than asked for, holds no two results alike, and holds
/// nothing but what the index knows.
pub proof fn answers_are_known_and_differ(
    v: HotView,
    pattern: Seq<char>,
    limit: usize,
    offset: usize,
    class_only: bool,
    i: int,
)
    requires
        v.well_formed(),
        v.symbols.len() <= usize::MAX,
        v.files.len() <= usize::MAX,
    ensures
        query_answer(v, pattern, limit, offset, class_only).len() <= limit,
        symbol_query_answer(v, pattern, limit, offset, class_only).len() <= limit,
        all_differ(Likeness::Find, query_answer(v, pattern, limit, offset, class_only)),
        all_differ(Likeness::Find, symbol_query_answer(v, pattern, limit, offset, class_only)),
        0 <= i < query_answer(v, pattern, limit, offset, class_only).len() ==> known_item(
            v,
            query_answer(v, pattern, limit, offset, class_only)[i],
        ),
        0 <= i < symbol_query_answer(v, pattern, limit, offset, class_only).len() ==> known_item(
            v,
            symbol_query_answer(v, pattern, limit, offset, class_only)[i],
        ),
{
    let q = text::trimmed(pattern);
    if q.len() > 0 {
        let most = wanted(limit, offset);
        lemma_symbols_found(v, q, class_only, most);
        lemma_everything_found(v, q, class_only, most);
        lemma_page_fit(
            v,
            symbols_found(v, q, class_only, most),
            most as nat,
            offset as nat,
            limit as nat,
        );
        lemma_page_fit(
            v,
            everything_found(v, q, class_only, most),
            most as nat,
            offset as nat,
            limit as nat,
        );
    }
}

/// The symbol bears the name that is asked for, and is a type where only types are.
pub open spec fn named(s: SymbolView, q: Seq<char>, class_only: bool) -> bool {
    s.name_lc == text::lower(q) && (class_only ==> s.is_class_like)
}

proof fn lemma_equal_holds(list: Keyed, key: Seq<char>, upto: int, i: int)
    requires
        0 <= i < upto <= list.keys.len() <= usize::MAX,
        list.lists(i),
        list.keys[i] == key,
    ensures
        list.equal_to(key, upto).contains(i as usize),
    decreases upto,
{
    if i < upto - 1 {
        lemma_equal_holds(list, key, upto - 1, i);
        let a = list.equal_to(key, upto - 1);
        let x = choose|x: int| 0 <= x < a.len() && a[x] == i as usize;
        assert(list.equal_to(key, upto)[x] == i as usize);
    } else {
        assert(list.equal_to(key, upto).last() == i as usize);
    }
}

proof fn lemma_equal_keys(list: Keyed, key: Seq<char>, upto: int)
    requires
        upto <= list.keys.len() <= usize::MAX,
    ensures
        forall|x: int|
            0 <= x < list.equal_to(key, upto).len() ==> list.keys[(
            #[trigger] list.equal_to(key, upto)[x]) as int] == key,
    decreases upto,
{
    if upto > 0 {
        lemma_equal_keys(list, key, upto - 1);
        assert forall|x: int| 0 <= x < list.equal_to(key, upto).len() implies list.keys[(
        #[trigger] list.equal_to(key, upto)[x]) as int] == key by {
            if x < list.equal_to(key, upto - 1).len() {
                assert(list.equal_to(key, upto)[x] == list.equal_to(key, upto - 1)[x]);
            }
        }
    }
}

/// The first of the items at these places is that of a symbol that may be shown, if there is one.
proof fn lemma_first_item(v: HotView, places: Seq<usize>, class_only: bool, k: int, x: int) -> (y: int)
    requires
        valid(places, v.symbols.len()),
        0 <= k <= x < places.len(),
        class_only ==> v.symbols[places[x] as int].is_class_like,
    ensures
        k <= y < places.len(),
        class_only ==> v.symbols[places[y] as int].is_class_like,
        symbol_items(v.symbols, places, class_only, k).len() > 0,
        symbol_items(v.symbols, places, class_only, k)[0] == item_of_symbol(
            v.symbols[places[y] as int],
        ),
    decreases places.len() - k,
{
    if class_only && !v.symbols[places[k] as int].is_class_like {
        lemma_first_item(v, places, class_only, k + 1, x)
    } else {
        k
    }
}

/// If a symbol bears the name that is asked for, the first answer is a symbol of that name.
pub proof fn exact_name_comes_first(v: HotView, pattern: Seq<char>, limit: usize, class_only: bool, i: int)
    requires
        v.well_formed(),
        v.symbols.len() <= usize::MAX,
        v.files.len() <= usize::MAX,
        text::trimmed(pattern).len() > 0,
        limit > 0,
        0 <= i < v.symbols.len(),
        named(v.symbols[i], text::trimmed(pattern), class_only),
    ensures
        ({
            let a = query_answer(v, pattern, limit, 0, class_only);
            a.len() > 0 && exists|j: int|
                0 <= j < v.symbols.len() && named(
                    #[trigger] v.symbols[j],
                    text::trimmed(pattern),
                    class_only,
                ) && a[0] == item_of_symbol(v.symbols[j])
        }),
        ({
            let a = symbol_query_answer(v, pattern, limit, 0, class_only);
            a.len() > 0 && exists|j: int|
                0 <= j < v.symbols.len() && named(
                    #[trigger] v.symbols[j],
                    text::trimmed(pattern),
                    class_only,
                ) && a[0] == item_of_symbol(v.symbols[j])
        }),
{
    let q = text::trimmed(pattern);
    let s = v.symbols;
    let most = wanted(limit, 0);
    let list = names(s);
    let places = list.equal_to(text::lower(q), s.len() as int);
    lemma_equal_holds(list, text::lower(q), s.len() as int, i);
    lemma_equal_keys(list, text::lower(q), s.len() as int);
    lemma_equal_valid(list, text::lower(q), s.len() as int);
    let x = choose|x: int| 0 <= x < places.len() && places[x] == i as usize;
    let y = lemma_first_item(v, places, class_only, 0, x);
    let j = places[y] as int;
    assert(list.keys[places[y] as int] == text::lower(q));
    assert(named(s[j], q, class_only));
    let more = symbol_items(s, places, class_only, 0);
    let none = Seq::<ItemView>::empty();
    let first = with_symbols(none, s, places, class_only, most);
    merging_adds_new_items_only(Likeness::Find, none.push(more[0]), more, 1, most as nat);
    assert(first == merged(Likeness::Find, none.push(more[0]), more, 1, most as nat));
    assert(first.take(1)[0] == first[0]);
    assert(first[0] == more[0]);
    lemma_symbols_found(v, q, class_only, most);
    lemma_everything_found(v, q, class_only, most);
    let found = symbols_found(v, q, class_only, most);
    let all = everything_found(v, q, class_only, most);
    assert(found.take(first.len() as int)[0] == found[0]);
    assert(all.take(found.len() as int)[0] == all[0]);
}

} // verus!
