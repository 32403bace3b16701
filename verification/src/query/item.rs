//! The items that queries answer with: named fields, and ways to tell two items apart.
use vstd::prelude::*;

use crate::text;
use crate::textmap::{key_position, lemma_key_position, TextMap};

verus! {

/// The value of a field. What is neither text, whole number nor truth value is held by the caller
/// under a number.
#[derive(Debug)]
pub enum Field {
    Null,
    Bool(bool),
    Int(i64),
    Text(String),
    Held(u64),
}

#[verifier::ext_equal]
pub enum FieldView {
    Null,
    Bool(bool),
    Int(i64),
    Text(Seq<char>),
    Held(u64),
}

impl View for Field {
    type V = FieldView;

    open spec fn view(&self) -> FieldView {
        match self {
            Field::Null => FieldView::Null,
            Field::Bool(b) => FieldView::Bool(*b),
            Field::Int(n) => FieldView::Int(*n),
            Field::Text(s) => FieldView::Text(s@),
            Field::Held(n) => FieldView::Held(*n),
        }
    }
}

impl Field {
    pub fn copy(&self) -> (r: Field)
        ensures
            r@ == self@,
    {
        match self {
            Field::Null => Field::Null,
            Field::Bool(b) => Field::Bool(*b),
            Field::Int(n) => Field::Int(*n),
            Field::Text(s) => Field::Text(text::copy_of(s)),
            Field::Held(n) => Field::Held(*n),
        }
    }

    pub fn text(s: &str) -> (r: Field)
        ensures
            r@ == FieldView::Text(s@),
    {
        Field::Text(text::copy_of(s))
    }

    pub fn text_opt(s: &Option<String>) -> (r: Field)
        ensures
            r@ == text_field(text::opt_text(*s)),
    {
        match s {
            Some(t) => Field::text(t),
            None => Field::Null,
        }
    }

    pub fn int_opt(n: Option<i64>) -> (r: Field)
        ensures
            r@ == int_field(n),
    {
        match n {
            Some(n) => Field::Int(n),
            None => Field::Null,
        }
    }
}

pub open spec fn text_field(s: Option<Seq<char>>) -> FieldView {
    match s {
        Some(t) => FieldView::Text(t),
        None => FieldView::Null,
    }
}

pub open spec fn int_field(n: Option<i64>) -> FieldView {
    match n {
        Some(n) => FieldView::Int(n),
        None => FieldView::Null,
    }
}

/// An item: its fields by name.
#[derive(Debug)]
pub struct Item {
    pub fields: Vec<(String, Field)>,
}

pub type ItemView = Seq<(Seq<char>, FieldView)>;

pub open spec fn field_views(v: Seq<(String, Field)>) -> ItemView {
    v.map_values(|e: (String, Field)| (e.0@, e.1@))
}

impl View for Item {
    type V = ItemView;

    open spec fn view(&self) -> ItemView {
        field_views(self.fields@)
    }
}

pub open spec fn items(v: Seq<Item>) -> Seq<ItemView> {
    v.map_values(|i: Item| i@)
}

/// The field under a name.
pub open spec fn field_of(item: ItemView, key: Seq<char>) -> Option<FieldView> {
    let i = key_position(item, key, 0);
    if i < item.len() {
        Some(item[i].1)
    } else {
        None
    }
}

/// The field under the first name, and under the second where there is none.
pub open spec fn field_of_either(item: ItemView, first: Seq<char>, second: Seq<char>) -> Option<FieldView> {
    match field_of(item, first) {
        Some(f) => Some(f),
        None => field_of(item, second),
    }
}

pub open spec fn as_text(f: Option<FieldView>) -> Option<Seq<char>> {
    match f {
        Some(FieldView::Text(s)) => Some(s),
        _ => None,
    }
}

pub open spec fn as_int(f: Option<FieldView>) -> Option<i64> {
    match f {
        Some(FieldView::Int(n)) => Some(n),
        _ => None,
    }
}

pub open spec fn or_empty(s: Option<Seq<char>>) -> Seq<char> {
    match s {
        Some(t) => t,
        None => Seq::empty(),
    }
}

/// The text under a name; empty where there is none.
pub open spec fn text_at(item: ItemView, key: Seq<char>) -> Seq<char> {
    or_empty(as_text(field_of(item, key)))
}

/// The path of an item, whichever of its two names it goes by.
pub open spec fn path_at(item: ItemView) -> Seq<char> {
    or_empty(as_text(field_of_either(item, "path"@, "file_path"@)))
}

pub open spec fn int_or(n: Option<i64>, other: i64) -> i64 {
    match n {
        Some(n) => n,
        None => other,
    }
}

/// The item with a field set.
pub open spec fn with_field(item: ItemView, key: Seq<char>, f: FieldView) -> ItemView {
    let i = key_position(item, key, 0);
    if i < item.len() {
        item.update(i, (key, f))
    } else {
        item.push((key, f))
    }
}

/// The item with a mark of where it came from, unless it has one.
pub open spec fn tagged(item: ItemView, source: Seq<char>) -> ItemView {
    match field_of(item, "source"@) {
        Some(_) => item,
        None => with_field(item, "source"@, FieldView::Text(source)),
    }
}

pub open spec fn all_tagged(list: Seq<ItemView>, source: Seq<char>) -> Seq<ItemView> {
    list.map_values(|i: ItemView| tagged(i, source))
}

impl Item {
    pub fn new() -> (r: Item)
        ensures
            r@ == Seq::<(Seq<char>, FieldView)>::empty(),
    {
        let r = Item { fields: Vec::new() };
        assert(r@ =~= Seq::<(Seq<char>, FieldView)>::empty());
        r
    }

    /// The item with one more field behind the others.
    pub fn and(self, key: &str, f: Field) -> (r: Item)
        ensures
            r@ == self@.push((key@, f@)),
    {
        let mut fields = self.fields;
        fields.push((text::copy_of(key), f));
        let r = Item { fields };
        assert(r@ =~= self@.push((key@, f@)));
        r
    }

    pub fn copy(&self) -> (r: Item)
        ensures
            r@ == self@,
    {
        let mut fields: Vec<(String, Field)> = Vec::new();
        let n: usize = self.fields.len();
        let mut i: usize = 0;
        while i < n
            invariant
                n == self.fields@.len(),
                i <= n,
                fields@.len() == i,
                forall|j: int|
                    0 <= j < i ==> (#[trigger] fields@[j]).0@ == self.fields@[j].0@ && fields@[j].1@
                        == self.fields@[j].1@,
            decreases n - i,
        {
            fields.push((text::copy_of(&self.fields[i].0), self.fields[i].1.copy()));
            i = i + 1;
        }
        let r = Item { fields };
        assert(r@ =~= self@);
        r
    }

    fn position(&self, key: &str) -> (r: usize)
        ensures
            r == key_position(self@, key@, 0),
            r <= self@.len(),
            self@.len() == self.fields@.len(),
    {
        let n: usize = self.fields.len();
        let mut i: usize = 0;
        while i < n
            invariant
                n == self.fields@.len(),
                n == self@.len(),
                i <= n,
                key_position(self@, key@, 0) == key_position(self@, key@, i as int),
            decreases n - i,
        {
            assert(self@[i as int].0 == self.fields@[i as int].0@);
            if text::same(&self.fields[i].0, key) {
                return i;
            }
            i = i + 1;
        }
        n
    }

    pub fn get(&self, key: &str) -> (r: Option<&Field>)
        ensures
            match r {
                Some(f) => field_of(self@, key@) == Some(f@),
                None => field_of(self@, key@) is None,
            },
    {
        let i: usize = self.position(key);
        if i < self.fields.len() {
            assert(self@[i as int].1 == self.fields@[i as int].1@);
            Some(&self.fields[i].1)
        } else {
            None
        }
    }

    /// The text under a name; empty where there is none.
    pub fn text(&self, key: &str) -> (r: &str)
        ensures
            r@ == text_at(self@, key@),
    {
        proof {
            reveal_strlit("");
            assert(""@ =~= Seq::<char>::empty());
        }
        match self.get(key) {
            Some(Field::Text(s)) => s.as_str(),
            _ => "",
        }
    }

    pub fn text_opt(&self, key: &str) -> (r: Option<&str>)
        ensures
            text::opt_str(r) == as_text(field_of(self@, key@)),
    {
        match self.get(key) {
            Some(Field::Text(s)) => Some(s.as_str()),
            _ => None,
        }
    }

    pub fn either_text(&self, first: &str, second: &str) -> (r: Option<&str>)
        ensures
            text::opt_str(r) == as_text(field_of_either(self@, first@, second@)),
    {
        match self.get(first) {
            Some(Field::Text(s)) => Some(s.as_str()),
            Some(_) => None,
            None => self.text_opt(second),
        }
    }

    pub fn path(&self) -> (r: &str)
        ensures
            r@ == path_at(self@),
    {
        proof {
            reveal_strlit("");
            assert(""@ =~= Seq::<char>::empty());
        }
        match self.either_text("path", "file_path") {
            Some(s) => s,
            None => "",
        }
    }

    pub fn whole(&self, key: &str) -> (r: Option<i64>)
        ensures
            r == as_int(field_of(self@, key@)),
    {
        match self.get(key) {
            Some(Field::Int(n)) => Some(*n),
            _ => None,
        }
    }

    pub fn either_whole(&self, first: &str, second: &str) -> (r: Option<i64>)
        ensures
            r == as_int(field_of_either(self@, first@, second@)),
    {
        match self.get(first) {
            Some(Field::Int(n)) => Some(*n),
            Some(_) => None,
            None => self.whole(second),
        }
    }

    pub fn set(&mut self, key: &str, f: Field)
        ensures
            final(self)@ == with_field(old(self)@, key@, f@),
    {
        let i: usize = self.position(key);
        let ghost before = self@;
        if i < self.fields.len() {
            self.fields.set(i, (text::copy_of(key), f));
        } else {
            self.fields.push((text::copy_of(key), f));
        }
        assert(self@ =~= with_field(before, key@, f@));
    }

    /// Marks the item with where it came from, unless it has such a mark.
    pub fn tag_value_source(&mut self, source: &str)
        ensures
            final(self)@ == tagged(old(self)@, source@),
    {
        let known = self.get("source").is_some();
        if !known {
            self.set("source", Field::text(source));
        }
    }
}

pub fn copy_items(list: &[Item]) -> (r: Vec<Item>)
    ensures
        items(r@) == items(list@),
{
    let mut r: Vec<Item> = Vec::new();
    let n: usize = list.len();
    let mut i: usize = 0;
    while i < n
        invariant
            n == list@.len(),
            i <= n,
            r@.len() == i,
            forall|j: int| 0 <= j < i ==> (#[trigger] r@[j])@ == list@[j]@,
        decreases n - i,
    {
        r.push(list[i].copy());
        i = i + 1;
    }
    assert(items(r@) =~= items(list@));
    r
}

/// Marks every item with where it came from.
pub fn tag_source(list: Vec<Item>, source: &str) -> (r: Vec<Item>)
    ensures
        items(r@) == all_tagged(items(list@), source@),
{
    let mut r: Vec<Item> = Vec::new();
    let n: usize = list.len();
    let mut i: usize = 0;
    while i < n
        invariant
            n == list@.len(),
            i <= n,
            r@.len() == i,
            forall|j: int| 0 <= j < i ==> (#[trigger] r@[j])@ == tagged(list@[j]@, source@),
        decreases n - i,
    {
        let mut item = list[i].copy();
        item.tag_value_source(source);
        r.push(item);
        i = i + 1;
    }
    assert(items(r@) =~= all_tagged(items(list@), source@));
    r
}

/// The items from `offset` on, `limit` of them at most.
pub open spec fn page(list: Seq<ItemView>, offset: nat, limit: nat) -> Seq<ItemView> {
    if offset >= list.len() {
        Seq::empty()
    } else if offset + limit >= list.len() {
        list.subrange(offset as int, list.len() as int)
    } else {
        list.subrange(offset as int, (offset + limit) as int)
    }
}

pub fn page_of(list: &[Item], offset: usize, limit: usize) -> (r: Vec<Item>)
    ensures
        items(r@) == page(items(list@), offset as nat, limit as nat),
{
    let n: usize = list.len();
    let mut r: Vec<Item> = Vec::new();
    let mut i: usize = offset;
    while i < n && r.len() < limit
        invariant
            n == list@.len(),
            offset <= i,
            i <= n || i == offset,
            r@.len() == i - offset,
            r@.len() <= limit,
            forall|j: int| 0 <= j < r@.len() ==> (#[trigger] r@[j])@ == list@[offset + j]@,
        decreases n - i,
    {
        r.push(list[i].copy());
        i = i + 1;
    }
    assert(items(r@) =~= page(items(list@), offset as nat, limit as nat));
    r
}

/// Puts the second list behind the first.
pub fn append_items(list: Vec<Item>, more: &[Item]) -> (r: Vec<Item>)
    ensures
        items(r@) == items(list@) + items(more@),
{
    let ghost first = items(list@);
    let ghost second = items(more@);
    let mut r = list;
    let n: usize = more.len();
    let mut i: usize = 0;
    while i < n
        invariant
            second == items(more@),
            n == more@.len(),
            i <= n,
            items(r@) =~= first + second.take(i as int),
        decreases n - i,
    {
        assert(second[i as int] == more@[i as int]@);
        let ghost before = items(r@);
        r.push(more[i].copy());
        assert(items(r@) =~= before.push(second[i as int]));
        assert(second.take(i + 1) =~= second.take(i as int).push(second[i as int]));
        i = i + 1;
    }
    assert(second.take(n as int) =~= second);
    r
}

/// What two items must share to count as one.
#[derive(Clone, Copy, PartialEq, Eq, Structural, Debug)]
pub enum Likeness {
    /// Kind, path, line and name, as results of one search are told apart.
    Find,
    /// Name, path and line, as results of different sources are told apart.
    Result,
    /// Kind, name, path and line, as live results are told apart.
    Live,
    /// Kind, name and path, as classes are told apart.
    Class,
}

pub open spec fn find_identity(item: ItemView) -> Seq<char> {
    or_empty(as_text(field_of_either(item, "type"@, "symbol_type"@))) + "\t"@ + path_at(item)
        + "\t"@ + text::decimal(
        int_or(as_int(field_of_either(item, "line"@, "line_number"@)), 1) as int,
    ) + "\t"@ + or_empty(as_text(field_of_either(item, "name"@, "symbol_name"@)))
}

pub open spec fn result_identity_of(item: ItemView) -> Seq<char> {
    text_at(item, "name"@) + ":"@ + text_at(item, "path"@) + ":"@ + text::decimal(
        int_or(as_int(field_of(item, "line"@)), 0) as int,
    )
}

pub open spec fn live_identity(item: ItemView) -> Seq<char> {
    or_empty(as_text(field_of_either(item, "type"@, "symbol_type"@))) + "\t"@ + text_at(
        item,
        "name"@,
    ) + "\t"@ + path_at(item) + "\t"@ + text::decimal(
        int_or(as_int(field_of_either(item, "line"@, "line_number"@)), 1) as int,
    )
}

pub open spec fn class_identity(item: ItemView) -> Seq<char> {
    text_at(item, "type"@) + "\t"@ + text_at(item, "name"@) + "\t"@ + text_at(item, "path"@)
}

pub open spec fn identity(kind: Likeness, item: ItemView) -> Seq<char> {
    match kind {
        Likeness::Find => find_identity(item),
        Likeness::Result => result_identity_of(item),
        Likeness::Live => live_identity(item),
        Likeness::Class => class_identity(item),
    }
}

fn or_blank(s: Option<&str>) -> (r: &str)
    ensures
        r@ == or_empty(text::opt_str(s)),
{
    proof {
        reveal_strlit("");
        assert(""@ =~= Seq::<char>::empty());
    }
    match s {
        Some(t) => t,
        None => "",
    }
}

fn line_or(n: Option<i64>, other: i64) -> (r: String)
    ensures
        r@ == text::decimal(int_or(n, other) as int),
{
    match n {
        Some(n) => text::decimal_i64(n),
        None => text::decimal_i64(other),
    }
}

pub fn find_result_identity(item: &Item) -> (r: String)
    ensures
        r@ == find_identity(item@),
{
    let line = line_or(item.either_whole("line", "line_number"), 1);
    let mut s = text::concat3(or_blank(item.either_text("type", "symbol_type")), "\t", item.path());
    s = text::concat3(&s, "\t", &line);
    text::concat3(&s, "\t", or_blank(item.either_text("name", "symbol_name")))
}

pub fn result_identity(item: &Item) -> (r: String)
    ensures
        r@ == result_identity_of(item@),
{
    let line = line_or(item.whole("line"), 0);
    let s = text::concat3(item.text("name"), ":", item.text("path"));
    text::concat3(&s, ":", &line)
}

pub fn live_find_identity(item: &Item) -> (r: String)
    ensures
        r@ == live_identity(item@),
{
    let line = line_or(item.either_whole("line", "line_number"), 1);
    let mut s = text::concat3(
        or_blank(item.either_text("type", "symbol_type")),
        "\t",
        item.text("name"),
    );
    s = text::concat3(&s, "\t", item.path());
    text::concat3(&s, "\t", &line)
}

fn class_symbol_identity(item: &Item) -> (r: String)
    ensures
        r@ == class_identity(item@),
{
    let s = text::concat3(item.text("type"), "\t", item.text("name"));
    text::concat3(&s, "\t", item.text("path"))
}

pub fn identity_of(kind: Likeness, item: &Item) -> (r: String)
    ensures
        r@ == identity(kind, item@),
{
    match kind {
        Likeness::Find => find_result_identity(item),
        Likeness::Result => result_identity(item),
        Likeness::Live => live_find_identity(item),
        Likeness::Class => class_symbol_identity(item),
    }
}

/// One of the items is like this one.
pub open spec fn has_like(kind: Likeness, list: Seq<ItemView>, key: Seq<char>) -> bool {
    exists|i: int| 0 <= i < list.len() && identity(kind, #[trigger] list[i]) == key
}

/// The items with those from position `k` on that are like none before, up to a limit.
pub open spec fn merged(
    kind: Likeness,
    list: Seq<ItemView>,
    more: Seq<ItemView>,
    k: int,
    limit: nat,
) -> Seq<ItemView>
    decreases more.len() - k,
{
    if k < 0 || k >= more.len() || list.len() >= limit {
        list
    } else if has_like(kind, list, identity(kind, more[k])) {
        merged(kind, list, more, k + 1, limit)
    } else {
        merged(kind, list.push(more[k]), more, k + 1, limit)
    }
}

/// Items no two of which are alike, as far as they came through [`Merged::merge`].
pub struct Merged {
    pub kind: Likeness,
    pub items: Vec<Item>,
    pub seen: TextMap<bool>,
}

impl Merged {
    /// The names under which the items are remembered are those of the items.
    pub open spec fn known(self) -> bool {
        forall|s: Seq<char>|
            (#[trigger] self.seen.spec_get(s)) is Some <==> has_like(self.kind, items(self.items@), s)
    }

    pub open spec fn view(&self) -> Seq<ItemView> {
        items(self.items@)
    }

    pub fn new(kind: Likeness) -> (r: Merged)
        ensures
            r.known(),
            r.kind == kind,
            r@ == Seq::<ItemView>::empty(),
    {
        let r = Merged { kind, items: Vec::new(), seen: TextMap::new() };
        assert(r@ =~= Seq::<ItemView>::empty());
        r
    }

    /// Items that are there already, whether or not two of them are alike.
    pub fn from_items(kind: Likeness, list: Vec<Item>) -> (r: Merged)
        ensures
            r.known(),
            r.kind == kind,
            r@ == items(list@),
    {
        let mut r = Merged::new(kind);
        let n: usize = list.len();
        let mut i: usize = 0;
        while i < n
            invariant
                n == list@.len(),
                i <= n,
                r.known(),
                r.kind == kind,
                r@.len() == i,
                forall|j: int| 0 <= j < i ==> #[trigger] r@[j] == list@[j]@,
            decreases n - i,
        {
            let key = identity_of(kind, &list[i]);
            r.add_known(list[i].copy(), key);
            i = i + 1;
        }
        assert(r@ =~= items(list@));
        r
    }

    fn add_known(&mut self, item: Item, key: String)
        requires
            old(self).known(),
            key@ == identity(old(self).kind, item@),
        ensures
            final(self).known(),
            final(self).kind == old(self).kind,
            final(self)@ == old(self)@.push(item@),
    {
        let ghost before = *self;
        self.seen.insert(&key, true);
        self.items.push(item);
        assert(self@ =~= before@.push(item@));
        proof {
            crate::textmap::lemma_get_with(before.seen, self.seen, key@, true);
            assert forall|s: Seq<char>|
                (#[trigger] self.seen.spec_get(s)) is Some <==> has_like(self.kind, self@, s) by {
                if has_like(self.kind, before@, s) {
                    let i = choose|i: int|
                        0 <= i < before@.len() && identity(self.kind, #[trigger] before@[i]) == s;
                    assert(self@[i] == before@[i]);
                }
                if s == key@ {
                    assert(self@[before@.len() as int] == item@);
                }
                if has_like(self.kind, self@, s) && s != key@ {
                    let i = choose|i: int|
                        0 <= i < self@.len() && identity(self.kind, #[trigger] self@[i]) == s;
                    assert(i < before@.len());
                    assert(before@[i] == self@[i]);
                }
            }
        }
    }

    /// Adds the items that are like none before, until there are `limit`.
    pub fn merge(&mut self, more: &[Item], limit: usize)
        requires
            old(self).known(),
        ensures
            final(self).known(),
            final(self).kind == old(self).kind,
            final(self)@ == merged(old(self).kind, old(self)@, items(more@), 0, limit as nat),
    {
        let ghost list = items(more@);
        let ghost whole = merged(self.kind, self@, list, 0, limit as nat);
        let n: usize = more.len();
        let mut i: usize = 0;
        while i < n
            invariant
                self.known(),
                self.kind == old(self).kind,
                list == items(more@),
                n == more@.len(),
                i <= n,
                whole == merged(old(self).kind, old(self)@, list, 0, limit as nat),
                whole == merged(self.kind, self@, list, i as int, limit as nat),
            decreases n - i,
        {
            assert(self@.len() == self.items@.len());
            if self.items.len() >= limit {
                return ;
            }
            assert(list[i as int] == more@[i as int]@);
            let key = identity_of(self.kind, &more[i]);
            if !self.seen.contains(&key) {
                self.add_known(more[i].copy(), key);
            }
            i = i + 1;
        }
    }
}

// ---------------------------------------------------------------------------
// What holds of fields, pages and merged items
// ---------------------------------------------------------------------------
/// A field that was set is read back, and the others are as before.
pub proof fn set_field_is_read_back(
    item: ItemView,
    key: Seq<char>,
    f: FieldView,
    other: Seq<char>,
)
    ensures
        field_of(with_field(item, key, f), key) == Some(f),
        other != key ==> field_of(with_field(item, key, f), other) == field_of(item, other),
{
    let w = with_field(item, key, f);
    let i = key_position(item, key, 0);
    lemma_key_position(item, key, 0);
    lemma_key_position(item, other, 0);
    lemma_key_position(w, key, 0);
    lemma_key_position(w, other, 0);
    let a = key_position(w, key, 0);
    assert(w[i].0 == key);
    if a < i {
        assert(w[a].0 == item[a].0);
    }
    if other != key {
        let x = key_position(item, other, 0);
        let y = key_position(w, other, 0);
        if x < item.len() {
            assert(w[x].0 == other);
            if y < x {
                assert(item[y].0 == other);
            }
        } else if y < w.len() {
            assert(y != i);
            assert(item[y].0 == other);
        }
    }
}

/// A mark of the source is set once: what has one keeps it.
pub proof fn source_is_kept(item: ItemView, first: Seq<char>, second: Seq<char>)
    ensures
        field_of(tagged(item, first), "source"@) is Some,
        tagged(tagged(item, first), second) == tagged(item, first),
{
    set_field_is_read_back(item, "source"@, FieldView::Text(first), "source"@);
}

/// A page holds no more than was asked for.
pub proof fn page_keeps_the_limit(list: Seq<ItemView>, offset: nat, limit: nat)
    ensures
        page(list, offset, limit).len() <= limit,
{
}

/// Pages that follow one another hold the list without a gap.
pub proof fn pages_follow(list: Seq<ItemView>, offset: nat, limit: nat, more: nat)
    ensures
        page(list, offset, limit) + page(list, offset + limit, more) == page(
            list,
            offset,
            limit + more,
        ),
{
    assert(page(list, offset, limit) + page(list, offset + limit, more) =~= page(
        list,
        offset,
        limit + more,
    ));
}

/// No two items are alike.
pub open spec fn all_differ(kind: Likeness, list: Seq<ItemView>) -> bool {
    forall|i: int, j: int|
        0 <= i < j < list.len() ==> identity(kind, #[trigger] list[i]) != identity(
            kind,
            #[trigger] list[j],
        )
}

/// Merging keeps what was there in its place, and adds nothing that is like an item before it.
pub proof fn merging_adds_new_items_only(
    kind: Likeness,
    list: Seq<ItemView>,
    more: Seq<ItemView>,
    k: int,
    limit: nat,
)
    ensures
        ({
            let r = merged(kind, list, more, k, limit);
            &&& r.len() >= list.len()
            &&& r.take(list.len() as int) == list
            &&& all_differ(kind, list) ==> all_differ(kind, r)
            &&& list.len() <= limit ==> r.len() <= limit
        }),
    decreases more.len() - k,
{
    assert(list.take(list.len() as int) =~= list);
    if 0 <= k < more.len() && list.len() < limit {
        if has_like(kind, list, identity(kind, more[k])) {
            merging_adds_new_items_only(kind, list, more, k + 1, limit);
        } else {
            let next = list.push(more[k]);
            merging_adds_new_items_only(kind, next, more, k + 1, limit);
            let r = merged(kind, next, more, k + 1, limit);
            assert(r.take(list.len() as int) =~= r.take(next.len() as int).take(
                list.len() as int,
            ));
            assert(next.take(list.len() as int) =~= list);
            if all_differ(kind, list) {
                assert forall|i: int, j: int| 0 <= i < j < next.len() implies identity(
                    kind,
                    #[trigger] next[i],
                ) != identity(kind, #[trigger] next[j]) by {
                    if j == list.len() {
                        assert(next[i] == list[i]);
                    } else {
                        assert(next[i] == list[i] && next[j] == list[j]);
                    }
                }
            }
        }
    }
}

/// Up to the limit, merging loses nothing: each of the items is there, or one like it.
pub proof fn merging_loses_nothing(
    kind: Likeness,
    list: Seq<ItemView>,
    more: Seq<ItemView>,
    k: int,
    limit: nat,
    j: int,
)
    requires
        0 <= k <= j < more.len(),
        merged(kind, list, more, k, limit).len() < limit,
    ensures
        has_like(kind, merged(kind, list, more, k, limit), identity(kind, more[j])),
    decreases more.len() - k,
{
    let r = merged(kind, list, more, k, limit);
    merging_adds_new_items_only(kind, list, more, k, limit);
    let next = if has_like(kind, list, identity(kind, more[k])) {
        list
    } else {
        list.push(more[k])
    };
    merging_adds_new_items_only(kind, next, more, k + 1, limit);
    if j == k {
        if has_like(kind, list, identity(kind, more[k])) {
            let i = choose|i: int|
                0 <= i < list.len() && identity(kind, #[trigger] list[i]) == identity(
                    kind,
                    more[k],
                );
            assert(r.take(list.len() as int)[i] == r[i]);
            assert(identity(kind, r[i]) == identity(kind, more[k]));
        } else {
            assert(r.take(next.len() as int)[list.len() as int] == r[list.len() as int]);
            assert(identity(kind, r[list.len() as int]) == identity(kind, more[k]));
        }
    } else {
        merging_loses_nothing(kind, next, more, k + 1, limit, j);
    }
}

} // verus!
