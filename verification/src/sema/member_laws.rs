//! What holds of the members of classes.
use vstd::prelude::*;

use super::derive_laws::{
    lemma_closed_holds, lemma_parent_typed, lemma_typed_count, parent_is, typed,
};
use super::members::{members_of_class, visited, visited_parents, Visit};
use super::symbol::{ClassId, SymbolId};
use super::types::{TypeId, TypeShape};
use super::{a_parent_derives, class_derives, derives, SemaView};

verus! {

/// The symbol is declared under the name by the class itself.
pub open spec fn declares(c: SemaView, class_id: ClassId, name: Seq<char>, id: SymbolId) -> bool {
    match c.symbols.class_scope(class_id) {
        Some(s) => c.scopes.named(s, name).contains(id),
        None => false,
    }
}

/// A visit goes on: what was found stays found, in its place.
pub open spec fn goes_on(before: Visit, after: Visit) -> bool {
    &&& before.symbols.len() <= after.symbols.len()
    &&& after.symbols.take(before.symbols.len() as int) == before.symbols
    &&& before.classes.len() <= after.classes.len()
    &&& after.classes.take(before.classes.len() as int) == before.classes
}

proof fn lemma_goes_on(a: Visit, b: Visit, d: Visit)
    requires
        goes_on(a, b),
        goes_on(b, d),
    ensures
        goes_on(a, d),
{
    assert(d.symbols.take(a.symbols.len() as int) =~= b.symbols.take(a.symbols.len() as int));
    assert(d.classes.take(a.classes.len() as int) =~= b.classes.take(a.classes.len() as int));
}

proof fn lemma_goes_on_same(v: Visit)
    ensures
        goes_on(v, v),
{
    assert(v.symbols.take(v.symbols.len() as int) =~= v.symbols);
    assert(v.classes.take(v.classes.len() as int) =~= v.classes);
}

spec fn with_class(c: SemaView, class_id: ClassId, name: Seq<char>, v: Visit) -> Visit {
    Visit {
        classes: v.classes.push(class_id),
        symbols: match c.symbols.class_scope(class_id) {
            Some(s) => v.symbols + c.scopes.named(s, name),
            None => v.symbols,
        },
    }
}

proof fn lemma_with_class(c: SemaView, class_id: ClassId, name: Seq<char>, v: Visit)
    ensures
        goes_on(v, with_class(c, class_id, name, v)),
{
    let w = with_class(c, class_id, name, v);
    assert(w.symbols.take(v.symbols.len() as int) =~= v.symbols);
    assert(w.classes.take(v.classes.len() as int) =~= v.classes);
}

/// A symbol beyond those found before is declared by a class that this one comes from; no class is
/// visited twice.
proof fn lemma_visited(c: SemaView, class_id: ClassId, name: Seq<char>, v: Visit, left: nat)
    requires
        v.classes.no_duplicates(),
    ensures
        goes_on(v, visited(c, class_id, name, v, left)),
        visited(c, class_id, name, v, left).classes.no_duplicates(),
        forall|j: int|
            v.symbols.len() <= j < visited(c, class_id, name, v, left).symbols.len() ==> inherited(
                c,
                class_id,
                name,
                #[trigger] visited(c, class_id, name, v, left).symbols[j],
                left,
            ),
    decreases left, 0nat,
{
    lemma_goes_on_same(v);
    if !v.classes.contains(class_id) && left > 0 {
        let own = with_class(c, class_id, name, v);
        let parents = c.symbols.parents(class_id);
        let less = (left - 1) as nat;
        lemma_with_class(c, class_id, name, v);
        lemma_visited_parents(c, parents, 0, name, own, less);
        let r = visited_parents(c, parents, 0, name, own, less);
        lemma_goes_on(v, own, r);
        assert forall|j: int| v.symbols.len() <= j < r.symbols.len() implies inherited(
            c,
            class_id,
            name,
            #[trigger] r.symbols[j],
            left,
        ) by {
            let id = r.symbols[j];
            if j < own.symbols.len() {
                assert(r.symbols.take(own.symbols.len() as int)[j] == r.symbols[j]);
                let s = c.symbols.class_scope(class_id)->0;
                assert(c.scopes.named(s, name)[j - v.symbols.len()] == id);
                assert(inherited_from(c, class_id, name, id, left, class_id));
            } else {
                assert(inherited_by_parent(c, parents, 0, name, id, less));
                let x = choose|x: ClassId|
                    declares(c, x, name, id) && #[trigger] a_parent_derives(
                        c,
                        parents,
                        0,
                        x,
                        (less - 1) as nat,
                    ) && less > 0;
                assert(derives(c, class_id, x, less));
                assert(inherited_from(c, class_id, name, id, left, x));
            }
        }
    }
}

pub open spec fn inherited_from(
    c: SemaView,
    class_id: ClassId,
    name: Seq<char>,
    id: SymbolId,
    left: nat,
    x: ClassId,
) -> bool {
    left > 0 && declares(c, x, name, id) && derives(c, class_id, x, (left - 1) as nat)
}

/// The symbol is declared by a class that this one is or comes from.
pub open spec fn inherited(c: SemaView, class_id: ClassId, name: Seq<char>, id: SymbolId, left: nat) -> bool {
    exists|x: ClassId| #[trigger] inherited_from(c, class_id, name, id, left, x)
}

spec fn inherited_by_parent(
    c: SemaView,
    parents: Seq<TypeId>,
    k: int,
    name: Seq<char>,
    id: SymbolId,
    left: nat,
) -> bool {
    left > 0 && exists|x: ClassId|
        declares(c, x, name, id) && #[trigger] a_parent_derives(
            c,
            parents,
            k,
            x,
            (left - 1) as nat,
        )
}

proof fn lemma_visited_parents(
    c: SemaView,
    parents: Seq<TypeId>,
    k: int,
    name: Seq<char>,
    v: Visit,
    left: nat,
)
    requires
        v.classes.no_duplicates(),
        0 <= k,
    ensures
        goes_on(v, visited_parents(c, parents, k, name, v, left)),
        visited_parents(c, parents, k, name, v, left).classes.no_duplicates(),
        forall|j: int|
            v.symbols.len() <= j < visited_parents(c, parents, k, name, v, left).symbols.len()
                ==> inherited_by_parent(
                c,
                parents,
                k,
                name,
                #[trigger] visited_parents(c, parents, k, name, v, left).symbols[j],
                left,
            ),
    decreases left, parents.len() - k + 1,
{
    lemma_goes_on_same(v);
    if k < parents.len() {
        let next = match c.kind(parents[k]) {
            Some(TypeShape::Class(p)) => visited(c, p, name, v, left),
            _ => v,
        };
        if let Some(TypeShape::Class(p)) = c.kind(parents[k]) {
            lemma_visited(c, p, name, v, left);
        }
        lemma_visited_parents(c, parents, k + 1, name, next, left);
        let r = visited_parents(c, parents, k + 1, name, next, left);
        lemma_goes_on(v, next, r);
        assert forall|j: int| v.symbols.len() <= j < r.symbols.len() implies inherited_by_parent(
            c,
            parents,
            k,
            name,
            #[trigger] r.symbols[j],
            left,
        ) by {
            let id = r.symbols[j];
            if j < next.symbols.len() {
                assert(r.symbols.take(next.symbols.len() as int)[j] == r.symbols[j]);
                let p = c.kind(parents[k])->0->Class_0;
                assert(inherited(c, p, name, next.symbols[j], left));
                let x = choose|x: ClassId| #[trigger] inherited_from(c, p, name, id, left, x);
                assert(a_parent_derives(c, parents, k, x, (left - 1) as nat));
            } else {
                assert(inherited_by_parent(c, parents, k + 1, name, id, left));
                let x = choose|x: ClassId|
                    declares(c, x, name, id) && #[trigger] a_parent_derives(
                        c,
                        parents,
                        k + 1,
                        x,
                        (left - 1) as nat,
                    );
                assert(a_parent_derives(c, parents, k, x, (left - 1) as nat));
            }
        }
    }
}

/// The members that a class declares itself come before those that it inherits.
pub proof fn own_members_come_first(c: SemaView, class_id: ClassId, name: Seq<char>)
    ensures
        c.symbols.class_scope(class_id) matches Some(s) ==> c.scopes.named(s, name).len()
            <= members_of_class(c, class_id, name).len() && members_of_class(
            c,
            class_id,
            name,
        ).take(c.scopes.named(s, name).len() as int) == c.scopes.named(s, name),
{
    let v = Visit { classes: Seq::empty(), symbols: Seq::empty() };
    let own = with_class(c, class_id, name, v);
    let left = c.types.kinds.len() + 1;
    assert(own.classes.no_duplicates());
    lemma_visited_parents(c, c.symbols.parents(class_id), 0, name, own, left);
    if let Some(s) = c.symbols.class_scope(class_id) {
        assert(own.symbols =~= c.scopes.named(s, name));
    }
}

/// Every member of a class is declared by the class itself or by one that it comes from.
pub proof fn members_are_own_or_inherited(
    c: SemaView,
    class_id: ClassId,
    name: Seq<char>,
    id: SymbolId,
)
    requires
        members_of_class(c, class_id, name).contains(id),
    ensures
        exists|x: ClassId| #[trigger] declares(c, x, name, id) && class_derives(c, class_id, x),
{
    let v = Visit { classes: Seq::empty(), symbols: Seq::empty() };
    let left = c.types.kinds.len() + 2;
    let all = members_of_class(c, class_id, name);
    lemma_visited(c, class_id, name, v, left);
    let j = choose|j: int| 0 <= j < all.len() && all[j] == id;
    assert(inherited(c, class_id, name, all[j], left));
    let x = choose|x: ClassId| #[trigger] inherited_from(c, class_id, name, id, left, x);
    assert(declares(c, x, name, id));
}

/// Every class but the first has a type, and enough classes may still be visited.
spec fn may_go_on(c: SemaView, v: Visit, left: nat) -> bool {
    &&& v.classes.no_duplicates()
    &&& left + v.classes.len() >= c.types.kinds.len() + 2
    &&& forall|i: int| 1 <= i < v.classes.len() ==> typed(c, #[trigger] v.classes[i])
}

/// What is visited beyond `before`: its parents are visited, and its own members are found.
spec fn settled(c: SemaView, before: Visit, after: Visit, name: Seq<char>) -> bool {
    &&& forall|y: ClassId, k: int, p: ClassId|
        after.classes.contains(y) && !before.classes.contains(y) && #[trigger] parent_is(
            c,
            c.symbols.parents(y),
            k,
            p,
        ) ==> after.classes.contains(p)
    &&& forall|y: ClassId, id: SymbolId|
        after.classes.contains(y) && !before.classes.contains(y) && #[trigger] declares(
            c,
            y,
            name,
            id,
        ) ==> after.symbols.contains(id)
}

proof fn lemma_kept<A>(a: Seq<A>, b: Seq<A>, x: A)
    requires
        a.len() <= b.len(),
        b.take(a.len() as int) == a,
        a.contains(x),
    ensures
        b.contains(x),
{
    let i = choose|i: int| 0 <= i < a.len() && a[i] == x;
    assert(b.take(a.len() as int)[i] == b[i]);
}

/// There is always room for one class more.
proof fn lemma_room(c: SemaView, v: Visit)
    requires
        v.classes.no_duplicates(),
        forall|i: int| 1 <= i < v.classes.len() ==> typed(c, #[trigger] v.classes[i]),
    ensures
        v.classes.len() <= c.types.kinds.len() + 1,
{
    if v.classes.len() > 0 {
        let rest = v.classes.subrange(1, v.classes.len() as int);
        let ids = rest.map_values(|x: ClassId| x.0);
        assert forall|i: int, j: int| 0 <= i < ids.len() && 0 <= j < ids.len() && i != j implies ids[i]
            != ids[j] by {
            assert(v.classes[i + 1] != v.classes[j + 1]);
            assert(v.classes[i + 1] == ClassId(ids[i]) && v.classes[j + 1] == ClassId(ids[j]));
        }
        ids.unique_seq_to_set();
        assert forall|x: u32| #[trigger] ids.to_set().contains(x) implies typed(c, ClassId(x)) by {
            let i = choose|i: int| 0 <= i < ids.len() && ids[i] == x;
            assert(typed(c, v.classes[i + 1]));
            assert(v.classes[i + 1] == ClassId(x));
        }
        lemma_typed_count(c, ids.to_set());
    }
}

proof fn lemma_all_visited(c: SemaView, class_id: ClassId, name: Seq<char>, v: Visit, left: nat)
    requires
        may_go_on(c, v, left),
        v.classes.len() > 0 ==> typed(c, class_id),
    ensures
        ({
            let r = visited(c, class_id, name, v, left);
            &&& r.classes.contains(class_id)
            &&& may_go_on(c, r, left)
            &&& goes_on(v, r)
            &&& settled(c, v, r, name)
        }),
    decreases left, 0nat,
{
    lemma_goes_on_same(v);
    lemma_room(c, v);
    if !v.classes.contains(class_id) && left > 0 {
        let own = with_class(c, class_id, name, v);
        let parents = c.symbols.parents(class_id);
        let less = (left - 1) as nat;
        lemma_with_class(c, class_id, name, v);
        assert(own.classes[v.classes.len() as int] == class_id);
        lemma_all_parents_visited(c, parents, 0, name, own, less);
        let r = visited_parents(c, parents, 0, name, own, less);
        lemma_goes_on(v, own, r);
        lemma_kept(own.classes, r.classes, class_id);
        assert forall|y: ClassId, k: int, p: ClassId|
            r.classes.contains(y) && !v.classes.contains(y) && #[trigger] parent_is(
                c,
                c.symbols.parents(y),
                k,
                p,
            ) implies r.classes.contains(p) by {
            if own.classes.contains(y) {
                let i = choose|i: int| 0 <= i < own.classes.len() && own.classes[i] == y;
                if i < v.classes.len() {
                    assert(v.classes[i] == y);
                }
                assert(y == class_id);
                assert(parent_is(c, parents, k, p));
            }
        }
        assert forall|y: ClassId, id: SymbolId|
            r.classes.contains(y) && !v.classes.contains(y) && #[trigger] declares(
                c,
                y,
                name,
                id,
            ) implies r.symbols.contains(id) by {
            if own.classes.contains(y) {
                let i = choose|i: int| 0 <= i < own.classes.len() && own.classes[i] == y;
                if i < v.classes.len() {
                    assert(v.classes[i] == y);
                }
                let s = c.symbols.class_scope(class_id)->0;
                let list = c.scopes.named(s, name);
                let j = choose|j: int| 0 <= j < list.len() && list[j] == id;
                assert(own.symbols[v.symbols.len() + j] == id);
                lemma_kept(own.symbols, r.symbols, id);
            }
        }
    }
}

proof fn lemma_all_parents_visited(
    c: SemaView,
    parents: Seq<TypeId>,
    k: int,
    name: Seq<char>,
    v: Visit,
    left: nat,
)
    requires
        0 <= k,
        may_go_on(c, v, left),
        v.classes.len() > 0,
    ensures
        ({
            let r = visited_parents(c, parents, k, name, v, left);
            &&& forall|j: int, p: ClassId|
                k <= j && #[trigger] parent_is(c, parents, j, p) ==> r.classes.contains(p)
            &&& may_go_on(c, r, left)
            &&& goes_on(v, r)
            &&& settled(c, v, r, name)
        }),
    decreases left, parents.len() - k + 1,
{
    lemma_goes_on_same(v);
    if k < parents.len() {
        let next = match c.kind(parents[k]) {
            Some(TypeShape::Class(p)) => visited(c, p, name, v, left),
            _ => v,
        };
        if let Some(TypeShape::Class(p)) = c.kind(parents[k]) {
            assert(parent_is(c, parents, k, p));
            lemma_parent_typed(c, parents, k, p);
            lemma_all_visited(c, p, name, v, left);
        }
        lemma_all_parents_visited(c, parents, k + 1, name, next, left);
        let r = visited_parents(c, parents, k + 1, name, next, left);
        lemma_goes_on(v, next, r);
        assert forall|j: int, p: ClassId|
            k <= j && #[trigger] parent_is(c, parents, j, p) implies r.classes.contains(p) by {
            if j == k {
                lemma_kept(next.classes, r.classes, p);
            }
        }
        assert forall|y: ClassId, i: int, p: ClassId|
            r.classes.contains(y) && !v.classes.contains(y) && #[trigger] parent_is(
                c,
                c.symbols.parents(y),
                i,
                p,
            ) implies r.classes.contains(p) by {
            if next.classes.contains(y) {
                assert(next.classes.contains(p));
                lemma_kept(next.classes, r.classes, p);
            }
        }
        assert forall|y: ClassId, id: SymbolId|
            r.classes.contains(y) && !v.classes.contains(y) && #[trigger] declares(
                c,
                y,
                name,
                id,
            ) implies r.symbols.contains(id) by {
            if next.classes.contains(y) {
                assert(next.symbols.contains(id));
                lemma_kept(next.symbols, r.symbols, id);
            }
        }
    }
}

/// No member is missed: what a class declares, or one that it comes from, is found.
pub proof fn inherited_members_are_found(
    c: SemaView,
    class_id: ClassId,
    name: Seq<char>,
    x: ClassId,
    id: SymbolId,
)
    requires
        class_derives(c, class_id, x),
        declares(c, x, name, id),
    ensures
        members_of_class(c, class_id, name).contains(id),
{
    let v = Visit { classes: Seq::empty(), symbols: Seq::empty() };
    let left = c.types.kinds.len() + 2;
    lemma_all_visited(c, class_id, name, v, left);
    let r = visited(c, class_id, name, v, left);
    lemma_closed_holds(c, r.classes, class_id, x, c.types.kinds.len() + 1);
}

} // verus!
