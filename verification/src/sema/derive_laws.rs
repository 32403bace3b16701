//! What holds of how classes come from one another.
use vstd::prelude::*;

use super::symbol::ClassId;
use super::types::{TypeId, TypeShape};
use super::{a_parent_derives, class_derives, derives, SemaView};

verus! {

/// The parent at a position is the class.
pub open spec fn parent_is(c: SemaView, parents: Seq<TypeId>, k: int, p: ClassId) -> bool {
    0 <= k < parents.len() && c.kind(parents[k]) == Some(TypeShape::Class(p))
}

/// A parent through which a class is reached.
proof fn lemma_parent_of(c: SemaView, parents: Seq<TypeId>, k: int, to: ClassId, depth: nat) -> (r: (
    int,
    ClassId,
))
    requires
        0 <= k,
        a_parent_derives(c, parents, k, to, depth),
    ensures
        k <= r.0,
        parent_is(c, parents, r.0, r.1),
        derives(c, r.1, to, depth),
    decreases parents.len() - k,
{
    if k < parents.len() {
        match c.kind(parents[k]) {
            Some(TypeShape::Class(p)) => {
                if derives(c, p, to, depth) {
                    (k, p)
                } else {
                    lemma_parent_of(c, parents, k + 1, to, depth)
                }
            },
            _ => lemma_parent_of(c, parents, k + 1, to, depth),
        }
    } else {
        (0, ClassId(0))
    }
}

proof fn lemma_parent_derives(
    c: SemaView,
    parents: Seq<TypeId>,
    k: int,
    at: int,
    p: ClassId,
    to: ClassId,
    depth: nat,
)
    requires
        0 <= k <= at,
        parent_is(c, parents, at, p),
        derives(c, p, to, depth),
    ensures
        a_parent_derives(c, parents, k, to, depth),
    decreases at - k,
{
    if k < at {
        lemma_parent_derives(c, parents, k + 1, at, p, to, depth);
    }
}

/// What is reached is reached through more classes too.
proof fn lemma_derives_more(c: SemaView, from: ClassId, to: ClassId, depth: nat, more: nat)
    requires
        derives(c, from, to, depth),
        depth <= more,
    ensures
        derives(c, from, to, more),
    decreases depth,
{
    if from != to {
        let parents = c.symbols.parents(from);
        let (k, p) = lemma_parent_of(c, parents, 0, to, (depth - 1) as nat);
        lemma_derives_more(c, p, to, (depth - 1) as nat, (more - 1) as nat);
        lemma_parent_derives(c, parents, 0, k, p, to, (more - 1) as nat);
    }
}

/// The class has a type.
pub open spec fn typed(c: SemaView, x: ClassId) -> bool {
    exists|i: int|
        0 <= i < c.types.kinds.len() && #[trigger] c.types.kinds[i] == TypeShape::Class(x)
}

spec fn type_index(c: SemaView, x: u32) -> int {
    choose|i: int|
        0 <= i < c.types.kinds.len() && #[trigger] c.types.kinds[i] == TypeShape::Class(ClassId(x))
}

/// No more classes have a type than there are types.
pub proof fn lemma_typed_count(c: SemaView, ids: Set<u32>)
    requires
        ids.finite(),
        forall|x: u32| #[trigger] ids.contains(x) ==> typed(c, ClassId(x)),
    ensures
        ids.len() <= c.types.kinds.len(),
{
    let f = |x: u32| type_index(c, x);
    let image = ids.map(f);
    let all = vstd::set_lib::set_int_range(0, c.types.kinds.len() as int);
    vstd::set_lib::lemma_int_range(0, c.types.kinds.len() as int);
    ids.lemma_map_finite(f);
    assert forall|x: u32, y: u32| ids.contains(x) && ids.contains(y) && f(x) == f(y) implies x == y by {
        assert(typed(c, ClassId(x)) && typed(c, ClassId(y)));
        assert(c.types.kinds[type_index(c, x)] == TypeShape::Class(ClassId(x)));
        assert(c.types.kinds[type_index(c, y)] == TypeShape::Class(ClassId(y)));
    }
    vstd::set_lib::lemma_map_size(ids, image, f);
    assert(image.subset_of(all)) by {
        assert forall|i: int| #[trigger] image.contains(i) implies all.contains(i) by {
            let x = choose|x: u32| ids.contains(x) && f(x) == i;
            assert(typed(c, ClassId(x)));
        }
    }
    vstd::set_lib::lemma_len_subset(image, all);
}

pub proof fn lemma_parent_typed(c: SemaView, parents: Seq<TypeId>, k: int, p: ClassId)
    requires
        parent_is(c, parents, k, p),
    ensures
        typed(c, p),
{
    assert(c.types.kinds[parents[k].0 as int] == TypeShape::Class(p));
}

/// A class that is reached at a depth, and not before, is reached through as many classes, all of
/// them other than those from which it is not reached at that depth.
proof fn lemma_derive_depth(c: SemaView, from: ClassId, to: ClassId, depth: nat, seen: Set<u32>)
    requires
        typed(c, from),
        derives(c, from, to, depth),
        depth > 0 ==> !derives(c, from, to, (depth - 1) as nat),
        seen.finite(),
        forall|x: u32| #[trigger]
            seen.contains(x) ==> typed(c, ClassId(x)) && !derives(c, ClassId(x), to, depth),
    ensures
        seen.len() + depth + 1 <= c.types.kinds.len(),
    decreases depth,
{
    assert(ClassId(from.0) == from);
    assert(!seen.contains(from.0));
    let now = seen.insert(from.0);
    if depth == 0 {
        lemma_typed_count(c, now);
    } else {
        let less = (depth - 1) as nat;
        let parents = c.symbols.parents(from);
        let (k, p) = lemma_parent_of(c, parents, 0, to, less);
        lemma_parent_typed(c, parents, k, p);
        if less > 0 && derives(c, p, to, (less - 1) as nat) {
            lemma_parent_derives(c, parents, 0, k, p, to, (less - 1) as nat);
        }
        assert forall|x: u32| #[trigger] now.contains(x) implies typed(c, ClassId(x)) && !derives(
            c,
            ClassId(x),
            to,
            less,
        ) by {
            if x != from.0 {
                assert(seen.contains(x));
                if derives(c, ClassId(x), to, less) {
                    lemma_derives_more(c, ClassId(x), to, less, depth);
                }
            }
        }
        lemma_derive_depth(c, p, to, less, now);
    }
}

proof fn lemma_least(c: SemaView, from: ClassId, to: ClassId, depth: nat) -> (least: nat)
    requires
        derives(c, from, to, depth),
    ensures
        least <= depth,
        derives(c, from, to, least),
        least > 0 ==> !derives(c, from, to, (least - 1) as nat),
    decreases depth,
{
    if depth > 0 && derives(c, from, to, (depth - 1) as nat) {
        lemma_least(c, from, to, (depth - 1) as nat)
    } else {
        depth
    }
}

/// No line of inheritance is too long to be followed: a class that is reached at all is found to be
/// one that the other comes from.
pub proof fn long_lines_are_followed(c: SemaView, from: ClassId, to: ClassId, depth: nat)
    requires
        derives(c, from, to, depth),
    ensures
        class_derives(c, from, to),
{
    let n = c.types.kinds.len();
    let least = lemma_least(c, from, to, depth);
    if least > 0 {
        let less = (least - 1) as nat;
        let parents = c.symbols.parents(from);
        let (k, p) = lemma_parent_of(c, parents, 0, to, less);
        lemma_parent_typed(c, parents, k, p);
        if less > 0 && derives(c, p, to, (less - 1) as nat) {
            lemma_parent_derives(c, parents, 0, k, p, to, (less - 1) as nat);
        }
        lemma_derive_depth(c, p, to, less, Set::empty());
    }
    lemma_derives_more(c, from, to, least, n + 1);
}

proof fn lemma_derives_joined(c: SemaView, a: ClassId, b: ClassId, d: ClassId, x: nat, y: nat)
    requires
        derives(c, a, b, x),
        derives(c, b, d, y),
    ensures
        derives(c, a, d, x + y),
    decreases x,
{
    if a == b {
        lemma_derives_more(c, b, d, y, x + y);
    } else {
        let parents = c.symbols.parents(a);
        let (k, p) = lemma_parent_of(c, parents, 0, b, (x - 1) as nat);
        lemma_derives_joined(c, p, b, d, (x - 1) as nat, y);
        lemma_parent_derives(c, parents, 0, k, p, d, (x - 1 + y) as nat);
    }
}

/// A class comes from itself, from its parents, and from all that these come from.
pub proof fn inheritance_is_transitive(c: SemaView, a: ClassId, b: ClassId, d: ClassId)
    ensures
        class_derives(c, a, a),
        class_derives(c, a, b) && class_derives(c, b, d) ==> class_derives(c, a, d),
        forall|k: int|
            #[trigger] parent_is(c, c.symbols.parents(a), k, b) ==> class_derives(c, a, b),
{
    let n = c.types.kinds.len();
    if class_derives(c, a, b) && class_derives(c, b, d) {
        lemma_derives_joined(c, a, b, d, n + 1, n + 1);
        long_lines_are_followed(c, a, d, n + 1 + n + 1);
    }
    assert forall|k: int| #[trigger] parent_is(c, c.symbols.parents(a), k, b) implies class_derives(
        c,
        a,
        b,
    ) by {
        lemma_parent_derives(c, c.symbols.parents(a), 0, k, b, b, n);
    }
}

/// Classes that hold all their parents hold all that they come from.
pub proof fn lemma_closed_holds(c: SemaView, classes: Seq<ClassId>, from: ClassId, to: ClassId, depth: nat)
    requires
        classes.contains(from),
        derives(c, from, to, depth),
        forall|y: ClassId, k: int, p: ClassId|
            classes.contains(y) && #[trigger] parent_is(c, c.symbols.parents(y), k, p)
                ==> classes.contains(p),
    ensures
        classes.contains(to),
    decreases depth,
{
    if from != to {
        let parents = c.symbols.parents(from);
        let (k, p) = lemma_parent_of(c, parents, 0, to, (depth - 1) as nat);
        assert(parent_is(c, c.symbols.parents(from), k, p));
        lemma_closed_holds(c, classes, p, to, (depth - 1) as nat);
    }
}

} // verus!
