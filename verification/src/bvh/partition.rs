//! How a set of primitives is divided in two.

use vstd::prelude::*;
use vstd::relations::*;
use vstd::seq_lib::*;
use crate::aabb::AABB;

verus! {

/// The order of keys.
pub open spec fn key_leq() -> spec_fn(i32, i32) -> bool {
    |a: i32, b: i32| a <= b
}

/// The least corner's keys on `axis` of the boxes that `indices` names.
pub open spec fn keys_at(boxes: Seq<AABB>, indices: Seq<usize>, axis: int) -> Seq<i32> {
    Seq::new(indices.len(), |k: int| boxes[indices[k] as int].min.at(axis))
}

/// The key in the middle of `keys` once they stand in ascending order.
pub open spec fn pivot_key(keys: Seq<i32>) -> i32 {
    keys.sort_by(key_leq())[(keys.len() / 2) as int]
}

/// Whether the box that `i` names starts below `pivot` on `axis`.
pub open spec fn starts_below(boxes: Seq<AABB>, axis: int, pivot: i32) -> spec_fn(usize) -> bool {
    |i: usize| boxes[i as int].min.at(axis) < pivot
}

/// Whether the box that `i` names starts at or above `pivot` on `axis`.
pub open spec fn starts_from(boxes: Seq<AABB>, axis: int, pivot: i32) -> spec_fn(usize) -> bool {
    |i: usize| !(boxes[i as int].min.at(axis) < pivot)
}

/// How a set of primitives is divided in two on `axis`: those whose box starts
/// below the pivot go left and the others right; where none starts below it,
/// the first half goes left and the second half right.
pub open spec fn spec_split(boxes: Seq<AABB>, indices: Seq<usize>, axis: int) -> (
    Seq<usize>,
    Seq<usize>,
) {
    let pivot = pivot_key(keys_at(boxes, indices, axis));
    let below = indices.filter(starts_below(boxes, axis, pivot));
    let mid = (indices.len() / 2) as int;
    if below.len() == 0 {
        (indices.take(mid), indices.skip(mid))
    } else {
        (below, indices.filter(starts_from(boxes, axis, pivot)))
    }
}

/// Calls `sort_unstable` of the standard library's slices on keys. It leaves
/// the same keys in `v`, each as often as before, in ascending order.
#[verifier::external_body]
fn sort_keys(v: &mut Vec<i32>)
    ensures
        final(v)@.to_multiset() == old(v)@.to_multiset(),
        sorted_by(final(v)@, key_leq()),
{
    v.sort_unstable();
}

pub(crate) proof fn lemma_key_order_is_total()
    ensures
        total_ordering(key_leq()),
{
}

/// The elements that a test keeps and those that its opposite keeps are
/// together the elements of the sequence.
proof fn lemma_filter_partition(s: Seq<usize>, p: spec_fn(usize) -> bool, q: spec_fn(usize) -> bool)
    requires
        forall|x: usize| #[trigger] q(x) == !p(x),
    ensures
        s.filter(p).to_multiset().add(s.filter(q).to_multiset()) =~= s.to_multiset(),
        s.filter(p).len() + s.filter(q).len() == s.len(),
    decreases s.len(),
{
    broadcast use group_to_multiset_ensures;

    reveal(Seq::filter);
    if s.len() > 0 {
        let head = s.drop_last();
        lemma_filter_partition(head, p, q);
        assert(s =~= head.push(s.last()));
    } else {
        assert(s.filter(p) =~= Seq::<usize>::empty());
        assert(s.filter(q) =~= Seq::<usize>::empty());
    }
}

/// Both parts of a split hold something, and together they hold what was split.
pub proof fn lemma_split_partitions(boxes: Seq<AABB>, indices: Seq<usize>, axis: int)
    requires
        indices.len() >= 2,
    ensures
        spec_split(boxes, indices, axis).0.len() > 0,
        spec_split(boxes, indices, axis).1.len() > 0,
        spec_split(boxes, indices, axis).0.len() + spec_split(boxes, indices, axis).1.len()
            == indices.len(),
        spec_split(boxes, indices, axis).0.to_multiset().add(
            spec_split(boxes, indices, axis).1.to_multiset(),
        ) =~= indices.to_multiset(),
{
    broadcast use group_to_multiset_ensures;

    let keys = keys_at(boxes, indices, axis);
    let pivot = pivot_key(keys);
    let p = starts_below(boxes, axis, pivot);
    let q = starts_from(boxes, axis, pivot);
    let mid = (indices.len() / 2) as int;
    if indices.filter(p).len() == 0 {
        assert(indices.take(mid) + indices.skip(mid) =~= indices);
        lemma_multiset_commutative(indices.take(mid), indices.skip(mid));
    } else {
        lemma_filter_partition(indices, p, q);
        lemma_key_order_is_total();
        keys.lemma_sort_by_ensures(key_leq());
        let sorted = keys.sort_by(key_leq());
        sorted.to_multiset_ensures();
        keys.to_multiset_ensures();
        assert(sorted.len() == keys.len());
        assert(sorted.contains(sorted[mid]));
        assert(keys.contains(pivot));
        let k = choose|k: int| 0 <= k < keys.len() && keys[k] == pivot;
        assert(q(indices[k]));
        indices.lemma_filter_contains(q, k);
    }
}

/// Copies the part of `v` from `from` up to, not including, `to`.
fn copy_range(v: &Vec<usize>, from: usize, to: usize) -> (r: Vec<usize>)
    requires
        from <= to <= v.len(),
    ensures
        r@ == v@.subrange(from as int, to as int),
{
    let mut out: Vec<usize> = Vec::new();
    let mut i: usize = from;
    while i < to
        invariant
            from <= i <= to <= v.len(),
            out@ == v@.subrange(from as int, i as int),
        decreases to - i,
    {
        out.push(v[i]);
        assert(v@.subrange(from as int, i + 1) =~= v@.subrange(from as int, i as int).push(
            v@[i as int],
        ));
        i += 1;
    }
    out
}

/// Divides the primitives that `indices` names in two on `axis`.
pub fn split(boxes: &[AABB], indices: &Vec<usize>, axis: usize) -> (r: (Vec<usize>, Vec<usize>))
    requires
        indices.len() >= 2,
        axis < 3,
        forall|k: int| 0 <= k < indices.len() ==> indices[k] < boxes.len(),
    ensures
        (r.0@, r.1@) == spec_split(boxes@, indices@, axis as int),
        r.0.len() > 0,
        r.1.len() > 0,
        r.0.len() + r.1.len() == indices.len(),
        r.0@.to_multiset().add(r.1@.to_multiset()) =~= indices@.to_multiset(),
{
    let n = indices.len();
    let ghost all_keys = keys_at(boxes@, indices@, axis as int);
    let mut keys: Vec<i32> = Vec::new();
    let mut i: usize = 0;
    while i < n
        invariant
            i <= n,
            n == indices.len(),
            axis < 3,
            forall|k: int| 0 <= k < indices.len() ==> indices[k] < boxes.len(),
            all_keys == keys_at(boxes@, indices@, axis as int),
            keys@ == all_keys.take(i as int),
        decreases n - i,
    {
        keys.push(boxes[indices[i]].min.get(axis));
        assert(all_keys.take(i + 1) =~= all_keys.take(i as int).push(all_keys[i as int]));
        i += 1;
    }
    assert(keys@ =~= all_keys);
    sort_keys(&mut keys);
    proof {
        broadcast use group_to_multiset_ensures;

        lemma_key_order_is_total();
        all_keys.lemma_sort_by_ensures(key_leq());
        lemma_sorted_unique(keys@, all_keys.sort_by(key_leq()), key_leq());
        keys@.to_multiset_ensures();
        all_keys.to_multiset_ensures();
        assert(keys@.len() == n);
    }
    let mid = n / 2;
    let pivot = keys[mid];
    assert(pivot == pivot_key(all_keys));
    let ghost p = starts_below(boxes@, axis as int, pivot);
    let ghost q = starts_from(boxes@, axis as int, pivot);
    let mut left: Vec<usize> = Vec::new();
    let mut right: Vec<usize> = Vec::new();
    let mut j: usize = 0;
    proof {
        reveal(Seq::filter);
        assert(indices@.take(0).filter(p) =~= Seq::<usize>::empty());
        assert(indices@.take(0).filter(q) =~= Seq::<usize>::empty());
    }
    while j < n
        invariant
            j <= n,
            n == indices.len(),
            axis < 3,
            forall|k: int| 0 <= k < indices.len() ==> indices[k] < boxes.len(),
            p == starts_below(boxes@, axis as int, pivot),
            q == starts_from(boxes@, axis as int, pivot),
            left@ == indices@.take(j as int).filter(p),
            right@ == indices@.take(j as int).filter(q),
        decreases n - j,
    {
        let idx = indices[j];
        proof {
            reveal(Seq::filter);
            assert(indices@.take(j + 1).drop_last() =~= indices@.take(j as int));
            assert(indices@.take(j + 1).last() == idx);
        }
        if boxes[idx].min.get(axis) < pivot {
            left.push(idx);
        } else {
            right.push(idx);
        }
        j += 1;
    }
    assert(indices@.take(n as int) =~= indices@);
    proof {
        lemma_split_partitions(boxes@, indices@, axis as int);
    }
    if left.len() == 0 {
        let first = copy_range(indices, 0, mid);
        let second = copy_range(indices, mid, n);
        assert(first@ =~= indices@.take(mid as int));
        assert(second@ =~= indices@.skip(mid as int));
        (first, second)
    } else {
        (left, right)
    }
}

} // verus!
