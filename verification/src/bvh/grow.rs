//! The building of the hierarchy.

use vstd::prelude::*;
use vstd::seq_lib::*;
use crate::aabb::{bound_of, lemma_bound_is_tightest, surrounding_box_vec, union_of, AABB};
use crate::bvh::partition::{spec_split, split};
use crate::bvh::{
    arena_wf, boxes_at, leaves, lemma_wf_links, links_forward, node_box, node_ok, BVHNode,
};
use crate::chance::random_below;

verus! {

/// The subtree at `idx` is what building over the primitives that `indices`
/// names leaves there, for some choice of axes: one primitive gives a leaf;
/// more are split on some axis, the node is followed by the subtree over the
/// left part and that by the subtree over the right part, and the node stores
/// the boxes around the two parts.
pub open spec fn grown_from(
    nodes: Seq<BVHNode>,
    boxes: Seq<AABB>,
    idx: int,
    indices: Seq<usize>,
    parent: usize,
) -> bool
    decreases indices.len(),
{
    &&& 0 <= idx < nodes.len()
    &&& if indices.len() <= 1 {
        &&& indices.len() == 1
        &&& nodes[idx] == (BVHNode::Leaf { parent_index: parent, primitive_index: indices[0] })
    } else {
        exists|axis: int|
            0 <= axis < 3 && {
                let parts = #[trigger] spec_split(boxes, indices, axis);
                &&& 0 < parts.0.len() < indices.len()
                &&& 0 < parts.1.len() < indices.len()
                &&& nodes[idx] == (BVHNode::Node {
                    parent_index: parent,
                    child_l_index: (idx + 1) as usize,
                    child_l_aabb: bound_of(boxes_at(boxes, parts.0)),
                    child_r_index: (idx + 2 * parts.0.len()) as usize,
                    child_r_aabb: bound_of(boxes_at(boxes, parts.1)),
                })
                &&& grown_from(nodes, boxes, idx + 1, parts.0, idx as usize)
                &&& grown_from(nodes, boxes, idx + 2 * parts.0.len(), parts.1, idx as usize)
            }
    }
}

/// What was grown stays grown when the arena grows or changes before it.
pub proof fn lemma_grown_frame(
    a: Seq<BVHNode>,
    b: Seq<BVHNode>,
    boxes: Seq<AABB>,
    idx: int,
    indices: Seq<usize>,
    parent: usize,
)
    requires
        grown_from(a, boxes, idx, indices, parent),
        a.len() <= b.len(),
        forall|i: int| idx <= i < a.len() ==> a[i] == b[i],
    ensures
        grown_from(b, boxes, idx, indices, parent),
    decreases indices.len(),
{
    if indices.len() > 1 {
        let axis = choose|axis: int|
            0 <= axis < 3 && {
                let parts = #[trigger] spec_split(boxes, indices, axis);
                &&& 0 < parts.0.len() < indices.len()
                &&& 0 < parts.1.len() < indices.len()
                &&& a[idx] == (BVHNode::Node {
                    parent_index: parent,
                    child_l_index: (idx + 1) as usize,
                    child_l_aabb: bound_of(boxes_at(boxes, parts.0)),
                    child_r_index: (idx + 2 * parts.0.len()) as usize,
                    child_r_aabb: bound_of(boxes_at(boxes, parts.1)),
                })
                &&& grown_from(a, boxes, idx + 1, parts.0, idx as usize)
                &&& grown_from(a, boxes, idx + 2 * parts.0.len(), parts.1, idx as usize)
            };
        let parts = spec_split(boxes, indices, axis);
        lemma_grown_frame(a, b, boxes, idx + 1, parts.0, idx as usize);
        lemma_grown_frame(a, b, boxes, idx + 2 * parts.0.len(), parts.1, idx as usize);
    }
}

/// The leaves under a node stay the same when the arena grows or changes
/// before that node.
pub proof fn lemma_leaves_frame(a: Seq<BVHNode>, b: Seq<BVHNode>, idx: int)
    requires
        0 <= idx,
        a.len() <= b.len(),
        links_forward(a),
        forall|i: int| idx <= i < a.len() ==> a[i] == b[i],
    ensures
        leaves(b, idx) == leaves(a, idx) || idx >= a.len(),
    decreases a.len() - idx,
{
    if idx < a.len() {
        match a[idx] {
            BVHNode::Leaf { .. } => {},
            BVHNode::Node { child_l_index, child_r_index, .. } => {
                lemma_leaves_frame(a, b, child_l_index as int);
                lemma_leaves_frame(a, b, child_r_index as int);
            },
        }
    }
}

/// What two parts hold together, the whole holds, and nothing else.
proof fn lemma_parts_within(whole: Seq<usize>, left: Seq<usize>, right: Seq<usize>)
    requires
        left.to_multiset().add(right.to_multiset()) =~= whole.to_multiset(),
    ensures
        forall|k: int| 0 <= k < left.len() ==> whole.contains(#[trigger] left[k]),
        forall|k: int| 0 <= k < right.len() ==> whole.contains(#[trigger] right[k]),
        forall|k: int|
            0 <= k < whole.len() ==> left.contains(#[trigger] whole[k]) || right.contains(
                whole[k],
            ),
{
    whole.to_multiset_ensures();
    left.to_multiset_ensures();
    right.to_multiset_ensures();
    assert forall|k: int| 0 <= k < left.len() implies whole.contains(#[trigger] left[k]) by {
        assert(left.contains(left[k]));
        assert(whole.to_multiset().count(left[k]) > 0);
    }
    assert forall|k: int| 0 <= k < right.len() implies whole.contains(#[trigger] right[k]) by {
        assert(right.contains(right[k]));
        assert(whole.to_multiset().count(right[k]) > 0);
    }
    assert forall|k: int| 0 <= k < whole.len() implies left.contains(#[trigger] whole[k])
        || right.contains(whole[k]) by {
        assert(whole.contains(whole[k]));
        assert(whole.to_multiset().count(whole[k]) > 0);
    }
}

/// The box around a set of primitives is the union of the boxes around two
/// parts that together hold the set.
pub proof fn lemma_bound_of_parts(
    boxes: Seq<AABB>,
    whole: Seq<usize>,
    left: Seq<usize>,
    right: Seq<usize>,
)
    requires
        left.len() > 0,
        right.len() > 0,
        left.to_multiset().add(right.to_multiset()) =~= whole.to_multiset(),
    ensures
        bound_of(boxes_at(boxes, whole)) == union_of(
            bound_of(boxes_at(boxes, left)),
            bound_of(boxes_at(boxes, right)),
        ),
{
    let w = boxes_at(boxes, whole);
    let l = boxes_at(boxes, left);
    let r = boxes_at(boxes, right);
    let both = union_of(bound_of(l), bound_of(r));
    lemma_parts_within(whole, left, right);
    whole.to_multiset_ensures();
    left.to_multiset_ensures();
    right.to_multiset_ensures();
    assert(whole.len() > 0);
    lemma_bound_is_tightest(l, bound_of(w));
    lemma_bound_is_tightest(r, bound_of(w));
    lemma_bound_is_tightest(w, both);
    assert forall|k: int| 0 <= k < l.len() implies bound_of(w).contains(#[trigger] l[k]) by {
        assert(whole.contains(left[k]));
        let m = choose|m: int| 0 <= m < whole.len() && whole[m] == left[k];
        assert(w[m] == l[k]);
    }
    assert forall|k: int| 0 <= k < r.len() implies bound_of(w).contains(#[trigger] r[k]) by {
        assert(whole.contains(right[k]));
        let m = choose|m: int| 0 <= m < whole.len() && whole[m] == right[k];
        assert(w[m] == r[k]);
    }
    assert forall|k: int| 0 <= k < w.len() implies both.contains(#[trigger] w[k]) by {
        if left.contains(whole[k]) {
            let m = choose|m: int| 0 <= m < left.len() && left[m] == whole[k];
            assert(l[m] == w[k]);
            assert(bound_of(l).contains(l[m]));
        } else {
            assert(right.contains(whole[k]));
            let m = choose|m: int| 0 <= m < right.len() && right[m] == whole[k];
            assert(r[m] == w[k]);
            assert(bound_of(r).contains(r[m]));
        }
    }
    assert(bound_of(w).contains(both));
    assert(both.contains(bound_of(w)));
}

/// A sound arena stays sound when a leaf that names a primitive joins it.
proof fn lemma_push_keeps_wf(nodes: Seq<BVHNode>, boxes: Seq<AABB>, leaf: BVHNode)
    requires
        arena_wf(nodes, boxes),
        leaf matches BVHNode::Leaf { primitive_index, .. } && primitive_index < boxes.len(),
    ensures
        arena_wf(nodes.push(leaf), boxes),
{
    let grown = nodes.push(leaf);
    assert forall|i: int| 0 <= i < grown.len() implies #[trigger] node_ok(grown, boxes, i) by {
        if i < nodes.len() {
            assert(node_ok(nodes, boxes, i));
            assert(grown[i] == nodes[i]);
        }
    }
}

/// The boxes of the primitives that `indices` names.
fn collect_boxes(boxes: &[AABB], indices: &Vec<usize>) -> (r: Vec<AABB>)
    requires
        forall|k: int| 0 <= k < indices.len() ==> indices[k] < boxes.len(),
    ensures
        r@ == boxes_at(boxes@, indices@),
{
    let mut out: Vec<AABB> = Vec::new();
    let mut i: usize = 0;
    while i < indices.len()
        invariant
            i <= indices.len(),
            forall|k: int| 0 <= k < indices.len() ==> indices[k] < boxes.len(),
            out@ == boxes_at(boxes@, indices@).take(i as int),
        decreases indices.len() - i,
    {
        out.push(boxes[indices[i]]);
        assert(boxes_at(boxes@, indices@).take(i + 1) =~= boxes_at(boxes@, indices@).take(
            i as int,
        ).push(boxes@[indices@[i as int] as int]));
        i += 1;
    }
    assert(boxes_at(boxes@, indices@).take(i as int) =~= boxes_at(boxes@, indices@));
    out
}

/// What holds of the arena once a node's two subtrees are built and the node
/// itself is written: the step of the induction on which building rests.
proof fn lemma_build_step(
    before: Seq<BVHNode>,
    after_left: Seq<BVHNode>,
    after_right: Seq<BVHNode>,
    done: Seq<BVHNode>,
    boxes: Seq<AABB>,
    indices: Seq<usize>,
    left: Seq<usize>,
    right: Seq<usize>,
    parent: usize,
    axis: int,
)
    requires
        0 <= axis < 3,
        indices.len() >= 2,
        done.len() <= usize::MAX,
        spec_split(boxes, indices, axis) == (left, right),
        left.len() > 0,
        right.len() > 0,
        left.len() + right.len() == indices.len(),
        left.to_multiset().add(right.to_multiset()) =~= indices.to_multiset(),
        bound_of(boxes_at(boxes, indices)) == union_of(
            bound_of(boxes_at(boxes, left)),
            bound_of(boxes_at(boxes, right)),
        ),
        arena_wf(before, boxes),
        after_left.len() == before.len() + 2 * left.len(),
        forall|i: int| 0 <= i < before.len() ==> after_left[i] == before[i],
        arena_wf(after_left, boxes),
        leaves(after_left, (before.len() + 1) as int).to_multiset() =~= left.to_multiset(),
        node_box(after_left, boxes, (before.len() + 1) as int) == bound_of(boxes_at(boxes, left)),
        after_left[(before.len() + 1) as int].parent() == before.len(),
        grown_from(after_left, boxes, (before.len() + 1) as int, left, before.len() as usize),
        after_right.len() == after_left.len() + 2 * right.len() - 1,
        forall|i: int| 0 <= i < after_left.len() ==> after_right[i] == after_left[i],
        arena_wf(after_right, boxes),
        leaves(after_right, after_left.len() as int).to_multiset() =~= right.to_multiset(),
        node_box(after_right, boxes, after_left.len() as int) == bound_of(boxes_at(boxes, right)),
        after_right[after_left.len() as int].parent() == before.len(),
        grown_from(after_right, boxes, after_left.len() as int, right, before.len() as usize),
        done == after_right.update(
            before.len() as int,
            BVHNode::Node {
                parent_index: parent,
                child_l_index: (before.len() + 1) as usize,
                child_l_aabb: bound_of(boxes_at(boxes, left)),
                child_r_index: after_left.len() as usize,
                child_r_aabb: bound_of(boxes_at(boxes, right)),
            },
        ),
    ensures
        done.len() == before.len() + 2 * indices.len() - 1,
        forall|i: int| 0 <= i < before.len() ==> done[i] == before[i],
        arena_wf(done, boxes),
        leaves(done, before.len() as int).to_multiset() =~= indices.to_multiset(),
        node_box(done, boxes, before.len() as int) == bound_of(boxes_at(boxes, indices)),
        done[before.len() as int].parent() == parent,
        grown_from(done, boxes, before.len() as int, indices, parent),
{
    let at = before.len() as int;
    let l = at + 1;
    let r = after_left.len() as int;
    lemma_wf_links(after_left, boxes);
    lemma_wf_links(after_right, boxes);
    assert(leaves(done, l) == leaves(after_left, l)) by {
        lemma_leaves_frame(after_left, after_right, l);
        lemma_leaves_frame(after_right, done, l);
    }
    assert(leaves(done, r) == leaves(after_right, r)) by {
        lemma_leaves_frame(after_right, done, r);
    }
    assert(leaves(done, at).to_multiset() =~= indices.to_multiset()) by {
        lemma_multiset_commutative(leaves(done, l), leaves(done, r));
        assert(leaves(done, at) == leaves(done, l) + leaves(done, r));
    }
    assert(grown_from(done, boxes, l, left, at as usize)) by {
        lemma_grown_frame(after_left, after_right, boxes, l, left, at as usize);
        lemma_grown_frame(after_right, done, boxes, l, left, at as usize);
    }
    assert(grown_from(done, boxes, r, right, at as usize)) by {
        lemma_grown_frame(after_right, done, boxes, r, right, at as usize);
    }
    assert(grown_from(done, boxes, at, indices, parent)) by {
        let parts = spec_split(boxes, indices, axis);
        assert(r == at + 2 * parts.0.len());
    }
    assert forall|i: int| 0 <= i < done.len() implies #[trigger] node_ok(done, boxes, i) by {
        if i != at {
            assert(node_ok(after_right, boxes, i));
            assert(done[i] == after_right[i]);
            if i < at {
                assert(after_right[i] == before[i]);
                assert(node_ok(before, boxes, i));
            }
        } else {
            assert(node_ok(after_left, boxes, l));
            assert(node_ok(after_right, boxes, r));
            assert(done[l] == after_left[l]);
            assert(done[r] == after_right[r]);
        }
    }
}

/// Builds the subtree over the primitives that `indices` names at the end of
/// the arena, and returns the place of its root.
pub(crate) fn build_rec(
    boxes: &[AABB],
    indices: Vec<usize>,
    nodes: &mut Vec<BVHNode>,
    parent_index: usize,
) -> (node_index: usize)
    requires
        indices.len() > 0,
        forall|k: int| 0 <= k < indices.len() ==> indices[k] < boxes.len(),
        arena_wf(old(nodes)@, boxes@),
    ensures
        node_index == old(nodes).len(),
        final(nodes).len() == old(nodes).len() + 2 * indices.len() - 1,
        forall|i: int| 0 <= i < old(nodes).len() ==> final(nodes)@[i] == old(nodes)@[i],
        arena_wf(final(nodes)@, boxes@),
        leaves(final(nodes)@, node_index as int).to_multiset() =~= indices@.to_multiset(),
        node_box(final(nodes)@, boxes@, node_index as int) == bound_of(
            boxes_at(boxes@, indices@),
        ),
        final(nodes)@[node_index as int].parent() == parent_index,
        grown_from(final(nodes)@, boxes@, node_index as int, indices@, parent_index),
    decreases indices.len(),
{
    let axis = random_below(3);
    let node_index = nodes.len();
    if indices.len() == 1 {
        let primitive_index = indices[0];
        nodes.push(BVHNode::Leaf { parent_index, primitive_index });
        proof {
            assert(indices@ =~= seq![primitive_index]);
            assert(boxes_at(boxes@, indices@) =~= seq![boxes@[primitive_index as int]]);
            lemma_push_keeps_wf(old(nodes)@, boxes@, nodes@[node_index as int]);
        }
        return node_index;
    }
    let (left, right) = split(boxes, &indices, axis);
    proof {
        lemma_parts_within(indices@, left@, right@);
        lemma_bound_of_parts(boxes@, indices@, left@, right@);
    }
    nodes.push(BVHNode::Leaf { parent_index: 0, primitive_index: 0 });
    proof {
        lemma_push_keeps_wf(old(nodes)@, boxes@, nodes@[node_index as int]);
    }
    let ghost placed = nodes@;
    let left_boxes = collect_boxes(boxes, &left);
    let right_boxes = collect_boxes(boxes, &right);
    let child_l_aabb = surrounding_box_vec(left_boxes.as_slice());
    let child_r_aabb = surrounding_box_vec(right_boxes.as_slice());
    let ghost left_set = left@;
    let ghost right_set = right@;
    let child_l_index = build_rec(boxes, left, nodes, node_index);
    let ghost after_left = nodes@;
    assert forall|i: int| 0 <= i < old(nodes)@.len() implies after_left[i] == old(nodes)@[i] by {
        assert(after_left[i] == placed[i]);
    }
    let child_r_index = build_rec(boxes, right, nodes, node_index);
    let ghost after_right = nodes@;
    nodes.set(
        node_index,
        BVHNode::Node { parent_index, child_l_index, child_l_aabb, child_r_index, child_r_aabb },
    );
    proof {
        lemma_build_step(
            old(nodes)@,
            after_left,
            after_right,
            nodes@,
            boxes@,
            indices@,
            left_set,
            right_set,
            parent_index,
            axis as int,
        );
    }
    node_index
}

} // verus!
