//! A bounding-volume hierarchy kept in a flat arena.
//!
//! The hierarchy is built once over the boxes of a list of primitives. A node
//! names its children by their place in the arena, and the children of a node
//! always come after it, so the arena holds a tree whose root is the first
//! node.

pub mod grow;
pub mod partition;
pub mod traverse;

use vstd::prelude::*;
use vstd::seq_lib::*;
use crate::aabb::{
    bound_of, lemma_bound_is_wf, lemma_bound_of_concat, union_of, RaySlabs, AABB,
};
use crate::bvh::grow::{build_rec, grown_from};
use crate::bvh::traverse::{
    answers_every_box, box_hit, boxes_hold_hits, candidates, closest, grows_with_box,
    lemma_query_is_list_hit, nearest, traverse_rec,
};
use crate::geometry::{all_bounded, boxes_in_list, closest_in_list, Hittable};
use crate::material::HitRecord;
use crate::ray::Ray;

verus! {

/// Something that a box can be drawn around.
///
/// `spec_aabb` says in contracts what `aabb` returns; an implementation that
/// is compiled without being verified gives it the body of `aabb`.
pub trait Bounded {
    /// The box around this object.
    spec fn spec_aabb(&self) -> AABB;

    fn aabb(&self) -> (r: AABB)
        ensures
            r == self.spec_aabb(),
    ;
}

impl Bounded for AABB {
    open spec fn spec_aabb(&self) -> AABB {
        *self
    }

    fn aabb(&self) -> (r: AABB) {
        *self
    }
}

/// A node of the hierarchy.
#[derive(Clone, Copy, Debug, PartialEq, Eq, Structural)]
pub enum BVHNode {
    /// One primitive, named by its place in the list that the hierarchy was built over.
    Leaf { parent_index: usize, primitive_index: usize },
    /// Two subtrees, each with the box around everything below it.
    Node {
        parent_index: usize,
        child_l_index: usize,
        child_l_aabb: AABB,
        child_r_index: usize,
        child_r_aabb: AABB,
    },
}

impl BVHNode {
    /// The place in the arena of the node above this one.
    pub open spec fn parent(self) -> usize {
        match self {
            BVHNode::Leaf { parent_index, .. } => parent_index,
            BVHNode::Node { parent_index, .. } => parent_index,
        }
    }
}

/// Every inner node's children lie after it in the arena.
pub open spec fn links_forward(nodes: Seq<BVHNode>) -> bool {
    forall|i: int|
        0 <= i < nodes.len() ==> match #[trigger] nodes[i] {
            BVHNode::Leaf { .. } => true,
            BVHNode::Node { child_l_index, child_r_index, .. } => {
                &&& i < child_l_index < nodes.len()
                &&& i < child_r_index < nodes.len()
            },
        }
}

/// The primitives under the node at `idx`, left to right.
pub open spec fn leaves(nodes: Seq<BVHNode>, idx: int) -> Seq<usize>
    decreases nodes.len() - idx,
{
    if 0 <= idx < nodes.len() {
        match nodes[idx] {
            BVHNode::Leaf { primitive_index, .. } => seq![primitive_index],
            BVHNode::Node { child_l_index, child_r_index, .. } => {
                if idx < child_l_index < nodes.len() && idx < child_r_index < nodes.len() {
                    leaves(nodes, child_l_index as int) + leaves(nodes, child_r_index as int)
                } else {
                    Seq::empty()
                }
            },
        }
    } else {
        Seq::empty()
    }
}

/// The box of the node at `idx`: a leaf's is its primitive's, an inner node's
/// is the union of the two boxes it stores.
pub open spec fn node_box(nodes: Seq<BVHNode>, boxes: Seq<AABB>, idx: int) -> AABB {
    match nodes[idx] {
        BVHNode::Leaf { primitive_index, .. } => boxes[primitive_index as int],
        BVHNode::Node { child_l_aabb, child_r_aabb, .. } => union_of(child_l_aabb, child_r_aabb),
    }
}

/// The boxes of the primitives that `indices` names, in that order.
pub open spec fn boxes_at(boxes: Seq<AABB>, indices: Seq<usize>) -> Seq<AABB> {
    Seq::new(indices.len(), |k: int| boxes[indices[k] as int])
}

/// The node at `idx` is sound over `boxes`: a leaf names a primitive; an inner
/// node points forward to two children that point back, and stores for each
/// child that child's box.
pub open spec fn node_ok(nodes: Seq<BVHNode>, boxes: Seq<AABB>, idx: int) -> bool {
    match nodes[idx] {
        BVHNode::Leaf { primitive_index, .. } => primitive_index < boxes.len(),
        BVHNode::Node { child_l_index, child_l_aabb, child_r_index, child_r_aabb, .. } => {
            &&& idx < child_l_index < nodes.len()
            &&& idx < child_r_index < nodes.len()
            &&& nodes[child_l_index as int].parent() == idx
            &&& nodes[child_r_index as int].parent() == idx
            &&& child_l_aabb == node_box(nodes, boxes, child_l_index as int)
            &&& child_r_aabb == node_box(nodes, boxes, child_r_index as int)
        },
    }
}

/// Every node of the arena is sound over `boxes`.
pub open spec fn arena_wf(nodes: Seq<BVHNode>, boxes: Seq<AABB>) -> bool {
    forall|i: int| 0 <= i < nodes.len() ==> #[trigger] node_ok(nodes, boxes, i)
}

/// A sound arena links forward.
pub proof fn lemma_wf_links(nodes: Seq<BVHNode>, boxes: Seq<AABB>)
    requires
        arena_wf(nodes, boxes),
    ensures
        links_forward(nodes),
{
    assert forall|i: int| 0 <= i < nodes.len() implies match #[trigger] nodes[i] {
        BVHNode::Leaf { .. } => true,
        BVHNode::Node { child_l_index, child_r_index, .. } => {
            &&& i < child_l_index < nodes.len()
            &&& i < child_r_index < nodes.len()
        },
    } by {
        assert(node_ok(nodes, boxes, i));
    }
}

/// The numbers from 0 up to, not including, `n`.
pub open spec fn all_indices(n: nat) -> Seq<usize> {
    Seq::new(n, |i: int| i as usize)
}

/// The boxes of `primitives`, in their order.
pub open spec fn boxes_of<P: Bounded>(primitives: Seq<P>) -> Seq<AABB> {
    Seq::new(primitives.len(), |i: int| primitives[i].spec_aabb())
}

/// Why no hierarchy was built.
#[derive(Clone, Copy, Debug, PartialEq, Eq, Structural)]
pub enum BuildError {
    /// The surface at `index` has no bounds.
    Unbounded { index: usize },
}

/// A bounding-volume hierarchy: the arena of its nodes, the root first.
pub struct BVH {
    nodes: Vec<BVHNode>,
}

impl BVH {
    #[verifier::type_invariant]
    spec fn inv(self) -> bool {
        links_forward(self.nodes@)
    }

    /// The nodes of the arena.
    pub closed spec fn view(&self) -> Seq<BVHNode> {
        self.nodes@
    }

    /// The hierarchy is one over the primitives with these boxes: it is empty
    /// where there are none; else its root is the first node, every primitive
    /// stands under exactly one leaf, and each inner node stores for each child
    /// the box of that child.
    pub open spec fn covers(&self, boxes: Seq<AABB>) -> bool {
        if boxes.len() == 0 {
            self@.len() == 0
        } else {
            &&& boxes.len() <= usize::MAX
            &&& self@.len() == 2 * boxes.len() - 1
            &&& arena_wf(self@, boxes)
            &&& self@[0].parent() == 0
            &&& grown_from(self@, boxes, 0, all_indices(boxes.len()), 0)
            &&& leaves(self@, 0).to_multiset() =~= all_indices(boxes.len()).to_multiset()
            &&& node_box(self@, boxes, 0) == bound_of(boxes)
        }
    }

    /// Builds the hierarchy over primitives with the given boxes.
    pub fn from_boxes(boxes: &[AABB]) -> (r: BVH)
        ensures
            r.covers(boxes@),
    {
        let mut nodes: Vec<BVHNode> = Vec::new();
        let n = boxes.len();
        if n == 0 {
            return BVH { nodes };
        }
        let mut indices: Vec<usize> = Vec::new();
        let mut i: usize = 0;
        while i < n
            invariant
                i <= n,
                indices@ == all_indices(n as nat).take(i as int),
            decreases n - i,
        {
            indices.push(i);
            assert(all_indices(n as nat).take(i + 1) =~= all_indices(n as nat).take(i as int).push(
                i,
            ));
            i += 1;
        }
        assert(indices@ =~= all_indices(n as nat));
        assert(boxes_at(boxes@, indices@) =~= boxes@);
        build_rec(boxes, indices, &mut nodes, 0);
        proof {
            lemma_wf_links(nodes@, boxes@);
        }
        BVH { nodes }
    }

    /// Builds the hierarchy over `primitives`.
    pub fn new<P: Bounded>(primitives: &[P]) -> (r: BVH)
        ensures
            r.covers(boxes_of(primitives@)),
    {
        let mut boxes: Vec<AABB> = Vec::new();
        let mut i: usize = 0;
        while i < primitives.len()
            invariant
                i <= primitives.len(),
                boxes@ == boxes_of(primitives@).take(i as int),
            decreases primitives.len() - i,
        {
            boxes.push(primitives[i].aabb());
            assert(boxes_of(primitives@).take(i + 1) =~= boxes_of(primitives@).take(i as int).push(
                primitives@[i as int].spec_aabb(),
            ));
            i += 1;
        }
        assert(boxes@ =~= boxes_of(primitives@));
        BVH::from_boxes(boxes.as_slice())
    }

    /// Builds the hierarchy over surfaces, from their boxes between two times.
    /// A surface without bounds cannot stand in a hierarchy: the first such
    /// surface is reported, and nothing is built.
    pub fn from_hittables<H: Hittable>(objects: &[H], time0: i32, time1: i32) -> (r: Result<
        BVH,
        BuildError,
    >)
        ensures
            match r {
                Ok(bvh) => all_bounded(objects@, time0, time1) && bvh.covers(
                    boxes_in_list(objects@, time0, time1),
                ),
                Err(BuildError::Unbounded { index }) => {
                    &&& index < objects.len()
                    &&& objects[index as int].spec_bounding_box(time0, time1) is None
                    &&& forall|k: int|
                        0 <= k < index ==> (#[trigger] objects[k]).spec_bounding_box(time0, time1)
                            is Some
                },
            },
    {
        let ghost all = boxes_in_list(objects@, time0, time1);
        let mut boxes: Vec<AABB> = Vec::new();
        let mut i: usize = 0;
        while i < objects.len()
            invariant
                i <= objects.len(),
                all == boxes_in_list(objects@, time0, time1),
                forall|k: int|
                    0 <= k < i ==> (#[trigger] objects[k]).spec_bounding_box(time0, time1) is Some,
                boxes@ == all.take(i as int),
            decreases objects.len() - i,
        {
            match objects[i].bounding_box(time0, time1) {
                Some(found) => {
                    boxes.push(found);
                    assert(all.take(i + 1) =~= all.take(i as int).push(found));
                },
                None => {
                    return Err(BuildError::Unbounded { index: i });
                },
            }
            i += 1;
        }
        assert(all.take(i as int) =~= all);
        Ok(BVH::from_boxes(boxes.as_slice()))
    }

    /// The arena.
    pub fn nodes(&self) -> (r: &Vec<BVHNode>)
        ensures
            r@ == self@,
    {
        &self.nodes
    }
}

impl BVH {
    /// Every leaf names one of `n` primitives.
    pub open spec fn fits(&self, n: nat) -> bool {
        forall|i: int|
            0 <= i < self@.len() ==> (#[trigger] self@[i] matches BVHNode::Leaf {
                primitive_index,
                ..
            } ==> primitive_index < n)
    }

    /// A hierarchy over primitives names only those primitives.
    pub proof fn lemma_covers_fits(self, boxes: Seq<AABB>)
        requires
            self.covers(boxes),
        ensures
            self.fits(boxes.len()),
    {
        assert forall|i: int| 0 <= i < self@.len() implies (#[trigger] self@[i] matches BVHNode::Leaf {
            primitive_index,
            ..
        } ==> primitive_index < boxes.len()) by {
            assert(node_ok(self@, boxes, i));
        }
    }

    /// The primitives that a ray may hit: those under the leaves that a walk
    /// from the root reaches when it enters only subtrees whose box the ray
    /// meets between `t_min` and `t_max`. `crossings` computes the ray's
    /// crossings with a box.
    pub fn traverse<F: Fn(&AABB) -> RaySlabs>(&self, crossings: F, t_min: i32, t_max: i32) -> (r:
        Vec<usize>)
        requires
            answers_every_box(crossings),
        ensures
            r@ == candidates(self@, 0, box_hit(crossings, t_min, t_max)),
    {
        proof {
            use_type_invariant(self);
        }
        let mut indices: Vec<usize> = Vec::new();
        if self.nodes.len() > 0 {
            traverse_rec(&self.nodes, 0, &crossings, t_min, t_max, &mut indices);
        }
        assert(indices@ =~= candidates(self@, 0, box_hit(crossings, t_min, t_max)));
        indices
    }

    /// The test that the ray passes on the box of every primitive that it hits,
    /// and on every box around a box on which it passes: what a walk needs to
    /// miss no hit.
    pub open spec fn misses_nothing<P: Hittable>(
        primitives: Seq<P>,
        boxes: Seq<AABB>,
        hits: spec_fn(AABB) -> bool,
        ray: Ray,
        t_min: i32,
        t_max: i32,
    ) -> bool {
        &&& boxes.len() == primitives.len()
        &&& boxes_hold_hits(primitives, boxes, hits, ray, t_min, t_max)
        &&& grows_with_box(hits)
    }

    /// The nearest hit of `ray` on the primitives between `t_min` and `t_max`.
    /// Only the primitives that `traverse` gives are asked. Where the
    /// hierarchy is one over the boxes of the primitives and the test on boxes
    /// misses nothing, the hit is the one that a scan of the whole list finds.
    pub fn query<P: Hittable, F: Fn(&AABB) -> RaySlabs>(
        &self,
        primitives: &[P],
        ray: &Ray,
        crossings: F,
        t_min: i32,
        t_max: i32,
    ) -> (r: Option<HitRecord>)
        requires
            answers_every_box(crossings),
        ensures
            r == closest(
                primitives@,
                candidates(self@, 0, box_hit(crossings, t_min, t_max)),
                *ray,
                t_min,
                t_max,
            ),
            r matches Some(rec) ==> t_min <= rec.t <= t_max,
            forall|boxes: Seq<AABB>|
                #[trigger] self.covers(boxes) && Self::misses_nothing(
                    primitives@,
                    boxes,
                    box_hit(crossings, t_min, t_max),
                    *ray,
                    t_min,
                    t_max,
                ) ==> r == closest_in_list(primitives@, *ray, t_min, t_max),
    {
        proof {
            assert forall|boxes: Seq<AABB>|
                #[trigger] self.covers(boxes) && Self::misses_nothing(
                    primitives@,
                    boxes,
                    box_hit(crossings, t_min, t_max),
                    *ray,
                    t_min,
                    t_max,
                ) implies closest(
                primitives@,
                candidates(self@, 0, box_hit(crossings, t_min, t_max)),
                *ray,
                t_min,
                t_max,
            ) == closest_in_list(primitives@, *ray, t_min, t_max) by {
                lemma_query_is_list_hit(
                    *self,
                    primitives@,
                    boxes,
                    box_hit(crossings, t_min, t_max),
                    *ray,
                    t_min,
                    t_max,
                );
            }
        }
        let reached = self.traverse(crossings, t_min, t_max);
        let mut best: Option<(HitRecord, usize)> = None;
        let mut k: usize = 0;
        assert(reached@.take(0) =~= Seq::<usize>::empty());
        while k < reached.len()
            invariant
                k <= reached.len(),
                best == nearest(primitives@, reached@.take(k as int), *ray, t_min, t_max),
                best matches Some(found) ==> t_min <= found.0.t <= t_max,
            decreases reached.len() - k,
        {
            let i = reached[k];
            proof {
                assert(reached@.take(k + 1).drop_last() =~= reached@.take(k as int));
                assert(reached@.take(k + 1).last() == i);
            }
            if i < primitives.len() {
                if let Some(rec) = primitives[i].hit(ray, t_min, t_max) {
                    best = match best {
                        None => Some((rec, i)),
                        Some(found) => if rec.t < found.0.t || (rec.t == found.0.t && i < found.1) {
                            Some((rec, i))
                        } else {
                            Some(found)
                        },
                    };
                }
            }
            k += 1;
        }
        assert(reached@.take(k as int) =~= reached@);
        match best {
            None => None,
            Some(found) => Some(found.0),
        }
    }
}

/// In a hierarchy over primitives, every primitive stands under exactly one
/// leaf, every leaf names a primitive, and the box of every inner node is the
/// union of the boxes of its two children, which are the boxes it stores.
pub proof fn lemma_structure(bvh: BVH, boxes: Seq<AABB>)
    requires
        bvh.covers(boxes),
        boxes.len() > 0,
    ensures
        forall|p: usize| p < boxes.len() ==> #[trigger] leaves(bvh@, 0).to_multiset().count(p) == 1,
        forall|k: int|
            0 <= k < leaves(bvh@, 0).len() ==> #[trigger] leaves(bvh@, 0)[k] < boxes.len(),
        forall|i: int|
            0 <= i < bvh@.len() ==> (#[trigger] bvh@[i] matches BVHNode::Node {
                child_l_index,
                child_l_aabb,
                child_r_index,
                child_r_aabb,
                ..
            } ==> {
                &&& child_l_aabb == node_box(bvh@, boxes, child_l_index as int)
                &&& child_r_aabb == node_box(bvh@, boxes, child_r_index as int)
                &&& node_box(bvh@, boxes, i) == union_of(
                    node_box(bvh@, boxes, child_l_index as int),
                    node_box(bvh@, boxes, child_r_index as int),
                )
            }),
{
    let all = all_indices(boxes.len());
    let found = leaves(bvh@, 0);
    all.to_multiset_ensures();
    found.to_multiset_ensures();
    assert(all.no_duplicates());
    all.lemma_multiset_has_no_duplicates();
    assert forall|p: usize| p < boxes.len() implies #[trigger] found.to_multiset().count(p)
        == 1 by {
        assert(all[p as int] == p);
        assert(all.contains(p));
    }
    assert forall|k: int| 0 <= k < found.len() implies #[trigger] found[k] < boxes.len() by {
        assert(found.contains(found[k]));
        assert(found.to_multiset().count(found[k]) > 0);
        assert(all.to_multiset().count(found[k]) > 0);
        assert(all.contains(found[k]));
        let m = choose|m: int| 0 <= m < all.len() && all[m] == found[k];
        assert(all[m] == m as usize);
    }
    assert forall|i: int| 0 <= i < bvh@.len() implies (#[trigger] bvh@[i] matches BVHNode::Node {
        child_l_index,
        child_l_aabb,
        child_r_index,
        child_r_aabb,
        ..
    } ==> {
        &&& child_l_aabb == node_box(bvh@, boxes, child_l_index as int)
        &&& child_r_aabb == node_box(bvh@, boxes, child_r_index as int)
        &&& node_box(bvh@, boxes, i) == union_of(
            node_box(bvh@, boxes, child_l_index as int),
            node_box(bvh@, boxes, child_r_index as int),
        )
    }) by {
        assert(node_ok(bvh@, boxes, i));
    }
}

/// In a sound arena something stands under every node, and the box of a node
/// is the smallest box around the primitives under it.
pub proof fn lemma_node_box_is_bound(nodes: Seq<BVHNode>, boxes: Seq<AABB>, idx: int)
    requires
        arena_wf(nodes, boxes),
        0 <= idx < nodes.len(),
    ensures
        leaves(nodes, idx).len() > 0,
        node_box(nodes, boxes, idx) == bound_of(boxes_at(boxes, leaves(nodes, idx))),
    decreases nodes.len() - idx,
{
    assert(node_ok(nodes, boxes, idx));
    match nodes[idx] {
        BVHNode::Leaf { primitive_index, .. } => {
            assert(boxes_at(boxes, leaves(nodes, idx)) =~= seq![boxes[primitive_index as int]]);
        },
        BVHNode::Node { child_l_index, child_r_index, .. } => {
            let l = leaves(nodes, child_l_index as int);
            let r = leaves(nodes, child_r_index as int);
            lemma_node_box_is_bound(nodes, boxes, child_l_index as int);
            lemma_node_box_is_bound(nodes, boxes, child_r_index as int);
            assert(boxes_at(boxes, l + r) =~= boxes_at(boxes, l) + boxes_at(boxes, r));
            lemma_bound_of_concat(boxes_at(boxes, l), boxes_at(boxes, r));
        },
    }
}

/// In a sound arena every leaf names a primitive.
pub proof fn lemma_leaves_name_primitives(nodes: Seq<BVHNode>, boxes: Seq<AABB>, idx: int)
    requires
        arena_wf(nodes, boxes),
        0 <= idx < nodes.len(),
    ensures
        forall|k: int|
            0 <= k < leaves(nodes, idx).len() ==> #[trigger] leaves(nodes, idx)[k] < boxes.len(),
    decreases nodes.len() - idx,
{
    assert(node_ok(nodes, boxes, idx));
    match nodes[idx] {
        BVHNode::Leaf { .. } => {},
        BVHNode::Node { child_l_index, child_r_index, .. } => {
            let l = leaves(nodes, child_l_index as int);
            let r = leaves(nodes, child_r_index as int);
            lemma_leaves_name_primitives(nodes, boxes, child_l_index as int);
            lemma_leaves_name_primitives(nodes, boxes, child_r_index as int);
            assert forall|k: int| 0 <= k < (l + r).len() implies #[trigger] (l + r)[k]
                < boxes.len() by {
                if k < l.len() {
                    assert((l + r)[k] == l[k]);
                } else {
                    assert((l + r)[k] == r[k - l.len()]);
                }
            }
        },
    }
}

/// Over primitives whose boxes have their corners in order, the box of every
/// node of a sound arena has its corners in order.
pub proof fn lemma_node_boxes_are_wf(nodes: Seq<BVHNode>, boxes: Seq<AABB>, idx: int)
    requires
        arena_wf(nodes, boxes),
        0 <= idx < nodes.len(),
        forall|i: int| 0 <= i < boxes.len() ==> (#[trigger] boxes[i]).wf(),
    ensures
        node_box(nodes, boxes, idx).wf(),
{
    lemma_leaves_name_primitives(nodes, boxes, idx);
    lemma_node_box_is_bound(nodes, boxes, idx);
    let under = boxes_at(boxes, leaves(nodes, idx));
    assert forall|k: int| 0 <= k < under.len() implies (#[trigger] under[k]).wf() by {
        assert(leaves(nodes, idx)[k] < boxes.len());
    }
    lemma_bound_is_wf(under);
}

} // verus!
