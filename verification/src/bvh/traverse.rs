//! The walk through the hierarchy, and the nearest hit among what it reaches.

use vstd::prelude::*;
use crate::aabb::{lemma_bound_is_tightest, slabs_hit, RaySlabs, AABB};
use crate::bvh::{
    all_indices, arena_wf, boxes_at, leaves, lemma_node_box_is_bound, lemma_structure,
    lemma_wf_links, links_forward, node_ok, BVHNode, BVH,
};
use crate::geometry::{closest_in_list, Hittable};
use crate::material::HitRecord;
use crate::ray::Ray;

verus! {

/// The primitives that a traversal from the node at `idx` reaches: a subtree
/// is entered where `hits` holds of its box, and a leaf that is reached gives
/// its primitive.
pub open spec fn candidates(nodes: Seq<BVHNode>, idx: int, hits: spec_fn(AABB) -> bool) -> Seq<
    usize,
>
    decreases nodes.len() - idx,
{
    if 0 <= idx < nodes.len() {
        match nodes[idx] {
            BVHNode::Leaf { primitive_index, .. } => seq![primitive_index],
            BVHNode::Node { child_l_index, child_l_aabb, child_r_index, child_r_aabb, .. } => {
                if idx < child_l_index < nodes.len() && idx < child_r_index < nodes.len() {
                    (if hits(child_l_aabb) {
                        candidates(nodes, child_l_index as int, hits)
                    } else {
                        Seq::empty()
                    }) + (if hits(child_r_aabb) {
                        candidates(nodes, child_r_index as int, hits)
                    } else {
                        Seq::empty()
                    })
                } else {
                    Seq::empty()
                }
            },
        }
    } else {
        Seq::empty()
    }
}

/// `crossings` can be asked about every box, and gives one answer for each.
pub open spec fn answers_every_box<F: Fn(&AABB) -> RaySlabs>(crossings: F) -> bool {
    &&& forall|b: AABB| #[trigger] call_requires(crossings, (&b,))
    &&& forall|b: AABB, s1: RaySlabs, s2: RaySlabs|
        #![trigger call_ensures(crossings, (&b,), s1), call_ensures(crossings, (&b,), s2)]
        call_ensures(crossings, (&b,), s1) && call_ensures(crossings, (&b,), s2) ==> s1 == s2
}

/// Whether the ray whose crossings `crossings` computes meets a box between
/// `t_min` and `t_max`.
pub open spec fn box_hit<F: Fn(&AABB) -> RaySlabs>(crossings: F, t_min: i32, t_max: i32) -> spec_fn(
    AABB,
) -> bool {
    |b: AABB|
        exists|s: RaySlabs| #[trigger]
            call_ensures(crossings, (&b,), s) && slabs_hit(s, t_min, t_max)
}

/// What the primitive at `i` answers to a ray; nothing where there is no such
/// primitive.
pub open spec fn hit_of<P: Hittable>(
    primitives: Seq<P>,
    i: usize,
    ray: Ray,
    t_min: i32,
    t_max: i32,
) -> Option<HitRecord> {
    if i < primitives.len() {
        primitives[i as int].spec_hit(ray, t_min, t_max)
    } else {
        None
    }
}

/// The order of hits: the smaller parameter comes first, and of two hits at
/// one parameter the one of the primitive that stands earlier in the list.
pub open spec fn nearer(a: (HitRecord, usize), b: (HitRecord, usize)) -> bool {
    a.0.t < b.0.t || (a.0.t == b.0.t && a.1 < b.1)
}

/// The first hit, in the order of hits, among the primitives that `order`
/// names, with the place of the primitive that gave it.
pub open spec fn nearest<P: Hittable>(
    primitives: Seq<P>,
    order: Seq<usize>,
    ray: Ray,
    t_min: i32,
    t_max: i32,
) -> Option<(HitRecord, usize)>
    decreases order.len(),
{
    if order.len() == 0 {
        None
    } else {
        let before = nearest(primitives, order.drop_last(), ray, t_min, t_max);
        let i = order.last();
        match hit_of(primitives, i, ray, t_min, t_max) {
            None => before,
            Some(rec) => match before {
                None => Some((rec, i)),
                Some(best) => if nearer((rec, i), best) {
                    Some((rec, i))
                } else {
                    before
                },
            },
        }
    }
}

/// The hit record of `nearest`.
pub open spec fn closest<P: Hittable>(
    primitives: Seq<P>,
    order: Seq<usize>,
    ray: Ray,
    t_min: i32,
    t_max: i32,
) -> Option<HitRecord> {
    match nearest(primitives, order, ray, t_min, t_max) {
        None => None,
        Some(found) => Some(found.0),
    }
}

/// What `nearest` gives is a hit of one of the primitives named, and no hit of
/// any of them comes before it; it gives nothing only where none of them is hit.
pub proof fn lemma_nearest_is_first<P: Hittable>(
    primitives: Seq<P>,
    order: Seq<usize>,
    ray: Ray,
    t_min: i32,
    t_max: i32,
)
    ensures
        match nearest(primitives, order, ray, t_min, t_max) {
            None => forall|k: int|
                0 <= k < order.len() ==> hit_of(primitives, #[trigger] order[k], ray, t_min, t_max)
                    is None,
            Some(found) => {
                &&& order.contains(found.1)
                &&& hit_of(primitives, found.1, ray, t_min, t_max) == Some(found.0)
                &&& forall|k: int|
                    0 <= k < order.len() ==> (hit_of(
                        primitives,
                        #[trigger] order[k],
                        ray,
                        t_min,
                        t_max,
                    ) matches Some(other) ==> !nearer((other, order[k]), found))
            },
        },
    decreases order.len(),
{
    if order.len() > 0 {
        let head = order.drop_last();
        lemma_nearest_is_first(primitives, head, ray, t_min, t_max);
        let before = nearest(primitives, head, ray, t_min, t_max);
        let now = nearest(primitives, order, ray, t_min, t_max);
        assert forall|k: int| 0 <= k < head.len() implies head[k] == order[k] by {}
        match now {
            None => {
                assert forall|k: int| 0 <= k < order.len() implies hit_of(
                    primitives,
                    #[trigger] order[k],
                    ray,
                    t_min,
                    t_max,
                ) is None by {
                    if k < head.len() {
                        assert(head[k] == order[k]);
                    }
                }
            },
            Some(found) => {
                if before is Some && before->0 == found {
                    let m = choose|m: int| 0 <= m < head.len() && head[m] == found.1;
                    assert(order[m] == found.1);
                } else {
                    assert(order[order.len() - 1] == found.1);
                }
                assert forall|k: int| 0 <= k < order.len() implies (hit_of(
                    primitives,
                    #[trigger] order[k],
                    ray,
                    t_min,
                    t_max,
                ) matches Some(other) ==> !nearer((other, order[k]), found)) by {
                    if k < head.len() {
                        assert(head[k] == order[k]);
                    }
                }
            },
        }
    }
}

/// Two lists of primitives that name the same hit primitives have the same
/// nearest hit.
pub proof fn lemma_nearest_of_same_hits<P: Hittable>(
    primitives: Seq<P>,
    first: Seq<usize>,
    second: Seq<usize>,
    ray: Ray,
    t_min: i32,
    t_max: i32,
)
    requires
        forall|k: int|
            0 <= k < first.len() && hit_of(primitives, #[trigger] first[k], ray, t_min, t_max)
                is Some ==> second.contains(first[k]),
        forall|k: int|
            0 <= k < second.len() && hit_of(primitives, #[trigger] second[k], ray, t_min, t_max)
                is Some ==> first.contains(second[k]),
    ensures
        nearest(primitives, first, ray, t_min, t_max) == nearest(
            primitives,
            second,
            ray,
            t_min,
            t_max,
        ),
{
    lemma_nearest_is_first(primitives, first, ray, t_min, t_max);
    lemma_nearest_is_first(primitives, second, ray, t_min, t_max);
    let a = nearest(primitives, first, ray, t_min, t_max);
    let b = nearest(primitives, second, ray, t_min, t_max);
    match a {
        None => {
            if b is Some {
                let found = b->0;
                let m = choose|m: int| 0 <= m < second.len() && second[m] == found.1;
                assert(first.contains(second[m]));
                let k = choose|k: int| 0 <= k < first.len() && first[k] == found.1;
                assert(hit_of(primitives, first[k], ray, t_min, t_max) is None);
            }
        },
        Some(fa) => {
            let k = choose|k: int| 0 <= k < first.len() && first[k] == fa.1;
            assert(second.contains(first[k]));
            let m = choose|m: int| 0 <= m < second.len() && second[m] == fa.1;
            assert(hit_of(primitives, second[m], ray, t_min, t_max) is Some);
            let fb = b->0;
            let m2 = choose|m2: int| 0 <= m2 < second.len() && second[m2] == fb.1;
            assert(first.contains(second[m2]));
            let k2 = choose|k2: int| 0 <= k2 < first.len() && first[k2] == fb.1;
            assert(hit_of(primitives, first[k2], ray, t_min, t_max) == Some(fb.0));
            assert(!nearer((fb.0, first[k2]), fa));
            assert(!nearer((fa.0, second[m]), fb));
        },
    }
}

/// The test passes on every box around a box on which it passes.
pub open spec fn grows_with_box(hits: spec_fn(AABB) -> bool) -> bool {
    forall|a: AABB, b: AABB| #![trigger hits(a), hits(b)] b.contains(a) && hits(a) ==> hits(b)
}

/// A traversal reaches only primitives that stand under the node it starts at.
pub proof fn lemma_candidates_are_leaves(
    nodes: Seq<BVHNode>,
    idx: int,
    hits: spec_fn(AABB) -> bool,
)
    requires
        links_forward(nodes),
    ensures
        forall|k: int|
            0 <= k < candidates(nodes, idx, hits).len() ==> leaves(nodes, idx).contains(
                #[trigger] candidates(nodes, idx, hits)[k],
            ),
    decreases nodes.len() - idx,
{
    if 0 <= idx < nodes.len() {
        match nodes[idx] {
            BVHNode::Leaf { primitive_index, .. } => {
                assert(leaves(nodes, idx)[0] == primitive_index);
            },
            BVHNode::Node { child_l_index, child_l_aabb, child_r_index, child_r_aabb, .. } => {
                let l = leaves(nodes, child_l_index as int);
                let r = leaves(nodes, child_r_index as int);
                let cl = if hits(child_l_aabb) {
                    candidates(nodes, child_l_index as int, hits)
                } else {
                    Seq::empty()
                };
                let cr = if hits(child_r_aabb) {
                    candidates(nodes, child_r_index as int, hits)
                } else {
                    Seq::empty()
                };
                lemma_candidates_are_leaves(nodes, child_l_index as int, hits);
                lemma_candidates_are_leaves(nodes, child_r_index as int, hits);
                assert forall|k: int| 0 <= k < (cl + cr).len() implies (l + r).contains(
                    #[trigger] (cl + cr)[k],
                ) by {
                    if k < cl.len() {
                        assert(l.contains(cl[k]));
                        let m = choose|m: int| 0 <= m < l.len() && l[m] == cl[k];
                        assert((l + r)[m] == cl[k]);
                    } else {
                        assert(r.contains(cr[k - cl.len()]));
                        let m = choose|m: int| 0 <= m < r.len() && r[m] == cr[k - cl.len()];
                        assert((l + r)[l.len() + m] == cr[k - cl.len()]);
                    }
                }
            },
        }
    }
}

/// A traversal reaches every primitive under the node it starts at whose own
/// box passes the test, where the test passes on every box around a box that
/// passes.
pub proof fn lemma_hit_leaf_is_candidate(
    nodes: Seq<BVHNode>,
    boxes: Seq<AABB>,
    idx: int,
    hits: spec_fn(AABB) -> bool,
    p: usize,
)
    requires
        arena_wf(nodes, boxes),
        0 <= idx < nodes.len(),
        leaves(nodes, idx).contains(p),
        p < boxes.len(),
        hits(boxes[p as int]),
        grows_with_box(hits),
    ensures
        candidates(nodes, idx, hits).contains(p),
    decreases nodes.len() - idx,
{
    assert(node_ok(nodes, boxes, idx));
    match nodes[idx] {
        BVHNode::Leaf { primitive_index, .. } => {
            assert(candidates(nodes, idx, hits)[0] == p);
        },
        BVHNode::Node { child_l_index, child_l_aabb, child_r_index, child_r_aabb, .. } => {
            let l = leaves(nodes, child_l_index as int);
            let r = leaves(nodes, child_r_index as int);
            let cl = if hits(child_l_aabb) {
                candidates(nodes, child_l_index as int, hits)
            } else {
                Seq::empty()
            };
            let cr = if hits(child_r_aabb) {
                candidates(nodes, child_r_index as int, hits)
            } else {
                Seq::empty()
            };
            let k = choose|k: int| 0 <= k < (l + r).len() && (l + r)[k] == p;
            if k < l.len() {
                assert(l[k] == p);
                lemma_node_box_is_bound(nodes, boxes, child_l_index as int);
                lemma_bound_is_tightest(boxes_at(boxes, l), child_l_aabb);
                assert(boxes_at(boxes, l)[k] == boxes[p as int]);
                assert(child_l_aabb.contains(boxes[p as int]));
                assert(hits(child_l_aabb));
                lemma_hit_leaf_is_candidate(nodes, boxes, child_l_index as int, hits, p);
                let m = choose|m: int| 0 <= m < cl.len() && cl[m] == p;
                assert((cl + cr)[m] == p);
            } else {
                assert(r[k - l.len()] == p);
                lemma_node_box_is_bound(nodes, boxes, child_r_index as int);
                lemma_bound_is_tightest(boxes_at(boxes, r), child_r_aabb);
                assert(boxes_at(boxes, r)[k - l.len()] == boxes[p as int]);
                assert(child_r_aabb.contains(boxes[p as int]));
                assert(hits(child_r_aabb));
                lemma_hit_leaf_is_candidate(nodes, boxes, child_r_index as int, hits, p);
                let m = choose|m: int| 0 <= m < cr.len() && cr[m] == p;
                assert((cl + cr)[cl.len() + m] == p);
            }
        },
    }
}

/// A ray that hits a primitive passes the test on that primitive's box.
pub open spec fn boxes_hold_hits<P: Hittable>(
    primitives: Seq<P>,
    boxes: Seq<AABB>,
    hits: spec_fn(AABB) -> bool,
    ray: Ray,
    t_min: i32,
    t_max: i32,
) -> bool {
    forall|i: int|
        0 <= i < primitives.len() && (#[trigger] primitives[i]).spec_hit(ray, t_min, t_max)
            is Some ==> hits(boxes[i])
}

/// The nearest hit among the first `k` primitives, asked in their order, is
/// the hit that the list of these primitives gives.
pub proof fn lemma_scan_is_list_hit<P: Hittable>(
    primitives: Seq<P>,
    k: nat,
    ray: Ray,
    t_min: i32,
    t_max: i32,
)
    requires
        k <= primitives.len() <= usize::MAX,
    ensures
        match nearest(primitives, all_indices(k), ray, t_min, t_max) {
            None => closest_in_list(primitives.take(k as int), ray, t_min, t_max) is None,
            Some(found) => {
                &&& found.1 < k
                &&& closest_in_list(primitives.take(k as int), ray, t_min, t_max) == Some(found.0)
            },
        },
    decreases k,
{
    if k > 0 {
        let before = (k - 1) as nat;
        lemma_scan_is_list_hit(primitives, before, ray, t_min, t_max);
        assert(all_indices(k).drop_last() =~= all_indices(before));
        assert(all_indices(k).last() == before as usize);
        assert(primitives.take(k as int).drop_last() =~= primitives.take(before as int));
        assert(primitives.take(k as int).last() == primitives[before as int]);
        assert(hit_of(primitives, before as usize, ray, t_min, t_max) == primitives[before as int].spec_hit(
            ray,
            t_min,
            t_max,
        ));
    } else {
        assert(all_indices(k) =~= Seq::<usize>::empty());
        assert(primitives.take(0) =~= Seq::<P>::empty());
    }
}

/// The nearest hit among the primitives that a traversal reaches is the hit
/// that the list of all primitives gives, where a ray that hits a primitive
/// passes the test on that primitive's box, and the test passes on every box
/// around a box that passes.
pub proof fn lemma_query_is_list_hit<P: Hittable>(
    bvh: BVH,
    primitives: Seq<P>,
    boxes: Seq<AABB>,
    hits: spec_fn(AABB) -> bool,
    ray: Ray,
    t_min: i32,
    t_max: i32,
)
    requires
        bvh.covers(boxes),
        boxes.len() == primitives.len(),
        boxes_hold_hits(primitives, boxes, hits, ray, t_min, t_max),
        grows_with_box(hits),
    ensures
        closest(primitives, candidates(bvh@, 0, hits), ray, t_min, t_max) == closest_in_list(
            primitives,
            ray,
            t_min,
            t_max,
        ),
{
    lemma_query_is_linear_scan(bvh, primitives, boxes, hits, ray, t_min, t_max);
    if boxes.len() > 0 {
        lemma_scan_is_list_hit(primitives, primitives.len(), ray, t_min, t_max);
        assert(primitives.take(primitives.len() as int) =~= primitives);
    } else {
        assert(candidates(bvh@, 0, hits) =~= Seq::<usize>::empty());
        assert(primitives =~= Seq::<P>::empty());
    }
}

/// The nearest hit among the primitives that a traversal reaches is the
/// nearest hit among all primitives, where a ray that hits a primitive passes
/// the test on that primitive's box, and the test passes on every box around
/// a box that passes.
pub proof fn lemma_query_is_linear_scan<P: Hittable>(
    bvh: BVH,
    primitives: Seq<P>,
    boxes: Seq<AABB>,
    hits: spec_fn(AABB) -> bool,
    ray: Ray,
    t_min: i32,
    t_max: i32,
)
    requires
        bvh.covers(boxes),
        boxes.len() == primitives.len(),
        forall|i: int|
            0 <= i < primitives.len() && (#[trigger] primitives[i]).spec_hit(ray, t_min, t_max)
                is Some ==> hits(boxes[i]),
        grows_with_box(hits),
    ensures
        nearest(primitives, candidates(bvh@, 0, hits), ray, t_min, t_max) == nearest(
            primitives,
            all_indices(primitives.len()),
            ray,
            t_min,
            t_max,
        ),
{
    let reached = candidates(bvh@, 0, hits);
    let all = all_indices(primitives.len());
    if boxes.len() > 0 {
        lemma_wf_links(bvh@, boxes);
        lemma_structure(bvh, boxes);
        lemma_candidates_are_leaves(bvh@, 0, hits);
        let found = leaves(bvh@, 0);
        found.to_multiset_ensures();
        assert forall|k: int|
            0 <= k < reached.len() && hit_of(primitives, #[trigger] reached[k], ray, t_min, t_max)
                is Some implies all.contains(reached[k]) by {
            assert(all[reached[k] as int] == reached[k]);
        }
        assert forall|k: int|
            0 <= k < all.len() && hit_of(primitives, #[trigger] all[k], ray, t_min, t_max)
                is Some implies reached.contains(all[k]) by {
            let p = all[k];
            assert(p as int == k);
            assert(primitives[k].spec_hit(ray, t_min, t_max) is Some);
            assert(found.to_multiset().count(p) == 1);
            assert(found.contains(p));
            lemma_hit_leaf_is_candidate(bvh@, boxes, 0, hits, p);
        }
        lemma_nearest_of_same_hits(primitives, reached, all, ray, t_min, t_max);
    } else {
        assert(reached =~= Seq::empty());
        assert(all =~= Seq::empty());
    }
}

/// Collects what `candidates` describes behind what `indices` holds.
pub(crate) fn traverse_rec<F: Fn(&AABB) -> RaySlabs>(
    nodes: &Vec<BVHNode>,
    index: usize,
    crossings: &F,
    t_min: i32,
    t_max: i32,
    indices: &mut Vec<usize>,
)
    requires
        index < nodes.len(),
        links_forward(nodes@),
        answers_every_box(*crossings),
    ensures
        final(indices)@ == old(indices)@ + candidates(
            nodes@,
            index as int,
            box_hit(*crossings, t_min, t_max),
        ),
    decreases nodes.len() - index,
{
    let ghost hits = box_hit(*crossings, t_min, t_max);
    match nodes[index] {
        BVHNode::Node { child_l_aabb, child_l_index, child_r_aabb, child_r_index, .. } => {
            let ghost start = indices@;
            if child_l_aabb.hit(crossings, t_min, t_max) {
                assert(hits(child_l_aabb));
                traverse_rec(nodes, child_l_index, crossings, t_min, t_max, indices);
            } else {
                assert(!hits(child_l_aabb));
                assert(indices@ =~= start + Seq::<usize>::empty());
            }
            let ghost middle = indices@;
            if child_r_aabb.hit(crossings, t_min, t_max) {
                assert(hits(child_r_aabb));
                traverse_rec(nodes, child_r_index, crossings, t_min, t_max, indices);
            } else {
                assert(!hits(child_r_aabb));
                assert(indices@ =~= middle + Seq::<usize>::empty());
            }
            assert(indices@ =~= start + candidates(nodes@, index as int, hits));
        },
        BVHNode::Leaf { primitive_index, .. } => {
            indices.push(primitive_index);
            assert(indices@ =~= old(indices)@ + seq![primitive_index]);
        },
    }
}

} // verus!
