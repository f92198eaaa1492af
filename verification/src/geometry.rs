//! The contract of surfaces, and surfaces made of other surfaces.

use std::cmp::Ordering;
use vstd::prelude::*;
use crate::aabb::{aabb_compare, bound_of, surrounding_box, AABB};
use crate::chance::random_below;
use crate::material::HitRecord;
use crate::ordinal::ONE;
use crate::ray::Ray;
use crate::vec3::{Point3, Vec3};

verus! {

/// A surface: anything that a ray can hit.
///
/// `spec_hit` and `spec_bounding_box` say in contracts what `hit` and
/// `bounding_box` return; an implementation that is compiled without being
/// verified gives them the bodies of `hit` and `bounding_box`.
pub trait Hittable {
    /// What `hit` finds.
    spec fn spec_hit(&self, ray: Ray, t_min: i32, t_max: i32) -> Option<HitRecord>;

    /// What `bounding_box` returns.
    spec fn spec_bounding_box(&self, time0: i32, time1: i32) -> Option<AABB>;

    /// The nearest meeting of `ray` and the surface at a parameter from
    /// `t_min` to `t_max`, if there is one.
    fn hit(&self, ray: &Ray, t_min: i32, t_max: i32) -> (r: Option<HitRecord>)
        ensures
            r == self.spec_hit(*ray, t_min, t_max),
            r matches Some(rec) ==> t_min <= rec.t <= t_max,
    ;

    /// The box around the surface between two times, or `None` for a surface
    /// without bounds.
    fn bounding_box(&self, time0: i32, time1: i32) -> (r: Option<AABB>)
        ensures
            r == self.spec_bounding_box(time0, time1),
    ;

    /// The density with which `random` draws the direction `v` from `origin`;
    /// never negative.
    fn pdf_value(&self, origin: Point3, v: Vec3) -> (r: i32)
        ensures
            r >= 0,
        default_ensures
            r == 0,
    {
        0
    }

    /// Draws a direction from `origin` towards the surface.
    fn random(&self, origin: Point3) -> (r: Vec3)
        default_ensures
            r == (Vec3 { x: ONE, y: 0, z: 0 }),
    {
        Vec3 { x: ONE, y: 0, z: 0 }
    }
}


/// The nearest hit on the surfaces of `list`: of several hits at the least
/// parameter, the one on the surface that stands first.
pub open spec fn closest_in_list<H: Hittable>(list: Seq<H>, ray: Ray, t_min: i32, t_max: i32)
    -> Option<HitRecord>
    decreases list.len(),
{
    if list.len() == 0 {
        None
    } else {
        let before = closest_in_list(list.drop_last(), ray, t_min, t_max);
        match list.last().spec_hit(ray, t_min, t_max) {
            None => before,
            Some(next) => match before {
                None => Some(next),
                Some(prev) => if next.t < prev.t {
                    Some(next)
                } else {
                    before
                },
            },
        }
    }
}

/// Every surface of `list` has bounds between the two times.
pub open spec fn all_bounded<H: Hittable>(list: Seq<H>, time0: i32, time1: i32) -> bool {
    forall|i: int| 0 <= i < list.len() ==> (#[trigger] list[i]).spec_bounding_box(time0, time1) is Some
}

/// The boxes of the surfaces of `list`, in their order.
pub open spec fn boxes_in_list<H: Hittable>(list: Seq<H>, time0: i32, time1: i32) -> Seq<AABB> {
    Seq::new(list.len(), |i: int| list[i].spec_bounding_box(time0, time1).unwrap())
}

/// The box around the surfaces of `list`: there is none for an empty list, nor
/// for one that holds a surface without bounds.
pub open spec fn box_of_list<H: Hittable>(list: Seq<H>, time0: i32, time1: i32) -> Option<AABB> {
    if list.len() > 0 && all_bounded(list, time0, time1) {
        Some(bound_of(boxes_in_list(list, time0, time1)))
    } else {
        None
    }
}

/// What `closest_in_list` gives is the hit of a surface of the list, and no
/// surface of the list is hit at a smaller parameter; it gives nothing only
/// where no surface of the list is hit.
pub proof fn lemma_closest_in_list_is_least<H: Hittable>(
    list: Seq<H>,
    ray: Ray,
    t_min: i32,
    t_max: i32,
)
    ensures
        match closest_in_list(list, ray, t_min, t_max) {
            None => forall|i: int|
                0 <= i < list.len() ==> (#[trigger] list[i]).spec_hit(ray, t_min, t_max) is None,
            Some(rec) => {
                &&& exists|i: int|
                    0 <= i < list.len() && (#[trigger] list[i]).spec_hit(ray, t_min, t_max)
                        == Some(rec)
                &&& forall|i: int|
                    0 <= i < list.len() ==> ((#[trigger] list[i]).spec_hit(ray, t_min, t_max)
                        matches Some(other) ==> rec.t <= other.t)
            },
        },
    decreases list.len(),
{
    if list.len() > 0 {
        let head = list.drop_last();
        lemma_closest_in_list_is_least(head, ray, t_min, t_max);
        let before = closest_in_list(head, ray, t_min, t_max);
        assert forall|i: int| 0 <= i < head.len() implies head[i] == list[i] by {}
        match closest_in_list(list, ray, t_min, t_max) {
            None => {
                assert forall|i: int| 0 <= i < list.len() implies (#[trigger] list[i]).spec_hit(
                    ray,
                    t_min,
                    t_max,
                ) is None by {
                    if i < head.len() {
                        assert(head[i] == list[i]);
                    }
                }
            },
            Some(rec) => {
                if before == Some(rec) {
                    let i = choose|i: int|
                        0 <= i < head.len() && (#[trigger] head[i]).spec_hit(ray, t_min, t_max)
                            == Some(rec);
                    assert(list[i].spec_hit(ray, t_min, t_max) == Some(rec));
                } else {
                    assert(list[list.len() - 1].spec_hit(ray, t_min, t_max) == Some(rec));
                }
                assert forall|i: int| 0 <= i < list.len() implies ((#[trigger] list[i]).spec_hit(
                    ray,
                    t_min,
                    t_max,
                ) matches Some(other) ==> rec.t <= other.t) by {
                    if i < head.len() {
                        assert(head[i] == list[i]);
                    }
                }
            },
        }
    }
}

/// A list of surfaces, taken as one surface.
pub struct Hittables<H: Hittable> {
    pub items: Vec<H>,
}

impl<H: Hittable> Hittables<H> {
    pub fn new(items: Vec<H>) -> (r: Self)
        ensures
            r.items == items,
    {
        Hittables { items }
    }

    /// The nearest hit on the surfaces of the list.
    pub fn hit(&self, ray: &Ray, t_min: i32, t_max: i32) -> (r: Option<HitRecord>)
        ensures
            r == closest_in_list(self.items@, *ray, t_min, t_max),
            r matches Some(rec) ==> t_min <= rec.t <= t_max,
    {
        let mut hit: Option<HitRecord> = None;
        let mut i: usize = 0;
        assert(self.items@.take(0) =~= Seq::<H>::empty());
        while i < self.items.len()
            invariant
                i <= self.items.len(),
                hit == closest_in_list(self.items@.take(i as int), *ray, t_min, t_max),
                hit matches Some(rec) ==> t_min <= rec.t <= t_max,
            decreases self.items.len() - i,
        {
            proof {
                assert(self.items@.take(i + 1).drop_last() =~= self.items@.take(i as int));
                assert(self.items@.take(i + 1).last() == self.items@[i as int]);
            }
            if let Some(next_hit) = self.items[i].hit(ray, t_min, t_max) {
                match hit {
                    None => {
                        hit = Some(next_hit);
                    },
                    Some(prev_hit) => {
                        if next_hit.t < prev_hit.t {
                            hit = Some(next_hit);
                        }
                    },
                }
            }
            i += 1;
        }
        assert(self.items@.take(i as int) =~= self.items@);
        hit
    }

    /// The box around the surfaces of the list.
    pub fn bounding_box(&self, time0: i32, time1: i32) -> (r: Option<AABB>)
        ensures
            r == box_of_list(self.items@, time0, time1),
    {
        if self.items.len() == 0 {
            return None;
        }
        let ghost all = boxes_in_list(self.items@, time0, time1);
        let mut out = match self.items[0].bounding_box(time0, time1) {
            Some(first) => first,
            None => {
                return None;
            },
        };
        let mut i: usize = 1;
        assert(all.take(1) =~= seq![all[0]]);
        while i < self.items.len()
            invariant
                1 <= i <= self.items.len(),
                all == boxes_in_list(self.items@, time0, time1),
                forall|k: int|
                    0 <= k < i ==> (#[trigger] self.items@[k]).spec_bounding_box(time0, time1)
                        is Some,
                out == bound_of(all.take(i as int)),
            decreases self.items.len() - i,
        {
            match self.items[i].bounding_box(time0, time1) {
                Some(temp_box) => {
                    proof {
                        assert(all.take(i + 1).drop_last() =~= all.take(i as int));
                        assert(all.take(i + 1).last() == temp_box);
                    }
                    out = surrounding_box(out, temp_box);
                },
                None => {
                    return None;
                },
            }
            i += 1;
        }
        assert(all.take(i as int) =~= all);
        Some(out)
    }

    /// `values` can be the densities that the surfaces of the list give, one
    /// after the other, for the direction `v` from `origin`.
    pub open spec fn gives(&self, origin: Point3, v: Vec3, values: Seq<i32>) -> bool {
        &&& values.len() == self.items@.len()
        &&& forall|i: int|
            0 <= i < values.len() ==> call_ensures(
                H::pdf_value,
                (&self.items@[i], origin, v),
                #[trigger] values[i],
            )
    }

    /// The density with which `random` draws the direction `v` from `origin`:
    /// what `average` makes of the densities that the surfaces of the list
    /// give. The list draws evenly from its surfaces, so `average` is to be
    /// their mean.
    pub fn pdf_value<F: Fn(&Vec<i32>) -> i32>(&self, origin: Point3, v: Vec3, average: &F) -> (r:
        i32)
        requires
            forall|values: Vec<i32>| #[trigger] call_requires(average, (&values,)),
        ensures
            exists|values: Vec<i32>|
                self.gives(origin, v, values@) && #[trigger] call_ensures(average, (&values,), r),
    {
        let mut values: Vec<i32> = Vec::new();
        let mut i: usize = 0;
        while i < self.items.len()
            invariant
                i <= self.items.len(),
                values@.len() == i,
                forall|k: int|
                    0 <= k < i ==> call_ensures(
                        H::pdf_value,
                        (&self.items@[k], origin, v),
                        #[trigger] values@[k],
                    ),
            decreases self.items.len() - i,
        {
            let value = self.items[i].pdf_value(origin, v);
            values.push(value);
            i += 1;
        }
        let r = average(&values);
        assert(self.gives(origin, v, values@));
        r
    }

    /// Draws a direction from `origin` towards the surface of the list at the
    /// place `chosen`.
    pub fn random_from(&self, origin: Point3, chosen: usize) -> (r: Vec3)
        requires
            chosen < self.items.len(),
        ensures
            call_ensures(H::random, (&self.items@[chosen as int], origin), r),
    {
        self.items[chosen].random(origin)
    }

    /// Draws a direction from `origin` towards one surface of the list: a
    /// place in the list is drawn, each as likely as any other, and the surface
    /// there is asked.
    pub fn random(&self, origin: Point3) -> (r: Vec3)
        requires
            self.items.len() > 0,
        ensures
            exists|i: int|
                0 <= i < self.items@.len() && #[trigger] call_ensures(
                    H::random,
                    (&self.items@[i], origin),
                    r,
                ),
    {
        let chosen = random_below(self.items.len());
        self.random_from(origin, chosen)
    }
}

/// The place where a surface starts on `axis` at time zero, if it has bounds.
pub open spec fn start_on<H: Hittable>(surface: H, axis: usize) -> Option<i32> {
    match surface.spec_bounding_box(0, 0) {
        Some(bounds) => Some(bounds.min.on(axis)),
        None => None,
    }
}

/// Orders two surfaces by where their boxes start on `axis`. Surfaces of
/// which one has no bounds count as equal.
pub fn box_compare<H: Hittable>(a: &H, b: &H, axis: usize) -> (r: Ordering)
    requires
        axis < 3,
    ensures
        match (start_on(*a, axis), start_on(*b, axis)) {
            (Some(left), Some(right)) => {
                &&& r == Ordering::Less <==> left < right
                &&& r == Ordering::Equal <==> left == right
                &&& r == Ordering::Greater <==> left > right
            },
            _ => r == Ordering::Equal,
        },
{
    if let Some(box_a) = a.bounding_box(0, 0) {
        if let Some(box_b) = b.bounding_box(0, 0) {
            return aabb_compare(&box_a, &box_b, axis);
        }
    }
    Ordering::Equal
}

/// A surface whose hits report the opposite normal: the surface is seen from
/// its other side.
pub struct FlipFace<H: Hittable> {
    pub hittable: H,
}

impl<H: Hittable> Hittable for FlipFace<H> {
    open spec fn spec_hit(&self, ray: Ray, t_min: i32, t_max: i32) -> Option<HitRecord> {
        match self.hittable.spec_hit(ray, t_min, t_max) {
            Some(rec) => Some(
                HitRecord {
                    p: rec.p,
                    normal: rec.normal.opposite(),
                    t: rec.t,
                    mat: rec.mat,
                    u: rec.u,
                    v: rec.v,
                },
            ),
            None => None,
        }
    }

    open spec fn spec_bounding_box(&self, time0: i32, time1: i32) -> Option<AABB> {
        self.hittable.spec_bounding_box(time0, time1)
    }

    fn hit(&self, ray: &Ray, t_min: i32, t_max: i32) -> (r: Option<HitRecord>) {
        if let Some(rec) = self.hittable.hit(ray, t_min, t_max) {
            let mut new_rec = rec;
            new_rec.normal = rec.normal.negate();
            return Some(new_rec);
        }
        None
    }

    fn bounding_box(&self, time0: i32, time1: i32) -> (r: Option<AABB>) {
        self.hittable.bounding_box(time0, time1)
    }
}

} // verus!
