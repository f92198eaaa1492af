//! Axis-aligned bounding boxes over keys.

use std::cmp::Ordering;
use vstd::prelude::*;
use crate::ordinal::INFINITY;
use crate::vec3::Vec3;

verus! {

/// An axis-aligned box given by its two extreme corners.
#[derive(Clone, Copy, Debug, PartialEq, Eq, Structural)]
pub struct AABB {
    pub min: Vec3,
    pub max: Vec3,
}

/// The lesser of two numbers.
pub open spec fn min_int(a: int, b: int) -> int {
    if a <= b {
        a
    } else {
        b
    }
}

/// The greater of two numbers.
pub open spec fn max_int(a: int, b: int) -> int {
    if a >= b {
        a
    } else {
        b
    }
}

/// The smallest box that holds both `a` and `b`.
pub open spec fn union_of(a: AABB, b: AABB) -> AABB {
    AABB {
        min: Vec3 {
            x: min_int(a.min.x as int, b.min.x as int) as i32,
            y: min_int(a.min.y as int, b.min.y as int) as i32,
            z: min_int(a.min.z as int, b.min.z as int) as i32,
        },
        max: Vec3 {
            x: max_int(a.max.x as int, b.max.x as int) as i32,
            y: max_int(a.max.y as int, b.max.y as int) as i32,
            z: max_int(a.max.z as int, b.max.z as int) as i32,
        },
    }
}

/// The box that bounds nothing: every union with it gives the other box back,
/// as long as that box lies within the infinities.
pub open spec fn empty_box() -> AABB {
    AABB {
        min: Vec3 { x: INFINITY, y: INFINITY, z: INFINITY },
        max: Vec3 { x: (-INFINITY) as i32, y: (-INFINITY) as i32, z: (-INFINITY) as i32 },
    }
}

/// The smallest box that holds every box of `s`; the empty box for no boxes.
pub open spec fn bound_of(s: Seq<AABB>) -> AABB
    decreases s.len(),
{
    if s.len() == 0 {
        empty_box()
    } else if s.len() == 1 {
        s[0]
    } else {
        union_of(bound_of(s.drop_last()), s.last())
    }
}

impl AABB {
    /// `min` does not exceed `max` on any axis.
    pub open spec fn wf(self) -> bool {
        &&& self.min.x <= self.max.x
        &&& self.min.y <= self.max.y
        &&& self.min.z <= self.max.z
    }

    /// Every point of `other` lies in `self`.
    pub open spec fn contains(self, other: AABB) -> bool {
        &&& self.min.x <= other.min.x
        &&& self.min.y <= other.min.y
        &&& self.min.z <= other.min.z
        &&& other.max.x <= self.max.x
        &&& other.max.y <= self.max.y
        &&& other.max.z <= self.max.z
    }
}

fn smaller(a: i32, b: i32) -> (r: i32)
    ensures
        r == min_int(a as int, b as int),
{
    if a <= b {
        a
    } else {
        b
    }
}

fn larger(a: i32, b: i32) -> (r: i32)
    ensures
        r == max_int(a as int, b as int),
{
    if a >= b {
        a
    } else {
        b
    }
}

/// The smallest box that holds both `box0` and `box1`.
pub fn surrounding_box(box0: AABB, box1: AABB) -> (r: AABB)
    ensures
        r == union_of(box0, box1),
        r.contains(box0),
        r.contains(box1),
        box0.wf() && box1.wf() ==> r.wf(),
{
    AABB {
        min: Vec3 {
            x: smaller(box0.min.x, box1.min.x),
            y: smaller(box0.min.y, box1.min.y),
            z: smaller(box0.min.z, box1.min.z),
        },
        max: Vec3 {
            x: larger(box0.max.x, box1.max.x),
            y: larger(box0.max.y, box1.max.y),
            z: larger(box0.max.z, box1.max.z),
        },
    }
}

/// The smallest box that holds every box of `aabbs`; for no boxes, the box
/// from positive to negative infinity.
pub fn surrounding_box_vec(aabbs: &[AABB]) -> (r: AABB)
    ensures
        r == bound_of(aabbs@),
{
    if aabbs.len() == 0 {
        return AABB {
            min: Vec3 { x: INFINITY, y: INFINITY, z: INFINITY },
            max: Vec3 { x: -INFINITY, y: -INFINITY, z: -INFINITY },
        };
    }
    let mut out = aabbs[0];
    let mut i: usize = 1;
    assert(aabbs@.take(1) =~= seq![aabbs@[0]]);
    while i < aabbs.len()
        invariant
            1 <= i <= aabbs.len(),
            out == bound_of(aabbs@.take(i as int)),
        decreases aabbs.len() - i,
    {
        proof {
            let next = aabbs@.take(i + 1);
            assert(next.drop_last() =~= aabbs@.take(i as int));
            assert(next.last() == aabbs@[i as int]);
        }
        out = surrounding_box(out, aabbs[i]);
        i += 1;
    }
    assert(aabbs@.take(i as int) =~= aabbs@);
    out
}

/// Orders two boxes by where they start on `axis`.
pub fn aabb_compare(a: &AABB, b: &AABB, axis: usize) -> (r: Ordering)
    requires
        axis < 3,
    ensures
        r == Ordering::Less <==> a.min.on(axis) < b.min.on(axis),
        r == Ordering::Equal <==> a.min.on(axis) == b.min.on(axis),
        r == Ordering::Greater <==> a.min.on(axis) > b.min.on(axis),
{
    let left = a.min.get(axis);
    let right = b.min.get(axis);
    if left < right {
        Ordering::Less
    } else if left == right {
        Ordering::Equal
    } else {
        Ordering::Greater
    }
}

/// The union of two boxes holds both, and lies inside every box that holds both.
pub proof fn lemma_union_is_tightest(a: AABB, b: AABB, c: AABB)
    ensures
        union_of(a, b).contains(a),
        union_of(a, b).contains(b),
        c.contains(a) && c.contains(b) ==> c.contains(union_of(a, b)),
        a.wf() && b.wf() ==> union_of(a, b).wf(),
{
}

/// A union takes each of its corners' components from one of the two boxes.
pub proof fn lemma_union_touches(a: AABB, b: AABB, axis: int)
    ensures
        union_of(a, b).min.at(axis) == a.min.at(axis) || union_of(a, b).min.at(axis) == b.min.at(
            axis,
        ),
        union_of(a, b).max.at(axis) == a.max.at(axis) || union_of(a, b).max.at(axis) == b.max.at(
            axis,
        ),
{
}

/// Union is idempotent, commutative and associative.
pub proof fn lemma_union_algebra(a: AABB, b: AABB, c: AABB)
    ensures
        union_of(a, a) == a,
        union_of(a, b) == union_of(b, a),
        union_of(union_of(a, b), c) == union_of(a, union_of(b, c)),
{
}

/// The bound of a sequence of boxes holds each of them, and lies inside every
/// box that holds each of them.
pub proof fn lemma_bound_is_tightest(s: Seq<AABB>, c: AABB)
    requires
        s.len() > 0,
    ensures
        forall|i: int| 0 <= i < s.len() ==> bound_of(s).contains(#[trigger] s[i]),
        (forall|i: int| 0 <= i < s.len() ==> c.contains(#[trigger] s[i])) ==> c.contains(
            bound_of(s),
        ),
    decreases s.len(),
{
    if s.len() > 1 {
        let head = s.drop_last();
        lemma_bound_is_tightest(head, c);
        assert forall|i: int| 0 <= i < s.len() implies bound_of(s).contains(#[trigger] s[i]) by {
            if i < s.len() - 1 {
                assert(head[i] == s[i]);
                assert(bound_of(head).contains(head[i]));
            }
        }
        if forall|i: int| 0 <= i < s.len() ==> c.contains(#[trigger] s[i]) {
            assert forall|i: int| 0 <= i < head.len() implies c.contains(#[trigger] head[i]) by {
                assert(head[i] == s[i]);
            }
            assert(c.contains(s[s.len() - 1]));
        }
    }
}

/// The bound of boxes whose corners are in order has its corners in order.
pub proof fn lemma_bound_is_wf(s: Seq<AABB>)
    requires
        s.len() > 0,
        forall|i: int| 0 <= i < s.len() ==> (#[trigger] s[i]).wf(),
    ensures
        bound_of(s).wf(),
    decreases s.len(),
{
    if s.len() > 1 {
        let head = s.drop_last();
        assert forall|i: int| 0 <= i < head.len() implies (#[trigger] head[i]).wf() by {
            assert(head[i] == s[i]);
        }
        lemma_bound_is_wf(head);
        assert(s[s.len() - 1].wf());
    } else {
        assert(s[0].wf());
    }
}

/// The bound of two sequences laid end to end is the union of their bounds.
pub proof fn lemma_bound_of_concat(a: Seq<AABB>, b: Seq<AABB>)
    requires
        a.len() > 0,
        b.len() > 0,
    ensures
        bound_of(a + b) == union_of(bound_of(a), bound_of(b)),
    decreases b.len(),
{
    let ab = a + b;
    assert(ab.last() == b.last());
    if b.len() == 1 {
        assert(ab.drop_last() =~= a);
    } else {
        assert(ab.drop_last() =~= a + b.drop_last());
        lemma_bound_of_concat(a, b.drop_last());
        lemma_union_algebra(bound_of(a), bound_of(b.drop_last()), b.last());
    }
}


/// Where a ray crosses the two planes that bound a box on one axis.
///
/// `t0` is the ray parameter at the plane of the box's least corner and `t1`
/// the one at the plane of its greatest corner, each the product of a
/// distance and the reciprocal of the ray's direction on that axis. Such a
/// product is undefined where the distance is zero and the reciprocal
/// infinite: then the parameter is `None`. `reversed` says that the reciprocal
/// is negative.
#[derive(Clone, Copy, Debug, PartialEq, Eq, Structural)]
pub struct Slab {
    pub t0: Option<i32>,
    pub t1: Option<i32>,
    pub reversed: bool,
}

/// The crossings of one ray with one box, axis by axis.
#[derive(Clone, Copy, Debug, PartialEq, Eq, Structural)]
pub struct RaySlabs {
    pub x: Slab,
    pub y: Slab,
    pub z: Slab,
}

impl Slab {
    /// The parameter at which the ray enters the slab: the crossing of the
    /// least plane, or of the greatest where the ray runs backwards.
    pub open spec fn enters(self) -> Option<i32> {
        if self.reversed {
            self.t1
        } else {
            self.t0
        }
    }

    /// The parameter at which the ray leaves the slab.
    pub open spec fn leaves(self) -> Option<i32> {
        if self.reversed {
            self.t0
        } else {
            self.t1
        }
    }

    /// The interval from `t_min` to `t_max` cut down to the slab. An undefined
    /// crossing cuts nothing off.
    pub open spec fn narrowed(self, t_min: i32, t_max: i32) -> (i32, i32) {
        (
            match self.enters() {
                Some(t) => max_int(t as int, t_min as int) as i32,
                None => t_min,
            },
            match self.leaves() {
                Some(t) => min_int(t as int, t_max as int) as i32,
                None => t_max,
            },
        )
    }

    /// Cuts the interval from `t_min` to `t_max` down to the slab.
    pub fn narrow(&self, t_min: i32, t_max: i32) -> (r: (i32, i32))
        ensures
            r == self.narrowed(t_min, t_max),
    {
        let (enters, leaves) = if self.reversed {
            (self.t1, self.t0)
        } else {
            (self.t0, self.t1)
        };
        let low = match enters {
            Some(t) => larger(t, t_min),
            None => t_min,
        };
        let high = match leaves {
            Some(t) => smaller(t, t_max),
            None => t_max,
        };
        (low, high)
    }
}

/// The slab test: the interval from `t_min` to `t_max` is cut down to each
/// axis's slab in turn, and the ray misses as soon as what is left has no
/// length.
pub open spec fn slabs_hit(slabs: RaySlabs, t_min: i32, t_max: i32) -> bool {
    let on_x = slabs.x.narrowed(t_min, t_max);
    let on_y = slabs.y.narrowed(on_x.0, on_x.1);
    let on_z = slabs.z.narrowed(on_y.0, on_y.1);
    &&& on_x.0 < on_x.1
    &&& on_y.0 < on_y.1
    &&& on_z.0 < on_z.1
}

/// Decides the slab test from the crossings of a ray with a box.
pub fn hit_slabs(slabs: &RaySlabs, t_min: i32, t_max: i32) -> (r: bool)
    ensures
        r == slabs_hit(*slabs, t_min, t_max),
{
    let (low, high) = slabs.x.narrow(t_min, t_max);
    if high <= low {
        return false;
    }
    let (low, high) = slabs.y.narrow(low, high);
    if high <= low {
        return false;
    }
    let (low, high) = slabs.z.narrow(low, high);
    if high <= low {
        return false;
    }
    true
}

/// The greatest of the parameters at which the ray enters a slab and `t_min`.
pub open spec fn latest_entry(slabs: RaySlabs, t_min: i32) -> int {
    let on_x = match slabs.x.enters() {
        Some(t) => max_int(t as int, t_min as int),
        None => t_min as int,
    };
    let on_y = match slabs.y.enters() {
        Some(t) => max_int(t as int, on_x),
        None => on_x,
    };
    match slabs.z.enters() {
        Some(t) => max_int(t as int, on_y),
        None => on_y,
    }
}

/// The least of the parameters at which the ray leaves a slab and `t_max`.
pub open spec fn earliest_exit(slabs: RaySlabs, t_max: i32) -> int {
    let on_x = match slabs.x.leaves() {
        Some(t) => min_int(t as int, t_max as int),
        None => t_max as int,
    };
    let on_y = match slabs.y.leaves() {
        Some(t) => min_int(t as int, on_x),
        None => on_x,
    };
    match slabs.z.leaves() {
        Some(t) => min_int(t as int, on_y),
        None => on_y,
    }
}

/// The slab test passes exactly where the ray has entered every slab, and
/// passed `t_min`, before it leaves any slab or passes `t_max`.
pub proof fn lemma_slabs_hit_is_overlap(slabs: RaySlabs, t_min: i32, t_max: i32)
    ensures
        slabs_hit(slabs, t_min, t_max) <==> latest_entry(slabs, t_min) < earliest_exit(
            slabs,
            t_max,
        ),
{
}

impl Slab {
    /// At the parameter `t` the ray is between the two planes of the slab: it
    /// has entered and not yet left. An undefined crossing bounds nothing.
    pub open spec fn holds(self, t: int) -> bool {
        &&& self.enters() matches Some(entry) ==> entry <= t
        &&& self.leaves() matches Some(exit) ==> t <= exit
    }
}

impl RaySlabs {
    /// At the parameter `t` the ray is inside the box: between the planes of
    /// all three slabs.
    pub open spec fn inside(self, t: int) -> bool {
        &&& self.x.holds(t)
        &&& self.y.holds(t)
        &&& self.z.holds(t)
    }
}

/// The slab test passes exactly where the ray is inside the box at two
/// different parameters between `t_min` and `t_max`: where the stretch of the
/// ray between them shares more than a point with the box.
pub proof fn lemma_slabs_hit_is_shared_stretch(slabs: RaySlabs, t_min: i32, t_max: i32)
    ensures
        slabs_hit(slabs, t_min, t_max) <==> exists|a: int, b: int|
            t_min <= a < b <= t_max && #[trigger] slabs.inside(a) && #[trigger] slabs.inside(b),
{
    lemma_slabs_hit_is_overlap(slabs, t_min, t_max);
    let low = latest_entry(slabs, t_min);
    let high = earliest_exit(slabs, t_max);
    if slabs_hit(slabs, t_min, t_max) {
        assert(slabs.inside(low));
        assert(slabs.inside(high));
        assert(t_min <= low < high <= t_max);
    }
    if exists|a: int, b: int|
        t_min <= a < b <= t_max && #[trigger] slabs.inside(a) && #[trigger] slabs.inside(b) {
        let (a, b) = choose|a: int, b: int|
            t_min <= a < b <= t_max && #[trigger] slabs.inside(a) && #[trigger] slabs.inside(b);
        assert(low <= a);
        assert(b <= high);
    }
}

impl Slab {
    /// This slab cuts no more off the interval from `t_min` to `t_max` than
    /// `inner` does.
    pub open spec fn no_narrower_than(self, inner: Slab, t_min: i32, t_max: i32) -> bool {
        &&& self.narrowed(t_min, t_max).0 <= inner.narrowed(t_min, t_max).0
        &&& self.narrowed(t_min, t_max).1 >= inner.narrowed(t_min, t_max).1
    }
}

/// The latest entry is the greatest of the lower ends, and the earliest exit
/// the least of the upper ends, of what the three slabs each leave of the
/// interval.
proof fn lemma_overlap_by_axis(slabs: RaySlabs, t_min: i32, t_max: i32)
    ensures
        latest_entry(slabs, t_min) == max_int(
            max_int(slabs.x.narrowed(t_min, t_max).0 as int, slabs.y.narrowed(t_min, t_max).0 as int),
            slabs.z.narrowed(t_min, t_max).0 as int,
        ),
        earliest_exit(slabs, t_max) == min_int(
            min_int(slabs.x.narrowed(t_min, t_max).1 as int, slabs.y.narrowed(t_min, t_max).1 as int),
            slabs.z.narrowed(t_min, t_max).1 as int,
        ),
{
    let ex = slabs.x.enters();
    let ey = slabs.y.enters();
    let ez = slabs.z.enters();
    let lx = slabs.x.leaves();
    let ly = slabs.y.leaves();
    let lz = slabs.z.leaves();
    assert(latest_entry(slabs, t_min) == max_int(
        max_int(slabs.x.narrowed(t_min, t_max).0 as int, slabs.y.narrowed(t_min, t_max).0 as int),
        slabs.z.narrowed(t_min, t_max).0 as int,
    )) by {
        match ex {
            Some(_) => {},
            None => {},
        }
        match ey {
            Some(_) => {},
            None => {},
        }
        match ez {
            Some(_) => {},
            None => {},
        }
    }
    assert(earliest_exit(slabs, t_max) == min_int(
        min_int(slabs.x.narrowed(t_min, t_max).1 as int, slabs.y.narrowed(t_min, t_max).1 as int),
        slabs.z.narrowed(t_min, t_max).1 as int,
    )) by {
        match lx {
            Some(_) => {},
            None => {},
        }
        match ly {
            Some(_) => {},
            None => {},
        }
        match lz {
            Some(_) => {},
            None => {},
        }
    }
}

/// Where each slab of one box cuts no more off the interval than the slab of
/// another box on the same axis, a ray that passes the test on the other box
/// passes it on the one.
pub proof fn lemma_wider_slabs_are_hit(outer: RaySlabs, inner: RaySlabs, t_min: i32, t_max: i32)
    requires
        outer.x.no_narrower_than(inner.x, t_min, t_max),
        outer.y.no_narrower_than(inner.y, t_min, t_max),
        outer.z.no_narrower_than(inner.z, t_min, t_max),
        slabs_hit(inner, t_min, t_max),
    ensures
        slabs_hit(outer, t_min, t_max),
{
    lemma_slabs_hit_is_overlap(outer, t_min, t_max);
    lemma_slabs_hit_is_overlap(inner, t_min, t_max);
    lemma_overlap_by_axis(outer, t_min, t_max);
    lemma_overlap_by_axis(inner, t_min, t_max);
}

/// A wider interval is hit wherever a narrower one is.
pub proof fn lemma_slabs_hit_widens(slabs: RaySlabs, t_min: i32, t_max: i32, lo: i32, hi: i32)
    requires
        lo <= t_min,
        t_max <= hi,
        slabs_hit(slabs, t_min, t_max),
    ensures
        slabs_hit(slabs, lo, hi),
{
}

impl AABB {
    /// Whether the ray whose crossings `crossings` computes meets this box
    /// between `t_min` and `t_max`.
    pub fn hit<F: Fn(&AABB) -> RaySlabs>(&self, crossings: &F, t_min: i32, t_max: i32) -> (r:
        bool)
        requires
            call_requires(crossings, (self,)),
        ensures
            exists|slabs: RaySlabs|
                call_ensures(crossings, (self,), slabs) && r == slabs_hit(slabs, t_min, t_max),
    {
        let slabs = crossings(self);
        hit_slabs(&slabs, t_min, t_max)
    }
}

} // verus!
