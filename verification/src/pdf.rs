//! Sampling densities.

use vstd::prelude::*;
use crate::chance::coin;
use crate::geometry::Hittable;
use crate::vec3::Vec3;

verus! {

/// A way to draw directions, together with the density it draws them with.
pub trait PDF {
    /// The density with which `generate` draws `direction`; never negative.
    fn value(&self, direction: Vec3) -> (r: i32)
        ensures
            r >= 0,
    ;

    /// Draws a direction.
    fn generate(&self) -> Vec3;
}

/// Draws directions towards a surface, as seen from `origin`.
pub struct HittablePDF<'a, H: Hittable> {
    pub origin: Vec3,
    pub hittable: &'a H,
}

impl<'a, H: Hittable> HittablePDF<'a, H> {
    pub fn new(origin: Vec3, hittable: &'a H) -> (r: Self)
        ensures
            r.origin == origin,
            r.hittable == hittable,
    {
        HittablePDF { origin, hittable }
    }
}

impl<'a, H: Hittable> PDF for HittablePDF<'a, H> {
    /// The density that the surface gives for `direction` from the origin.
    fn value(&self, direction: Vec3) -> (r: i32)
        ensures
            call_ensures(H::pdf_value, (self.hittable, self.origin, direction), r),
    {
        self.hittable.pdf_value(self.origin, direction)
    }

    /// A direction that the surface draws from the origin.
    fn generate(&self) -> (r: Vec3)
        ensures
            call_ensures(H::random, (self.hittable, self.origin), r),
    {
        self.hittable.random(self.origin)
    }
}

/// Two densities of which each draws half of the directions.
pub struct MixturePDF<A: PDF, B: PDF> {
    pub p: (A, B),
}

impl<A: PDF, B: PDF> MixturePDF<A, B> {
    pub fn new(first: A, second: B) -> (r: Self)
        ensures
            r.p == (first, second),
    {
        MixturePDF { p: (first, second) }
    }

    /// The densities with which the two constituents draw `direction`. The
    /// density of the mixture is their mean.
    pub fn values(&self, direction: Vec3) -> (r: (i32, i32))
        ensures
            call_ensures(A::value, (&self.p.0, direction), r.0),
            call_ensures(B::value, (&self.p.1, direction), r.1),
    {
        (self.p.0.value(direction), self.p.1.value(direction))
    }

    /// The density with which `generate` draws `direction`: what `mean` makes
    /// of the densities of the two constituents. Each constituent draws half
    /// of the directions, so `mean` is to be their mean.
    pub fn value<F: Fn(i32, i32) -> i32>(&self, direction: Vec3, mean: &F) -> (r: i32)
        requires
            forall|a: i32, b: i32| #[trigger] call_requires(mean, (a, b)),
        ensures
            exists|a: i32, b: i32|
                {
                    &&& call_ensures(A::value, (&self.p.0, direction), a)
                    &&& call_ensures(B::value, (&self.p.1, direction), b)
                    &&& #[trigger] call_ensures(mean, (a, b), r)
                },
    {
        let (a, b) = self.values(direction);
        mean(a, b)
    }

    /// Draws from the constituent that a coin names: heads is the first,
    /// tails the second.
    pub fn generate_from(&self, heads: bool) -> (r: Vec3)
        ensures
            heads ==> call_ensures(A::generate, (&self.p.0,), r),
            !heads ==> call_ensures(B::generate, (&self.p.1,), r),
    {
        if heads {
            return self.p.0.generate();
        }
        self.p.1.generate()
    }

    /// Flips a coin that shows heads one time in two, and draws from the
    /// constituent that it names.
    pub fn generate(&self) -> (r: Vec3)
        ensures
            call_ensures(A::generate, (&self.p.0,), r) || call_ensures(B::generate, (&self.p.1,), r),
    {
        self.generate_from(coin(1, 2))
    }
}

} // verus!
