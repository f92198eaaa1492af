//! Three-component vectors of keys.
//!
//! A key is an `i32` that stands for a single-precision value: two values
//! compare as their keys do. The library decides by comparing keys and never
//! does arithmetic on them.

use vstd::prelude::*;
use crate::ordinal::{negated, spec_negated};

verus! {

/// A vector, a point or a colour: three keys.
#[derive(Clone, Copy, Debug, PartialEq, Eq, Structural)]
pub struct Vec3 {
    pub x: i32,
    pub y: i32,
    pub z: i32,
}

pub type Point3 = Vec3;

pub type Color = Vec3;

impl Vec3 {
    /// The component on `axis`: 0 is x, 1 is y, anything else is z.
    pub open spec fn at(self, axis: int) -> i32 {
        if axis == 0 {
            self.x
        } else if axis == 1 {
            self.y
        } else {
            self.z
        }
    }

    /// The component on `axis`, for an axis given as a machine number.
    pub open spec fn on(self, axis: usize) -> i32 {
        self.at(axis as int)
    }

    pub fn new(x: i32, y: i32, z: i32) -> (r: Vec3)
        ensures
            r == (Vec3 { x, y, z }),
    {
        Vec3 { x, y, z }
    }

    /// The component on `axis`.
    pub fn get(&self, axis: usize) -> (r: i32)
        requires
            axis < 3,
        ensures
            r == self.at(axis as int),
    {
        if axis == 0 {
            self.x
        } else if axis == 1 {
            self.y
        } else {
            self.z
        }
    }

    /// The opposite vector: every component negated.
    pub open spec fn opposite(self) -> Vec3 {
        Vec3 { x: spec_negated(self.x), y: spec_negated(self.y), z: spec_negated(self.z) }
    }

    /// The opposite vector.
    pub fn negate(&self) -> (r: Vec3)
        ensures
            r == self.opposite(),
    {
        Vec3 { x: negated(self.x), y: negated(self.y), z: negated(self.z) }
    }

    /// The vector whose components are all `k`.
    pub fn splat(k: i32) -> (r: Vec3)
        ensures
            r == (Vec3 { x: k, y: k, z: k }),
    {
        Vec3 { x: k, y: k, z: k }
    }
}

} // verus!
