//! Boxes made of six rectangles.

use vstd::prelude::*;
use crate::aabb::AABB;
use crate::vec3::Vec3;

verus! {

/// A plane at right angles to an axis, named by the two axes that it holds.
#[derive(Clone, Copy, Debug, PartialEq, Eq, Structural)]
pub enum Plane {
    XY,
    XZ,
    YZ,
}

/// A rectangle in a plane at right angles to an axis: it reaches from `a0` to
/// `a1` on the first axis of the plane and from `b0` to `b1` on the second,
/// and lies at `k` on the third axis.
#[derive(Clone, Copy, Debug, PartialEq, Eq, Structural)]
pub struct AARect {
    pub plane: Plane,
    pub a0: i32,
    pub a1: i32,
    pub b0: i32,
    pub b1: i32,
    pub k: i32,
    /// The place of the material in the scene's table of materials.
    pub material: usize,
}

impl AARect {
    /// The rectangle from `x0` to `x1` and from `y0` to `y1` at the depth `k`.
    pub fn xy(x0: i32, x1: i32, y0: i32, y1: i32, k: i32, material: usize) -> (r: AARect)
        ensures
            r == (AARect { plane: Plane::XY, a0: x0, a1: x1, b0: y0, b1: y1, k, material }),
    {
        AARect { plane: Plane::XY, a0: x0, a1: x1, b0: y0, b1: y1, k, material }
    }

    /// The rectangle from `x0` to `x1` and from `z0` to `z1` at the height `k`.
    pub fn xz(x0: i32, x1: i32, z0: i32, z1: i32, k: i32, material: usize) -> (r: AARect)
        ensures
            r == (AARect { plane: Plane::XZ, a0: x0, a1: x1, b0: z0, b1: z1, k, material }),
    {
        AARect { plane: Plane::XZ, a0: x0, a1: x1, b0: z0, b1: z1, k, material }
    }

    /// The rectangle from `y0` to `y1` and from `z0` to `z1` at `k` on the x axis.
    pub fn yz(y0: i32, y1: i32, z0: i32, z1: i32, k: i32, material: usize) -> (r: AARect)
        ensures
            r == (AARect { plane: Plane::YZ, a0: y0, a1: y1, b0: z0, b1: z1, k, material }),
    {
        AARect { plane: Plane::YZ, a0: y0, a1: y1, b0: z0, b1: z1, k, material }
    }

    /// The corner of the rectangle with the least coordinates.
    pub open spec fn least(self) -> Vec3 {
        match self.plane {
            Plane::XY => Vec3 { x: self.a0, y: self.b0, z: self.k },
            Plane::XZ => Vec3 { x: self.a0, y: self.k, z: self.b0 },
            Plane::YZ => Vec3 { x: self.k, y: self.a0, z: self.b0 },
        }
    }

    /// The corner of the rectangle with the greatest coordinates.
    pub open spec fn greatest(self) -> Vec3 {
        match self.plane {
            Plane::XY => Vec3 { x: self.a1, y: self.b1, z: self.k },
            Plane::XZ => Vec3 { x: self.a1, y: self.k, z: self.b1 },
            Plane::YZ => Vec3 { x: self.k, y: self.a1, z: self.b1 },
        }
    }

    /// The two extreme corners of the rectangle.
    pub fn corners(&self) -> (r: (Vec3, Vec3))
        ensures
            r == (self.least(), self.greatest()),
    {
        match self.plane {
            Plane::XY => (
                Vec3 { x: self.a0, y: self.b0, z: self.k },
                Vec3 { x: self.a1, y: self.b1, z: self.k },
            ),
            Plane::XZ => (
                Vec3 { x: self.a0, y: self.k, z: self.b0 },
                Vec3 { x: self.a1, y: self.k, z: self.b1 },
            ),
            Plane::YZ => (
                Vec3 { x: self.k, y: self.a0, z: self.b0 },
                Vec3 { x: self.k, y: self.a1, z: self.b1 },
            ),
        }
    }
}

/// The six sides of the box between `min` and `max`: back and front, top and
/// bottom, right and left.
pub open spec fn sides_of(min: Vec3, max: Vec3, material: usize) -> Seq<AARect> {
    seq![
        AARect { plane: Plane::XY, a0: min.x, a1: max.x, b0: min.y, b1: max.y, k: max.z, material },
        AARect { plane: Plane::XY, a0: min.x, a1: max.x, b0: min.y, b1: max.y, k: min.z, material },
        AARect { plane: Plane::XZ, a0: min.x, a1: max.x, b0: min.z, b1: max.z, k: max.y, material },
        AARect { plane: Plane::XZ, a0: min.x, a1: max.x, b0: min.z, b1: max.z, k: min.y, material },
        AARect { plane: Plane::YZ, a0: min.y, a1: max.y, b0: min.z, b1: max.z, k: max.x, material },
        AARect { plane: Plane::YZ, a0: min.y, a1: max.y, b0: min.z, b1: max.z, k: min.x, material },
    ]
}

/// A box with its sides along the axes, made of six rectangles.
pub struct Cuboid {
    pub min: Vec3,
    pub max: Vec3,
    pub sides: Vec<AARect>,
}

impl Cuboid {
    /// The box between `min` and `max`, all of one material.
    pub fn new(min: Vec3, max: Vec3, material: usize) -> (r: Cuboid)
        ensures
            r.min == min,
            r.max == max,
            r.sides@ == sides_of(min, max, material),
    {
        let mut sides: Vec<AARect> = Vec::new();
        sides.push(AARect::xy(min.x, max.x, min.y, max.y, max.z, material));
        sides.push(AARect::xy(min.x, max.x, min.y, max.y, min.z, material));
        sides.push(AARect::xz(min.x, max.x, min.z, max.z, max.y, material));
        sides.push(AARect::xz(min.x, max.x, min.z, max.z, min.y, material));
        sides.push(AARect::yz(min.y, max.y, min.z, max.z, max.x, material));
        sides.push(AARect::yz(min.y, max.y, min.z, max.z, min.x, material));
        assert(sides@ =~= sides_of(min, max, material));
        Cuboid { min, max, sides }
    }

    /// The box itself.
    pub fn bounding_box(&self, time0: i32, time1: i32) -> (r: Option<AABB>)
        ensures
            r == Some(AABB { min: self.min, max: self.max }),
    {
        Some(AABB { min: self.min, max: self.max })
    }
}

/// Every side of a box lies within the box, on one of its faces: it reaches
/// from one corner of the box to the other on the two axes of its plane, and
/// lies at a corner's coordinate on the third.
pub proof fn lemma_sides_lie_on_the_box(min: Vec3, max: Vec3, material: usize, i: int)
    requires
        0 <= i < 6,
        min.x <= max.x,
        min.y <= max.y,
        min.z <= max.z,
    ensures
        (AABB { min, max }).contains(
            AABB {
                min: sides_of(min, max, material)[i].least(),
                max: sides_of(min, max, material)[i].greatest(),
            },
        ),
        sides_of(min, max, material)[i].material == material,
        ({
            let side = sides_of(min, max, material)[i];
            match side.plane {
                Plane::XY => side.k == min.z || side.k == max.z,
                Plane::XZ => side.k == min.y || side.k == max.y,
                Plane::YZ => side.k == min.x || side.k == max.x,
            }
        }),
{
}

} // verus!
