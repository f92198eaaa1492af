//! What a ray learns at a surface, and the contract of materials.

use vstd::prelude::*;
use crate::pdf::PDF;
use crate::ray::Ray;
use crate::vec3::{Color, Point3, Vec3};

verus! {

/// The meeting of a ray and a surface.
#[derive(Clone, Copy, Debug, PartialEq, Eq, Structural)]
pub struct HitRecord {
    /// Where they meet.
    pub p: Point3,
    /// The surface normal there.
    pub normal: Vec3,
    /// The ray parameter there.
    pub t: i32,
    /// The material of the surface: its place in the scene's table of materials.
    pub mat: usize,
    /// The surface coordinates there.
    pub u: i32,
    pub v: i32,
}

/// What a material does with a ray: it sends it on along `specular_ray`, or
/// offers a density to draw the next direction from.
pub struct Scatter<D> {
    pub specular_ray: Option<Ray>,
    pub attenuation: Color,
    pub pdf: Option<D>,
}

/// A material. What it does not say of itself is the behaviour of a surface
/// that neither scatters nor emits.
pub trait Material {
    /// The densities that this material draws scattered directions from.
    type Density: PDF;

    /// How the material scatters `r_in` at `rec`, or `None` where it absorbs it.
    fn scatter(&self, r_in: &Ray, rec: &HitRecord) -> (r: Option<Scatter<Self::Density>>)
        default_ensures
            r is None,
    {
        None
    }

    /// The density with which the material itself scatters `r_in` into
    /// `scattered`; never negative.
    fn scattering_pdf(&self, r_in: &Ray, rec: &HitRecord, scattered: &Ray) -> (r: i32)
        ensures
            r >= 0,
        default_ensures
            r == 0,
    {
        0
    }

    /// The light that the surface sends back along `r_in`.
    fn emitted(&self, r_in: &Ray, rec: &HitRecord, u: i32, v: i32, p: &Point3) -> (r: Color)
        default_ensures
            r == (Vec3 { x: 0, y: 0, z: 0 }),
    {
        Vec3 { x: 0, y: 0, z: 0 }
    }
}

} // verus!
