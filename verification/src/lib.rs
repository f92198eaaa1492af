//! The core of an offline renderer: bounding boxes, a bounding-volume
//! hierarchy, the contracts between surfaces, materials and sampling
//! densities, and the decisions of a recursive light-transport integrator.
//!
//! Real quantities appear as keys (see [`ordinal`]): integers that are
//! ordered as the single-precision values that they stand for. The library
//! orders and selects, and leaves arithmetic on the values to its caller:
//!
//! - the test of a ray against a box decides from the parameters at which the
//!   ray crosses the planes of the box, which the caller computes (see
//!   [`aabb::RaySlabs`]);
//! - the integrator finds the path of a ray (see [`ray::light_path`]) and
//!   carries the light back along it with the caller's sums, products and
//!   quotients (see [`ray::Shading`]);
//! - surfaces, materials and densities are the caller's, behind the traits
//!   [`geometry::Hittable`], [`material::Material`] and [`pdf::PDF`].

pub mod aabb;
pub mod bvh;
mod chance;
pub mod cuboid;
pub mod geometry;
pub mod gltf;
pub mod material;
pub mod ordinal;
pub mod pdf;
pub mod perlin;
pub mod ray;
pub mod render;
pub mod scene;
pub mod vec3;
