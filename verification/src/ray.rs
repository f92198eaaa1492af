//! Rays, and the decisions of the integrator that follows one through a scene.

use vstd::prelude::*;
use crate::geometry::Hittable;
use crate::material::{HitRecord, Material, Scatter};
use crate::ordinal::{clamp_density, spec_clamp_density, INFINITY, ONE, SURFACE_OFFSET};
use crate::pdf::{HittablePDF, MixturePDF, PDF};
use crate::vec3::{Color, Vec3};

verus! {

/// A ray: where it starts, where it heads, and the time at which it was cast.
#[derive(Clone, Copy, Debug, PartialEq, Eq, Structural)]
pub struct Ray {
    pub origin: Vec3,
    pub direction: Vec3,
    pub time: i32,
}

impl Ray {
    pub fn new(origin: Vec3, direction: Vec3, time: i32) -> (r: Ray)
        ensures
            r == (Ray { origin, direction, time }),
    {
        Ray { origin, direction, time }
    }

    pub fn origin(&self) -> (r: Vec3)
        ensures
            r == self.origin,
    {
        self.origin
    }

    pub fn direction(&self) -> (r: Vec3)
        ensures
            r == self.direction,
    {
        self.direction
    }

    pub fn time(&self) -> (r: i32)
        ensures
            r == self.time,
    {
        self.time
    }
}


/// What the integrator met at one surface from which the path went on.
#[derive(Clone, Copy, Debug, PartialEq, Eq, Structural)]
pub enum Bounce {
    /// The material sent the ray on along `scattered`. The light from there is
    /// scaled by `attenuation`, component by component, and `emitted` is added.
    Specular { emitted: Color, attenuation: Color, scattered: Ray },
    /// The direction of `scattered` was drawn. The light from there is scaled
    /// by `attenuation`, component by component, and by `scattering_pdf`; it is
    /// divided by the density of the draw, and `emitted` is added. The density
    /// of the draw is `density` where no lights were sampled, and else the mean
    /// of `density` and `light_density`; it counts as no less than the least
    /// density (see [`crate::ordinal::clamp_density`]).
    Diffuse {
        emitted: Color,
        attenuation: Color,
        scattering_pdf: i32,
        density: i32,
        light_density: Option<i32>,
        scattered: Ray,
    },
}

impl Bounce {
    /// The ray on which the path went on.
    pub open spec fn spec_scattered(self) -> Ray {
        match self {
            Bounce::Specular { scattered, .. } => scattered,
            Bounce::Diffuse { scattered, .. } => scattered,
        }
    }

    /// The ray on which the path went on.
    pub fn scattered(&self) -> (r: Ray)
        ensures
            r == self.spec_scattered(),
    {
        match self {
            Bounce::Specular { scattered, .. } => *scattered,
            Bounce::Diffuse { scattered, .. } => *scattered,
        }
    }
}

/// The path of one ray through a scene: its bounces, first to last, and the
/// light found where it ended. The light that the ray brings back is `end`,
/// carried back through the bounces from the last to the first; with no
/// bounces it is `end` itself.
pub struct LightPath {
    pub bounces: Vec<Bounce>,
    pub end: Color,
}

/// No light at all.
pub open spec fn black() -> Color {
    Vec3 { x: 0, y: 0, z: 0 }
}

/// The ray that a path follows after `k` bounces.
pub open spec fn ray_after(start: Ray, bounces: Seq<Bounce>, k: int) -> Ray {
    if k <= 0 {
        start
    } else {
        bounces[k - 1].spec_scattered()
    }
}

/// `out` can be what the material emits along `r_in` at `rec`.
pub open spec fn emits<M: Material>(material: M, r_in: Ray, rec: HitRecord, out: Color) -> bool {
    call_ensures(M::emitted, (&material, &r_in, &rec, rec.u, rec.v, &rec.p), out)
}

/// `out` can be how the material scatters `r_in` at `rec`.
pub open spec fn scatters<M: Material>(
    material: M,
    r_in: Ray,
    rec: HitRecord,
    out: Option<Scatter<M::Density>>,
) -> bool {
    call_ensures(M::scatter, (&material, &r_in, &rec), out)
}

/// `out` can be the density with which the material itself scatters `r_in`
/// into `scattered`.
pub open spec fn weighs<M: Material>(
    material: M,
    r_in: Ray,
    rec: HitRecord,
    scattered: Ray,
    out: i32,
) -> bool {
    call_ensures(M::scattering_pdf, (&material, &r_in, &rec, &scattered), out)
}

/// `scattered` can be the ray that leaves a diffuse bounce at `rec`, drawn
/// with `density` and `light_density`.
///
/// Without a density from the material the ray leaves along the normal, at
/// the time zero, and counts as drawn with the density one. With one, and
/// without lights, its direction is drawn from that density. With lights it
/// is drawn from that density or towards the lights, and both densities for
/// it are reported.
pub open spec fn draws<D: PDF, L: Hittable>(
    pdf: Option<D>,
    lights: Option<&L>,
    rec: HitRecord,
    time: i32,
    scattered: Ray,
    density: i32,
    light_density: Option<i32>,
) -> bool {
    match pdf {
        None => {
            &&& scattered == (Ray { origin: rec.p, direction: rec.normal, time: 0 })
            &&& density == ONE
            &&& light_density is None
        },
        Some(pdf) => {
            &&& scattered.origin == rec.p
            &&& scattered.time == time
            &&& call_ensures(D::value, (&pdf, scattered.direction), density)
            &&& match lights {
                None => {
                    &&& call_ensures(D::generate, (&pdf,), scattered.direction)
                    &&& light_density is None
                },
                Some(lights) => {
                    &&& call_ensures(D::generate, (&pdf,), scattered.direction) || call_ensures(
                        L::random,
                        (lights, rec.p),
                        scattered.direction,
                    )
                    &&& light_density matches Some(sampled) && call_ensures(
                        L::pdf_value,
                        (lights, rec.p, scattered.direction),
                        sampled,
                    )
                },
            }
        },
    }
}

impl Bounce {
    /// What the surface emitted.
    pub open spec fn emitted(self) -> Color {
        match self {
            Bounce::Specular { emitted, .. } => emitted,
            Bounce::Diffuse { emitted, .. } => emitted,
        }
    }

    /// By what the surface scales the light that comes in.
    pub open spec fn attenuation(self) -> Color {
        match self {
            Bounce::Specular { attenuation, .. } => attenuation,
            Bounce::Diffuse { attenuation, .. } => attenuation,
        }
    }

    /// The bounce is what can come of the scatter event `event` of `material`
    /// for `ray` at `rec`: a specular bounce along the ray that the event names;
    /// without such a ray a diffuse bounce, whose ray is drawn as `draws` says
    /// and weighed by the material.
    pub open spec fn comes_of<M: Material, L: Hittable>(
        self,
        material: M,
        lights: Option<&L>,
        ray: Ray,
        rec: HitRecord,
        event: Scatter<M::Density>,
    ) -> bool {
        &&& self.attenuation() == event.attenuation
        &&& match self {
            Bounce::Specular { scattered, .. } => event.specular_ray == Some(scattered),
            Bounce::Diffuse { scattering_pdf, density, light_density, scattered, .. } => {
                &&& event.specular_ray is None
                &&& draws(event.pdf, lights, rec, ray.time, scattered, density, light_density)
                &&& weighs(material, ray, rec, scattered, scattering_pdf)
            },
        }
    }
}

/// `bounce` can be what happens to `ray` in the scene: the ray hits a surface
/// beyond the surface offset, the hit names a material, the bounce carries
/// what the material emits, and it comes of a scatter event of the material.
pub open spec fn bounces_at<W: Hittable, M: Material, L: Hittable>(
    world: &W,
    materials: Seq<M>,
    lights: Option<&L>,
    ray: Ray,
    bounce: Bounce,
) -> bool {
    match world.spec_hit(ray, SURFACE_OFFSET, INFINITY) {
        None => false,
        Some(rec) => {
            &&& rec.mat < materials.len()
            &&& emits(materials[rec.mat as int], ray, rec, bounce.emitted())
            &&& exists|event: Scatter<M::Density>|
                #[trigger] scatters(materials[rec.mat as int], ray, rec, Some(event))
                    && bounce.comes_of(materials[rec.mat as int], lights, ray, rec, event)
        },
    }
}

/// `end` can be the light at the end of a path whose last ray is `ray`, with
/// `remaining` bounces left: black where none is left; else the background
/// where the ray hits nothing; black where the hit names no material; else
/// what the material emits, the material scattering nothing.
pub open spec fn ends_at<W: Hittable, M: Material>(
    world: &W,
    materials: Seq<M>,
    background: Color,
    ray: Ray,
    remaining: int,
    end: Color,
) -> bool {
    if remaining <= 0 {
        end == black()
    } else {
        match world.spec_hit(ray, SURFACE_OFFSET, INFINITY) {
            None => end == background,
            Some(rec) => if rec.mat >= materials.len() {
                end == black()
            } else {
                &&& scatters(materials[rec.mat as int], ray, rec, None)
                &&& emits(materials[rec.mat as int], ray, rec, end)
            },
        }
    }
}

/// `bounces` and `end` describe a path that `ray` can take through the scene
/// with at most `depth` bounces.
pub open spec fn follows<W: Hittable, M: Material, L: Hittable>(
    world: &W,
    materials: Seq<M>,
    lights: Option<&L>,
    ray: Ray,
    background: Color,
    depth: nat,
    bounces: Seq<Bounce>,
    end: Color,
) -> bool {
    &&& bounces.len() <= depth
    &&& forall|k: int|
        0 <= k < bounces.len() ==> bounces_at(
            world,
            materials,
            lights,
            ray_after(ray, bounces, k),
            #[trigger] bounces[k],
        )
    &&& ends_at(
        world,
        materials,
        background,
        ray_after(ray, bounces, bounces.len() as int),
        depth - bounces.len(),
        end,
    )
}

/// Follows `ray` through `world` for at most `depth` bounces, and says what
/// it met.
///
/// At each surface that the ray hits beyond the surface offset, the material
/// that the hit names in `materials` says what it emits and how it scatters.
/// The path ends where the bounces are used up, where the ray hits nothing,
/// and where the material scatters nothing or the hit names no material.
/// Where the material offers a density and there are `lights`, the next
/// direction is drawn half of the time from the density and half of the time
/// towards the lights.
pub fn light_path<W: Hittable, M: Material, L: Hittable>(
    ray: &Ray,
    background: &Color,
    world: &W,
    materials: &[M],
    lights: Option<&L>,
    depth: u32,
) -> (r: LightPath)
    ensures
        follows(world, materials@, lights, *ray, *background, depth as nat, r.bounces@, r.end),
        depth == 0 ==> r.bounces@.len() == 0 && r.end == black(),
        depth > 0 && world.spec_hit(*ray, SURFACE_OFFSET, INFINITY) is None ==> r.bounces@.len()
            == 0 && r.end == *background,
{
    let mut bounces: Vec<Bounce> = Vec::new();
    let mut current = *ray;
    let mut remaining = depth;
    while remaining > 0
        invariant
            bounces@.len() + remaining == depth,
            current == ray_after(*ray, bounces@, bounces@.len() as int),
            forall|k: int|
                0 <= k < bounces@.len() ==> bounces_at(
                    world,
                    materials@,
                    lights,
                    ray_after(*ray, bounces@, k),
                    #[trigger] bounces@[k],
                ),
        decreases remaining,
    {
        let ghost before = bounces@;
        proof {
            if bounces@.len() > 0 {
                assert(bounces_at(world, materials@, lights, ray_after(*ray, before, 0), before[0]));
            }
        }
        let rec = match world.hit(&current, SURFACE_OFFSET, INFINITY) {
            Some(rec) => rec,
            None => {
                return LightPath { bounces, end: *background };
            },
        };
        if rec.mat >= materials.len() {
            return LightPath { bounces, end: Vec3 { x: 0, y: 0, z: 0 } };
        }
        let material = &materials[rec.mat];
        let emitted = material.emitted(&current, &rec, rec.u, rec.v, &rec.p);
        let scatter = match material.scatter(&current, &rec) {
            Some(scatter) => scatter,
            None => {
                return LightPath { bounces, end: emitted };
            },
        };
        let ghost event = scatter;
        let attenuation = scatter.attenuation;
        let bounce = match scatter.specular_ray {
            Some(scattered) => Bounce::Specular { emitted, attenuation, scattered },
            None => {
                let (scattered, density, light_density) = match scatter.pdf {
                    None => (Ray { origin: rec.p, direction: rec.normal, time: 0 }, ONE, None),
                    Some(pdf) => match lights {
                        Some(lamps) => {
                            let mixture = MixturePDF::new(pdf, HittablePDF::new(rec.p, lamps));
                            let direction = mixture.generate();
                            let (own, sampled) = mixture.values(direction);
                            (
                                Ray { origin: rec.p, direction, time: current.time },
                                own,
                                Some(sampled),
                            )
                        },
                        None => {
                            let direction = pdf.generate();
                            (
                                Ray { origin: rec.p, direction, time: current.time },
                                pdf.value(direction),
                                None,
                            )
                        },
                    },
                };
                assert(draws(
                    event.pdf,
                    lights,
                    rec,
                    current.time,
                    scattered,
                    density,
                    light_density,
                ));
                Bounce::Diffuse {
                    emitted,
                    attenuation,
                    scattering_pdf: material.scattering_pdf(&current, &rec, &scattered),
                    density,
                    light_density,
                    scattered,
                }
            },
        };
        proof {
            assert(scatters(materials@[rec.mat as int], current, rec, Some(event)));
            assert(bounce.comes_of(materials@[rec.mat as int], lights, current, rec, event));
            assert(bounces_at(world, materials@, lights, current, bounce));
        }
        current = bounce.scattered();
        bounces.push(bounce);
        remaining -= 1;
        proof {
            assert forall|k: int| 0 <= k < bounces@.len() implies bounces_at(
                world,
                materials@,
                lights,
                ray_after(*ray, bounces@, k),
                #[trigger] bounces@[k],
            ) by {
                assert(ray_after(*ray, bounces@, k) == ray_after(*ray, before, k));
                if k < before.len() {
                    assert(bounces@[k] == before[k]);
                }
            }
        }
    }
    proof {
        if depth > 0 {
            assert(bounces_at(world, materials@, lights, ray_after(*ray, bounces@, 0), bounces@[0]));
        }
    }
    LightPath { bounces, end: Vec3 { x: 0, y: 0, z: 0 } }
}

/// The arithmetic of the estimator, which the library leaves to its caller.
///
/// `specular` takes what a surface emits, its attenuation and the light that
/// comes in, and gives the emitted light plus the incoming light scaled by the
/// attenuation, component by component. `diffuse` takes, besides these, a
/// weight and a density (after the attenuation, before the incoming light),
/// and gives the emitted light plus the scaled incoming light times the weight
/// over the density. `mean` gives the mean of two densities.
pub struct Shading<S, D, A> {
    pub specular: S,
    pub diffuse: D,
    pub mean: A,
}

impl<S, D, A> Shading<S, D, A> where
    S: Fn(Color, Color, Color) -> Color,
    D: Fn(Color, Color, i32, i32, Color) -> Color,
    A: Fn(i32, i32) -> i32,
 {
    /// The three operations take every argument.
    pub open spec fn total(self) -> bool {
        &&& forall|e: Color, a: Color, l: Color| #[trigger] call_requires(self.specular, (e, a, l))
        &&& forall|e: Color, a: Color, w: i32, d: i32, l: Color| #[trigger]
            call_requires(self.diffuse, (e, a, w, d, l))
        &&& forall|x: i32, y: i32| #[trigger] call_requires(self.mean, (x, y))
    }

    /// `drawn` can be the density with which the direction of a diffuse bounce
    /// was drawn: the material's own where no lights were sampled, and else
    /// the mean of the material's and the lights'.
    pub open spec fn draws(self, own: i32, light: Option<i32>, drawn: i32) -> bool {
        match light {
            None => drawn == own,
            Some(light) => call_ensures(self.mean, (own, light), drawn),
        }
    }

    /// `out` can be the light that leaves `bounce` where `incoming` comes in.
    /// At a diffuse bounce the estimator divides by the density of the draw,
    /// or by the least density where that is greater.
    pub open spec fn shades(self, bounce: Bounce, incoming: Color, out: Color) -> bool {
        match bounce {
            Bounce::Specular { emitted, attenuation, .. } => call_ensures(
                self.specular,
                (emitted, attenuation, incoming),
                out,
            ),
            Bounce::Diffuse { emitted, attenuation, scattering_pdf, density, light_density, .. } => {
                exists|drawn: i32| #[trigger]
                    self.draws(density, light_density, drawn) && call_ensures(
                        self.diffuse,
                        (emitted, attenuation, scattering_pdf, spec_clamp_density(drawn), incoming),
                        out,
                    )
            },
        }
    }

    /// `out` can be the light that a path brings back: the light at its end,
    /// carried through its bounces from the last to the first.
    pub open spec fn carries(self, bounces: Seq<Bounce>, end: Color, out: Color) -> bool
        decreases bounces.len(),
    {
        if bounces.len() == 0 {
            out == end
        } else {
            exists|incoming: Color|
                self.carries(bounces.skip(1), end, incoming) && #[trigger] self.shades(
                    bounces[0],
                    incoming,
                    out,
                )
        }
    }
}

impl<S, D, A> Shading<S, D, A> where
    S: Fn(Color, Color, Color) -> Color,
    D: Fn(Color, Color, i32, i32, Color) -> Color,
    A: Fn(i32, i32) -> i32,
 {
    /// A path that starts with one more bounce brings back what that bounce
    /// makes of what the rest of the path brings back.
    pub proof fn lemma_carries_on(self, bounces: Seq<Bounce>, end: Color, incoming: Color, out: Color)
        requires
            bounces.len() > 0,
            self.carries(bounces.skip(1), end, incoming),
            self.shades(bounces[0], incoming, out),
        ensures
            self.carries(bounces, end, out),
    {
    }
}

/// The light that a path brings back.
pub fn radiance<S, D, A>(path: &LightPath, shading: &Shading<S, D, A>) -> (r: Color) where
    S: Fn(Color, Color, Color) -> Color,
    D: Fn(Color, Color, i32, i32, Color) -> Color,
    A: Fn(i32, i32) -> i32,

    requires
        shading.total(),
    ensures
        shading.carries(path.bounces@, path.end, r),
        path.bounces@.len() == 0 ==> r == path.end,
{
    let mut current = path.end;
    let mut k = path.bounces.len();
    assert(path.bounces@.skip(k as int) =~= Seq::<Bounce>::empty());
    while k > 0
        invariant
            k <= path.bounces.len(),
            shading.total(),
            shading.carries(path.bounces@.skip(k as int), path.end, current),
        decreases k,
    {
        k -= 1;
        let ghost incoming = current;
        let bounce = path.bounces[k];
        current = match bounce {
            Bounce::Specular { emitted, attenuation, .. } => (shading.specular)(
                emitted,
                attenuation,
                current,
            ),
            Bounce::Diffuse { emitted, attenuation, scattering_pdf, density, light_density, .. } => {
                let drawn = match light_density {
                    None => density,
                    Some(light) => (shading.mean)(density, light),
                };
                assert(shading.draws(density, light_density, drawn));
                (shading.diffuse)(
                    emitted,
                    attenuation,
                    scattering_pdf,
                    clamp_density(drawn),
                    current,
                )
            },
        };
        proof {
            let rest = path.bounces@.skip(k as int);
            assert(rest.skip(1) =~= path.bounces@.skip(k + 1));
            assert(rest[0] == bounce);
            assert(rest.len() > 0);
            assert(shading.shades(bounce, incoming, current));
            assert(shading.carries(rest.skip(1), path.end, incoming));
            shading.lemma_carries_on(rest, path.end, incoming, current);
        }
    }
    assert(path.bounces@.skip(0) =~= path.bounces@);
    current
}

/// The light that `ray` brings back from `world`: what `radiance` makes of
/// the path that `light_path` finds.
pub fn ray_color<W, M, L, S, D, A>(
    ray: &Ray,
    background: &Color,
    world: &W,
    materials: &[M],
    lights: Option<&L>,
    depth: u32,
    shading: &Shading<S, D, A>,
) -> (r: Color) where
    W: Hittable,
    M: Material,
    L: Hittable,
    S: Fn(Color, Color, Color) -> Color,
    D: Fn(Color, Color, i32, i32, Color) -> Color,
    A: Fn(i32, i32) -> i32,

    requires
        shading.total(),
    ensures
        depth == 0 ==> r == black(),
        depth > 0 && world.spec_hit(*ray, SURFACE_OFFSET, INFINITY) is None ==> r == *background,
        exists|bounces: Seq<Bounce>, end: Color| #[trigger]
            follows(world, materials@, lights, *ray, *background, depth as nat, bounces, end)
                && shading.carries(bounces, end, r),
{
    let path = light_path(ray, background, world, materials, lights, depth);
    radiance(&path, shading)
}

} // verus!
