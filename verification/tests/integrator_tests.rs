use raytracer::aabb::AABB;
use raytracer::geometry::Hittable;
use raytracer::material::{HitRecord, Material, Scatter};
use raytracer::ordinal::{bits_of_key, key_of_bits, INFINITY, ONE, SURFACE_OFFSET};
use raytracer::pdf::PDF;
use raytracer::ray::{light_path, radiance, ray_color, Bounce, LightPath, Ray, Shading};
use raytracer::vec3::{Color, Vec3};

fn key(x: f32) -> i32 {
    key_of_bits(x.to_bits()).unwrap()
}

fn value(k: i32) -> f32 {
    f32::from_bits(bits_of_key(k).unwrap())
}

fn keys(v: [f32; 3]) -> Vec3 {
    Vec3::new(key(v[0]), key(v[1]), key(v[2]))
}

fn values(v: Vec3) -> [f32; 3] {
    [value(v.x), value(v.y), value(v.z)]
}

fn specular(emitted: Color, attenuation: Color, incoming: Color) -> Color {
    let (e, a, l) = (values(emitted), values(attenuation), values(incoming));
    keys([e[0] + a[0] * l[0], e[1] + a[1] * l[1], e[2] + a[2] * l[2]])
}

fn diffuse(emitted: Color, attenuation: Color, weight: i32, density: i32, incoming: Color) -> Color {
    let (e, a, l) = (values(emitted), values(attenuation), values(incoming));
    let (w, d) = (value(weight), value(density));
    keys([e[0] + w * (a[0] * l[0]) / d, e[1] + w * (a[1] * l[1]) / d, e[2] + w * (a[2] * l[2]) / d])
}

fn mean(a: i32, b: i32) -> i32 {
    key(0.5 * value(a) + 0.5 * value(b))
}

/// A world in which every ray hits the same surface, or nothing.
struct Wall {
    /// The x coordinate from which on rays hit nothing.
    open_from: f32,
    mat: usize,
}

impl Hittable for Wall {
    fn spec_hit(&self, ray: Ray, t_min: i32, t_max: i32) -> Option<HitRecord> {
        self.hit(&ray, t_min, t_max)
    }

    fn spec_bounding_box(&self, time0: i32, time1: i32) -> Option<AABB> {
        self.bounding_box(time0, time1)
    }

    fn hit(&self, ray: &Ray, t_min: i32, t_max: i32) -> Option<HitRecord> {
        assert_eq!(t_min, SURFACE_OFFSET);
        assert_eq!(t_max, INFINITY);
        if value(ray.origin.x) >= self.open_from {
            return None;
        }
        Some(HitRecord {
            p: Vec3::new(key(value(ray.origin.x) + 1.0), 0, 0),
            normal: keys([0.0, 1.0, 0.0]),
            t: key(1.0),
            mat: self.mat,
            u: key(0.25),
            v: key(0.75),
        })
    }

    fn bounding_box(&self, _time0: i32, _time1: i32) -> Option<AABB> {
        None
    }

    fn pdf_value(&self, _origin: Vec3, _v: Vec3) -> i32 {
        key(0.125)
    }

    fn random(&self, _origin: Vec3) -> Vec3 {
        keys([0.0, 0.0, 1.0])
    }
}

/// A density that always draws the same direction.
struct Fixed {
    direction: [f32; 3],
    density: f32,
}

impl PDF for Fixed {
    fn value(&self, _direction: Vec3) -> i32 {
        key(self.density)
    }

    fn generate(&self) -> Vec3 {
        keys(self.direction)
    }
}

enum Script {
    Absorb,
    Mirror,
    Cloud,
    Bare,
    Unwritten,
}

struct Scripted {
    script: Script,
    emits: [f32; 3],
}

impl Material for Scripted {
    type Density = Fixed;

    fn scatter(&self, r_in: &Ray, rec: &HitRecord) -> Option<Scatter<Fixed>> {
        match self.script {
            Script::Absorb | Script::Unwritten => None,
            Script::Mirror => Some(Scatter {
                specular_ray: Some(Ray::new(rec.p, keys([1.0, 0.0, 0.0]), r_in.time)),
                attenuation: keys([0.5, 0.25, 1.0]),
                pdf: None,
            }),
            Script::Cloud => Some(Scatter {
                specular_ray: None,
                attenuation: keys([0.5, 0.5, 0.5]),
                pdf: Some(Fixed { direction: [0.0, 1.0, 0.0], density: 0.5 }),
            }),
            Script::Bare => Some(Scatter {
                specular_ray: None,
                attenuation: keys([1.0, 1.0, 1.0]),
                pdf: None,
            }),
        }
    }

    fn scattering_pdf(&self, _r_in: &Ray, _rec: &HitRecord, _scattered: &Ray) -> i32 {
        key(0.25)
    }

    fn emitted(&self, _r_in: &Ray, rec: &HitRecord, u: i32, v: i32, p: &Vec3) -> Color {
        assert_eq!(u, rec.u);
        assert_eq!(v, rec.v);
        assert_eq!(*p, rec.p);
        keys(self.emits)
    }
}

/// A material that says nothing of itself.
struct Silent;

impl Material for Silent {
    type Density = Fixed;
}

fn start() -> Ray {
    Ray::new(keys([0.0, 0.0, 0.0]), keys([1.0, 0.0, 0.0]), key(0.5))
}

fn no_lights() -> Option<&'static Wall> {
    None
}

fn shading() -> Shading<
    fn(Color, Color, Color) -> Color,
    fn(Color, Color, i32, i32, Color) -> Color,
    fn(i32, i32) -> i32,
> {
    Shading { specular, diffuse, mean }
}

#[test]
fn depth_zero_is_black() {
    let world = Wall { open_from: 100.0, mat: 0 };
    let materials = [Scripted { script: Script::Mirror, emits: [9.0, 9.0, 9.0] }];
    let background = keys([0.7, 0.8, 1.0]);
    let path = light_path(&start(), &background, &world, &materials, no_lights(), 0);
    assert!(path.bounces.is_empty());
    assert_eq!(path.end, Vec3::new(0, 0, 0));
    let color = ray_color(&start(), &background, &world, &materials, no_lights(), 0, &shading());
    assert_eq!(color, keys([0.0, 0.0, 0.0]));
    let open = Wall { open_from: -100.0, mat: 0 };
    let color = ray_color(&start(), &background, &open, &materials, no_lights(), 0, &shading());
    assert_eq!(color, keys([0.0, 0.0, 0.0]));
}

#[test]
fn ray_that_hits_nothing_brings_the_background() {
    let world = Wall { open_from: -100.0, mat: 0 };
    let materials = [Scripted { script: Script::Mirror, emits: [9.0, 9.0, 9.0] }];
    let background = keys([0.7, 0.8, 1.0]);
    for depth in [1u32, 2, 12] {
        let path = light_path(&start(), &background, &world, &materials, no_lights(), depth);
        assert!(path.bounces.is_empty());
        assert_eq!(path.end, background);
        let color =
            ray_color(&start(), &background, &world, &materials, no_lights(), depth, &shading());
        assert_eq!(color, background);
    }
    let odd = Vec3::new(12345, -67, INFINITY);
    assert_eq!(ray_color(&start(), &odd, &world, &materials, no_lights(), 3, &shading()), odd);
}

#[test]
fn surface_that_scatters_nothing_brings_what_it_emits() {
    let world = Wall { open_from: 100.0, mat: 0 };
    let materials = [Scripted { script: Script::Absorb, emits: [4.0, 5.0, 6.0] }];
    let background = keys([0.7, 0.8, 1.0]);
    let path = light_path(&start(), &background, &world, &materials, no_lights(), 5);
    assert!(path.bounces.is_empty());
    assert_eq!(path.end, keys([4.0, 5.0, 6.0]));
}

#[test]
fn material_that_says_nothing_neither_scatters_nor_emits() {
    let world = Wall { open_from: 100.0, mat: 0 };
    let materials = [Silent];
    let background = keys([0.7, 0.8, 1.0]);
    let path = light_path(&start(), &background, &world, &materials, no_lights(), 5);
    assert!(path.bounces.is_empty());
    assert_eq!(path.end, keys([0.0, 0.0, 0.0]));
    let rec = world.hit(&start(), SURFACE_OFFSET, INFINITY).unwrap();
    assert_eq!(Silent.scattering_pdf(&start(), &rec, &start()), key(0.0));
    assert!(Silent.scatter(&start(), &rec).is_none());
}

#[test]
fn hit_that_names_no_material_brings_no_light() {
    let world = Wall { open_from: 100.0, mat: 3 };
    let materials = [Scripted { script: Script::Unwritten, emits: [4.0, 5.0, 6.0] }];
    let background = keys([0.7, 0.8, 1.0]);
    let path = light_path(&start(), &background, &world, &materials, no_lights(), 5);
    assert!(path.bounces.is_empty());
    assert_eq!(path.end, keys([0.0, 0.0, 0.0]));
}

#[test]
fn mirror_path_runs_until_the_ray_leaves() {
    // Each bounce moves the ray on by one; from 3 on it hits nothing.
    let world = Wall { open_from: 3.0, mat: 0 };
    let materials = [Scripted { script: Script::Mirror, emits: [1.0, 0.0, 0.0] }];
    let background = keys([1.0, 1.0, 1.0]);
    let path = light_path(&start(), &background, &world, &materials, no_lights(), 12);
    assert_eq!(path.bounces.len(), 3);
    assert_eq!(path.end, background);
    for (k, bounce) in path.bounces.iter().enumerate() {
        match bounce {
            Bounce::Specular { emitted, attenuation, scattered } => {
                assert_eq!(*emitted, keys([1.0, 0.0, 0.0]));
                assert_eq!(*attenuation, keys([0.5, 0.25, 1.0]));
                assert_eq!(scattered.origin.x, key(k as f32 + 1.0));
                assert_eq!(scattered.time, key(0.5));
            }
            _ => panic!("a mirror bounces specularly"),
        }
    }
    // 1 + 0.5 (1 + 0.5 (1 + 0.5 * 1)) = 1.875; 0.25^3; 1.
    let color = radiance(&path, &shading());
    assert_eq!(color, keys([1.875, 0.015625, 1.0]));
}

#[test]
fn path_that_uses_up_its_bounces_ends_in_black() {
    let world = Wall { open_from: 100.0, mat: 0 };
    let materials = [Scripted { script: Script::Mirror, emits: [1.0, 0.0, 0.0] }];
    let background = keys([1.0, 1.0, 1.0]);
    let path = light_path(&start(), &background, &world, &materials, no_lights(), 2);
    assert_eq!(path.bounces.len(), 2);
    assert_eq!(path.end, keys([0.0, 0.0, 0.0]));
    // 1 + 0.5 (1 + 0.5 * 0) = 1.5
    let color = ray_color(&start(), &background, &world, &materials, no_lights(), 2, &shading());
    assert_eq!(color, keys([1.5, 0.0, 0.0]));
}

#[test]
fn diffuse_bounce_without_lights_divides_by_the_density_of_the_material() {
    let world = Wall { open_from: 1.0, mat: 0 };
    let materials = [Scripted { script: Script::Cloud, emits: [0.5, 0.0, 0.0] }];
    let background = keys([1.0, 2.0, 4.0]);
    let path = light_path(&start(), &background, &world, &materials, no_lights(), 12);
    assert_eq!(path.bounces.len(), 1);
    match path.bounces[0] {
        Bounce::Diffuse { emitted, attenuation, scattering_pdf, density, light_density, scattered } => {
            assert_eq!(emitted, keys([0.5, 0.0, 0.0]));
            assert_eq!(attenuation, keys([0.5, 0.5, 0.5]));
            assert_eq!(scattering_pdf, key(0.25));
            assert_eq!(density, key(0.5));
            assert_eq!(light_density, None);
            assert_eq!(scattered.origin, keys([1.0, 0.0, 0.0]));
            assert_eq!(scattered.direction, keys([0.0, 1.0, 0.0]));
            assert_eq!(scattered.time, key(0.5));
        }
        _ => panic!("a cloud bounces diffusely"),
    }
    // 0.5 + 0.25 * (0.5 * 1) / 0.5 = 0.75; 0.25 * (0.5 * 2) / 0.5 = 0.5; 0.25 * (0.5 * 4) / 0.5 = 1.
    assert_eq!(radiance(&path, &shading()), keys([0.75, 0.5, 1.0]));
}

#[test]
fn diffuse_bounce_with_lights_divides_by_the_mean_density() {
    let world = Wall { open_from: 1.0, mat: 0 };
    let lights = Wall { open_from: 0.0, mat: 0 };
    let materials = [Scripted { script: Script::Cloud, emits: [0.0, 0.0, 0.0] }];
    let background = keys([1.0, 2.0, 4.0]);
    let mut from_material = 0;
    let mut from_lights = 0;
    for _ in 0..200 {
        let path = light_path(&start(), &background, &world, &materials, Some(&lights), 12);
        assert_eq!(path.bounces.len(), 1);
        match path.bounces[0] {
            Bounce::Diffuse { density, light_density, scattered, .. } => {
                assert_eq!(density, key(0.5));
                assert_eq!(light_density, Some(key(0.125)));
                if scattered.direction == keys([0.0, 1.0, 0.0]) {
                    from_material += 1;
                } else {
                    assert_eq!(scattered.direction, keys([0.0, 0.0, 1.0]));
                    from_lights += 1;
                }
            }
            _ => panic!("a cloud bounces diffusely"),
        }
        // The mean density is 0.3125: 0.25 * (0.5 * 1) / 0.3125 = 0.4.
        assert_eq!(radiance(&path, &shading()), keys([0.4, 0.8, 1.6]));
    }
    assert!(from_material > 0);
    assert!(from_lights > 0);
}

#[test]
fn diffuse_bounce_without_a_density_leaves_along_the_normal() {
    let world = Wall { open_from: 1.0, mat: 0 };
    let materials = [Scripted { script: Script::Bare, emits: [0.0, 0.0, 0.0] }];
    let background = keys([1.0, 2.0, 4.0]);
    let path = light_path(&start(), &background, &world, &materials, no_lights(), 12);
    assert_eq!(path.bounces.len(), 1);
    match path.bounces[0] {
        Bounce::Diffuse { density, light_density, scattered, .. } => {
            assert_eq!(density, ONE);
            assert_eq!(light_density, None);
            assert_eq!(scattered.direction, keys([0.0, 1.0, 0.0]));
            assert_eq!(scattered.time, key(0.0));
        }
        _ => panic!("a bare surface bounces diffusely"),
    }
    assert_eq!(radiance(&path, &shading()), keys([0.25, 0.5, 1.0]));
}

#[test]
fn density_below_the_floor_counts_as_the_floor() {
    let bounce = Bounce::Diffuse {
        emitted: keys([0.0, 0.0, 0.0]),
        attenuation: keys([1.0, 1.0, 1.0]),
        scattering_pdf: key(1.0),
        density: key(0.0),
        light_density: None,
        scattered: start(),
    };
    let path = LightPath { bounces: vec![bounce], end: keys([1.0, 1.0, 1.0]) };
    let floor: f32 = 1e-5;
    let expected = 1.0 * (1.0 * 1.0) / floor;
    assert_eq!(radiance(&path, &shading()), keys([expected, expected, expected]));
    assert_eq!(bounce.scattered(), start());
}

#[test]
fn path_without_bounces_brings_its_end() {
    let path = LightPath { bounces: Vec::new(), end: Vec3::new(5, -6, 7) };
    assert_eq!(radiance(&path, &shading()), Vec3::new(5, -6, 7));
}

// A sphere and a flat block, with the arithmetic of a small renderer around them.

#[derive(Clone, Copy)]
enum Shape {
    Sphere { center: [f32; 3], radius: f32, mat: usize },
    Slab { y0: f32, y1: f32, half: f32, mat: usize },
}

fn sub(a: [f32; 3], b: [f32; 3]) -> [f32; 3] {
    [a[0] - b[0], a[1] - b[1], a[2] - b[2]]
}

fn dot(a: [f32; 3], b: [f32; 3]) -> f32 {
    a[0] * b[0] + a[1] * b[1] + a[2] * b[2]
}

fn at(origin: [f32; 3], direction: [f32; 3], t: f32) -> [f32; 3] {
    [origin[0] + t * direction[0], origin[1] + t * direction[1], origin[2] + t * direction[2]]
}

fn unit(v: [f32; 3]) -> [f32; 3] {
    let n = dot(v, v).sqrt();
    [v[0] / n, v[1] / n, v[2] / n]
}

fn cross(a: [f32; 3], b: [f32; 3]) -> [f32; 3] {
    [a[1] * b[2] - a[2] * b[1], a[2] * b[0] - a[0] * b[2], a[0] * b[1] - a[1] * b[0]]
}

fn around(w: [f32; 3], local: [f32; 3]) -> [f32; 3] {
    let w = unit(w);
    let helper = if w[0].abs() > 0.9 { [0.0, 1.0, 0.0] } else { [1.0, 0.0, 0.0] };
    let v = unit(cross(w, helper));
    let u = cross(w, v);
    [
        local[0] * u[0] + local[1] * v[0] + local[2] * w[0],
        local[0] * u[1] + local[1] * v[1] + local[2] * w[1],
        local[0] * u[2] + local[1] * v[2] + local[2] * w[2],
    ]
}

impl Shape {
    fn hit_values(&self, origin: [f32; 3], direction: [f32; 3], t_min: f32, t_max: f32) -> Option<(f32, [f32; 3], usize)> {
        match *self {
            Shape::Sphere { center, radius, mat } => {
                let oc = sub(origin, center);
                let a = dot(direction, direction);
                let b = dot(oc, direction);
                let c = dot(oc, oc) - radius * radius;
                let discriminant = b * b - a * c;
                if discriminant > 0.0 {
                    let sqrtd = discriminant.sqrt();
                    for root in [(-b - sqrtd) / a, (-b + sqrtd) / a] {
                        if t_min <= root && root <= t_max {
                            let p = at(origin, direction, root);
                            let n = sub(p, center);
                            return Some((root, [n[0] / radius, n[1] / radius, n[2] / radius], mat));
                        }
                    }
                }
                None
            }
            Shape::Slab { y0, y1, half, mat } => {
                let mut best: Option<(f32, [f32; 3], usize)> = None;
                for (y, normal) in [(y0, [0.0, -1.0, 0.0]), (y1, [0.0, 1.0, 0.0])] {
                    let t = (y - origin[1]) / direction[1];
                    if t >= t_min && t <= t_max {
                        let p = at(origin, direction, t);
                        if p[0].abs() <= half && p[2].abs() <= half {
                            if best.map_or(true, |found| t < found.0) {
                                best = Some((t, normal, mat));
                            }
                        }
                    }
                }
                best
            }
        }
    }
}

impl Hittable for Shape {
    fn spec_hit(&self, ray: Ray, t_min: i32, t_max: i32) -> Option<HitRecord> {
        self.hit(&ray, t_min, t_max)
    }

    fn spec_bounding_box(&self, time0: i32, time1: i32) -> Option<AABB> {
        self.bounding_box(time0, time1)
    }

    fn hit(&self, ray: &Ray, t_min: i32, t_max: i32) -> Option<HitRecord> {
        let origin = values(ray.origin);
        let direction = values(ray.direction);
        let (t, normal, mat) = self.hit_values(origin, direction, value(t_min), value(t_max))?;
        Some(HitRecord {
            p: keys(at(origin, direction, t)),
            normal: keys(normal),
            t: key(t),
            mat,
            u: 0,
            v: 0,
        })
    }

    fn bounding_box(&self, _time0: i32, _time1: i32) -> Option<AABB> {
        match *self {
            Shape::Sphere { center, radius, .. } => Some(AABB {
                min: keys([center[0] - radius, center[1] - radius, center[2] - radius]),
                max: keys([center[0] + radius, center[1] + radius, center[2] + radius]),
            }),
            Shape::Slab { y0, y1, half, .. } => {
                Some(AABB { min: keys([-half, y0, -half]), max: keys([half, y1, half]) })
            }
        }
    }

    fn pdf_value(&self, origin: Vec3, v: Vec3) -> i32 {
        match *self {
            Shape::Sphere { center, radius, .. } => {
                let from = values(origin);
                if self.hit_values(from, values(v), 0.0001, f32::INFINITY).is_none() {
                    return key(0.0);
                }
                let d = sub(center, from);
                let cos_theta_max = (1.0 - radius * radius / dot(d, d)).sqrt();
                key(1.0 / (2.0 * std::f32::consts::PI * (1.0 - cos_theta_max)))
            }
            _ => key(0.0),
        }
    }

    fn random(&self, origin: Vec3) -> Vec3 {
        match *self {
            Shape::Sphere { center, radius, .. } => {
                let d = sub(center, values(origin));
                let r1: f32 = rand::random();
                let r2: f32 = rand::random();
                let z = 1.0 + r2 * ((1.0 - radius * radius / dot(d, d)).sqrt() - 1.0);
                let phi = 2.0 * std::f32::consts::PI * r1;
                let s = (1.0 - z * z).max(0.0).sqrt();
                keys(around(d, [phi.cos() * s, phi.sin() * s, z]))
            }
            _ => keys([1.0, 0.0, 0.0]),
        }
    }
}

struct World {
    shapes: Vec<Shape>,
}

impl Hittable for World {
    fn spec_hit(&self, ray: Ray, t_min: i32, t_max: i32) -> Option<HitRecord> {
        self.hit(&ray, t_min, t_max)
    }

    fn spec_bounding_box(&self, time0: i32, time1: i32) -> Option<AABB> {
        self.bounding_box(time0, time1)
    }

    fn hit(&self, ray: &Ray, t_min: i32, t_max: i32) -> Option<HitRecord> {
        let mut best: Option<HitRecord> = None;
        for shape in self.shapes.iter() {
            if let Some(rec) = shape.hit(ray, t_min, t_max) {
                if best.map_or(true, |found| rec.t < found.t) {
                    best = Some(rec);
                }
            }
        }
        best
    }

    fn bounding_box(&self, _time0: i32, _time1: i32) -> Option<AABB> {
        None
    }
}

struct Cosine {
    normal: [f32; 3],
}

impl PDF for Cosine {
    fn value(&self, direction: Vec3) -> i32 {
        let cosine = dot(unit(values(direction)), unit(self.normal));
        key((cosine / std::f32::consts::PI).max(0.0))
    }

    fn generate(&self) -> Vec3 {
        let r1: f32 = rand::random();
        let r2: f32 = rand::random();
        let phi = 2.0 * std::f32::consts::PI * r1;
        let local = [phi.cos() * r2.sqrt(), phi.sin() * r2.sqrt(), (1.0 - r2).sqrt()];
        keys(around(self.normal, local))
    }
}

enum Paint {
    Matte { albedo: [f32; 3] },
    Lamp { emit: [f32; 3] },
}

impl Material for Paint {
    type Density = Cosine;

    fn scatter(&self, _r_in: &Ray, rec: &HitRecord) -> Option<Scatter<Cosine>> {
        match self {
            Paint::Matte { albedo } => Some(Scatter {
                specular_ray: None,
                attenuation: keys(*albedo),
                pdf: Some(Cosine { normal: values(rec.normal) }),
            }),
            Paint::Lamp { .. } => None,
        }
    }

    fn scattering_pdf(&self, _r_in: &Ray, rec: &HitRecord, scattered: &Ray) -> i32 {
        match self {
            Paint::Matte { .. } => {
                let cosine = dot(values(rec.normal), unit(values(scattered.direction)));
                key((cosine / std::f32::consts::PI).max(0.0))
            }
            Paint::Lamp { .. } => key(0.0),
        }
    }

    fn emitted(&self, r_in: &Ray, rec: &HitRecord, _u: i32, _v: i32, _p: &Vec3) -> Color {
        match self {
            Paint::Lamp { emit } if dot(values(r_in.direction), values(rec.normal)) < 0.0 => {
                keys(*emit)
            }
            _ => keys([0.0, 0.0, 0.0]),
        }
    }
}

fn brightness(world: &World, materials: &[Paint], lamp: &Shape, from: [f32; 3], towards: [f32; 3]) -> f32 {
    let background = keys([0.0, 0.0, 0.0]);
    let ray = Ray::new(keys(from), keys(sub(towards, from)), key(0.0));
    let mut sum = 0.0;
    for _ in 0..64 {
        let color = ray_color(&ray, &background, world, materials, Some(lamp), 8, &shading());
        let c = values(color);
        assert!(c[0].is_finite() && c[1].is_finite() && c[2].is_finite());
        assert!(c[0] >= 0.0 && c[1] >= 0.0 && c[2] >= 0.0);
        sum += c[0] + c[1] + c[2];
    }
    sum / 64.0
}

#[test]
fn side_that_faces_the_light_is_brighter_than_the_side_in_shadow() {
    let lamp = Shape::Sphere { center: [0.0, 5.0, 0.0], radius: 0.2, mat: 1 };
    let world = World {
        shapes: vec![
            Shape::Sphere { center: [0.0, 0.0, 0.0], radius: 1.0, mat: 0 },
            lamp,
            Shape::Slab { y0: -0.6, y1: -0.5, half: 20.0, mat: 0 },
        ],
    };
    let materials = [
        Paint::Matte { albedo: [0.9, 0.9, 0.9] },
        Paint::Lamp { emit: [15.0, 15.0, 15.0] },
    ];
    let facing = brightness(&world, &materials, &lamp, [0.5, 3.0, 0.25], [0.0, 1.0, 0.0]);
    let occluded = brightness(&world, &materials, &lamp, [0.5, -3.0, 0.25], [0.0, -1.0, 0.0]);
    assert!(facing > 0.0);
    assert!(facing > occluded);
}
