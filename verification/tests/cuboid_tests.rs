use raytracer::aabb::AABB;
use raytracer::cuboid::{AARect, Cuboid, Plane};
use raytracer::vec3::Vec3;

#[test]
fn box_has_two_sides_in_each_plane() {
    let shape = Cuboid::new(Vec3::new(1, 2, 3), Vec3::new(10, 20, 30), 7);
    let side = |plane, a0, a1, b0, b1, k| AARect { plane, a0, a1, b0, b1, k, material: 7 };
    assert_eq!(
        shape.sides,
        vec![
            side(Plane::XY, 1, 10, 2, 20, 30),
            side(Plane::XY, 1, 10, 2, 20, 3),
            side(Plane::XZ, 1, 10, 3, 30, 20),
            side(Plane::XZ, 1, 10, 3, 30, 2),
            side(Plane::YZ, 2, 20, 3, 30, 10),
            side(Plane::YZ, 2, 20, 3, 30, 1),
        ]
    );
    assert_eq!(shape.min, Vec3::new(1, 2, 3));
    assert_eq!(shape.max, Vec3::new(10, 20, 30));
}

#[test]
fn box_is_its_own_bounding_box() {
    let shape = Cuboid::new(Vec3::new(-1, -2, -3), Vec3::new(4, 5, 6), 0);
    let expected = AABB { min: Vec3::new(-1, -2, -3), max: Vec3::new(4, 5, 6) };
    assert_eq!(shape.bounding_box(0, 0), Some(expected));
    assert_eq!(shape.bounding_box(5, 9), Some(expected));
}

#[test]
fn rectangles_are_named_by_their_plane() {
    let xy = AARect::xy(1, 2, 3, 4, 5, 6);
    assert_eq!(xy, AARect { plane: Plane::XY, a0: 1, a1: 2, b0: 3, b1: 4, k: 5, material: 6 });
    assert_eq!(xy.corners(), (Vec3::new(1, 3, 5), Vec3::new(2, 4, 5)));
    let xz = AARect::xz(1, 2, 3, 4, 5, 6);
    assert_eq!(xz, AARect { plane: Plane::XZ, a0: 1, a1: 2, b0: 3, b1: 4, k: 5, material: 6 });
    assert_eq!(xz.corners(), (Vec3::new(1, 5, 3), Vec3::new(2, 5, 4)));
    let yz = AARect::yz(1, 2, 3, 4, 5, 6);
    assert_eq!(yz, AARect { plane: Plane::YZ, a0: 1, a1: 2, b0: 3, b1: 4, k: 5, material: 6 });
    assert_eq!(yz.corners(), (Vec3::new(5, 1, 3), Vec3::new(5, 2, 4)));
}

#[test]
fn sides_of_a_box_lie_on_its_faces() {
    let (min, max) = (Vec3::new(-5, 0, 2), Vec3::new(5, 1, 8));
    let shape = Cuboid::new(min, max, 3);
    for side in shape.sides.iter() {
        let (least, greatest) = side.corners();
        assert!(min.x <= least.x && greatest.x <= max.x);
        assert!(min.y <= least.y && greatest.y <= max.y);
        assert!(min.z <= least.z && greatest.z <= max.z);
        assert_eq!(side.material, 3);
    }
}
