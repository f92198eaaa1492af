use raytracer::perlin::{generate_perm, Perlin};

#[test]
fn rearrangement_holds_every_number_once() {
    for n in [0usize, 1, 2, 7, 256] {
        let mut p = generate_perm(n);
        assert_eq!(p.len(), n);
        p.sort();
        assert_eq!(p, (0..n).collect::<Vec<usize>>());
    }
}

#[test]
fn rearrangements_differ_from_one_draw_to_the_next() {
    let first = generate_perm(256);
    let mut differs = false;
    for _ in 0..8 {
        if generate_perm(256) != first {
            differs = true;
        }
    }
    assert!(differs);
}

#[test]
fn lattice_takes_a_power_of_two_of_vectors() {
    assert!(Perlin::new(vec![0u8; 1]).is_some());
    assert!(Perlin::new(vec![0u8; 2]).is_some());
    assert!(Perlin::new(vec![0u8; 256]).is_some());
    assert!(Perlin::new(Vec::<u8>::new()).is_none());
    assert!(Perlin::new(vec![0u8; 3]).is_none());
    assert!(Perlin::new(vec![0u8; 255]).is_none());
    assert!(Perlin::new(vec![0u8; 257]).is_none());
}

#[test]
fn lattice_points_that_differ_by_its_length_share_a_vector() {
    let table: Vec<usize> = (0..256).collect();
    let lattice = Perlin::new(table).unwrap();
    for (i, j, k) in [(0, 0, 0), (1, 2, 3), (-1, -2, -3), (255, 256, 257), (i32::MAX, i32::MIN, -77)] {
        let here = *lattice.corner(i, j, k);
        assert!(here < 256);
        assert_eq!(*lattice.corner(i.wrapping_add(256), j, k), here);
        assert_eq!(*lattice.corner(i, j.wrapping_sub(512), k), here);
        assert_eq!(*lattice.corner(i, j, k.wrapping_add(256 * 7)), here);
    }
}

#[test]
fn every_vector_of_the_lattice_is_reached() {
    let table: Vec<usize> = (0..16).collect();
    let lattice = Perlin::new(table).unwrap();
    let mut seen = [false; 16];
    for i in 0..16 {
        seen[*lattice.corner(i, 0, 0)] = true;
    }
    // With the other two coordinates fixed, the first runs through a
    // rearrangement combined with a fixed number.
    assert!(seen.iter().all(|s| *s));
    let single = Perlin::new(vec![42u32]).unwrap();
    assert_eq!(*single.corner(5, -9, 1000), 42);
}
