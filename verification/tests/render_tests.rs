use raytracer::render::pixel_target;
use raytracer::scene::SceneType;

#[test]
fn rows_are_stored_from_the_top() {
    assert_eq!(pixel_target(0, 0, 4, 3), (0, 2));
    assert_eq!(pixel_target(3, 0, 4, 3), (3, 2));
    assert_eq!(pixel_target(1, 1, 4, 3), (1, 1));
    assert_eq!(pixel_target(2, 2, 4, 3), (2, 0));
    assert_eq!(pixel_target(0, 0, 1, 1), (0, 0));
}

#[test]
fn no_two_pixels_share_a_place() {
    let (width, height) = (5u32, 4u32);
    let mut taken = vec![false; (width * height) as usize];
    for y in 0..height {
        for x in 0..width {
            let (column, row) = pixel_target(x, y, width, height);
            assert!(column < width && row < height);
            let place = (row * width + column) as usize;
            assert!(!taken[place]);
            taken[place] = true;
        }
    }
    assert!(taken.iter().all(|t| *t));
}

#[test]
fn scenes_are_told_apart() {
    assert_eq!(SceneType::CornellBox, SceneType::CornellBox);
    assert_ne!(SceneType::CornellBox, SceneType::CornellTriangle);
    assert_ne!(SceneType::Random, SceneType::FinalScene);
}
