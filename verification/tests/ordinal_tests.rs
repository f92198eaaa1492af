use raytracer::ordinal::{
    bits_of_key, clamp_density, finite_or_zero, key_of_bits, negated, DENSITY_FLOOR, INFINITY,
    ONE, SURFACE_OFFSET,
};

fn key(x: f32) -> i32 {
    key_of_bits(x.to_bits()).unwrap()
}

fn value(k: i32) -> f32 {
    f32::from_bits(bits_of_key(k).unwrap())
}

#[test]
fn keys_are_ordered_as_the_values_are() {
    let values = [
        f32::NEG_INFINITY,
        f32::MIN,
        -1000.5,
        -1.0,
        -1e-4,
        -f32::MIN_POSITIVE,
        -1e-45,
        0.0,
        1e-45,
        f32::MIN_POSITIVE,
        1e-5,
        1e-4,
        0.999,
        1.0,
        3.25,
        554.0,
        f32::MAX,
        f32::INFINITY,
    ];
    for a in values.iter() {
        for b in values.iter() {
            assert_eq!(a < b, key(*a) < key(*b));
            assert_eq!(a == b, key(*a) == key(*b));
        }
    }
}

#[test]
fn both_zeros_have_the_key_zero() {
    assert_eq!(key(0.0), 0);
    assert_eq!(key(-0.0), 0);
    assert_eq!(bits_of_key(0), Some(0));
}

#[test]
fn what_is_not_a_number_has_no_key() {
    assert_eq!(key_of_bits(f32::NAN.to_bits()), None);
    assert_eq!(key_of_bits(0x7f80_0001), None);
    assert_eq!(key_of_bits(0xffff_ffff), None);
    assert_eq!(key_of_bits(0xff80_0001), None);
}

#[test]
fn named_keys_are_the_keys_of_their_values() {
    assert_eq!(INFINITY, key(f32::INFINITY));
    assert_eq!(-INFINITY, key(f32::NEG_INFINITY));
    assert_eq!(ONE, key(1.0));
    assert_eq!(SURFACE_OFFSET, key(0.0001));
    assert_eq!(DENSITY_FLOOR, key(1e-5));
}

#[test]
fn a_key_gives_back_its_value() {
    for x in [-554.0f32, -1.0, -1e-30, 0.0, 1e-5, 0.5, 1.0, 1e30] {
        assert_eq!(value(key(x)), x);
    }
    assert_eq!(value(INFINITY), f32::INFINITY);
    assert_eq!(value(-INFINITY), f32::NEG_INFINITY);
}

#[test]
fn an_integer_beyond_the_infinities_is_no_key() {
    assert_eq!(bits_of_key(INFINITY + 1), None);
    assert_eq!(bits_of_key(-INFINITY - 1), None);
    assert_eq!(bits_of_key(i32::MAX), None);
    assert_eq!(bits_of_key(i32::MIN), None);
    assert_eq!(bits_of_key(-1), Some(0x8000_0001));
    assert_eq!(bits_of_key(1), Some(1));
}

#[test]
fn negating_a_key_negates_the_value() {
    for x in [0.25f32, 1.0, 3.5, 1e-7, 1e20, 0.0, -2.5, f32::INFINITY, f32::NEG_INFINITY] {
        assert_eq!(-key(x), key(-x));
        assert_eq!(negated(key(x)), key(-x));
        assert_eq!(value(negated(key(x))), -x);
    }
}

#[test]
fn the_least_integer_negates_to_the_greatest() {
    assert_eq!(negated(i32::MIN), i32::MAX);
    assert_eq!(negated(i32::MAX), -i32::MAX);
    assert_eq!(negated(-i32::MAX), i32::MAX);
    assert_eq!(negated(0), 0);
}

#[test]
fn a_density_below_the_floor_is_raised_to_it() {
    assert_eq!(clamp_density(key(0.0)), key(1e-5));
    assert_eq!(clamp_density(key(-3.0)), key(1e-5));
    assert_eq!(clamp_density(key(1e-6)), key(1e-5));
    assert_eq!(clamp_density(key(1e-5)), key(1e-5));
    assert_eq!(clamp_density(key(0.3)), key(0.3));
    assert_eq!(clamp_density(key(f32::INFINITY)), key(f32::INFINITY));
}

#[test]
fn what_is_not_finite_goes_out_as_zero() {
    assert_eq!(finite_or_zero(f32::NAN.to_bits()), 0);
    assert_eq!(finite_or_zero(f32::INFINITY.to_bits()), 0);
    assert_eq!(finite_or_zero(f32::NEG_INFINITY.to_bits()), 0);
    assert_eq!(finite_or_zero(0.75f32.to_bits()), 0.75f32.to_bits());
    assert_eq!(finite_or_zero((-2.0f32).to_bits()), (-2.0f32).to_bits());
    assert_eq!(finite_or_zero(f32::MAX.to_bits()), f32::MAX.to_bits());
}
