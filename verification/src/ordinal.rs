//! Keys: integers that stand for single-precision values.
//!
//! The key of a value is its bit pattern read as sign and magnitude, so that
//! keys are ordered as the values are. Both zeros have the key 0. A value that
//! is not a number has no key.

use vstd::prelude::*;

verus! {

/// The key of positive infinity. The key of negative infinity is its negation.
pub const INFINITY: i32 = 0x7f80_0000;

/// The key of 1.
pub const ONE: i32 = 0x3f80_0000;

/// The key of the offset that keeps a ray from meeting again the surface it
/// leaves: a ten-thousandth.
pub const SURFACE_OFFSET: i32 = 0x38d1_b717;

/// The key of the least density that the estimator divides by: a
/// hundred-thousandth.
pub const DENSITY_FLOOR: i32 = 0x3727_c5ac;

/// `k` is the key of some value, infinities included.
pub open spec fn is_key(k: int) -> bool {
    -(INFINITY as int) <= k <= INFINITY as int
}


/// The key of the value with the opposite sign: the negated key. The least
/// integer of the machine, which is no key and has no negation, gives the
/// greatest.
pub open spec fn spec_negated(k: i32) -> i32 {
    if k == i32::MIN {
        i32::MAX
    } else {
        (-k) as i32
    }
}

/// The key of the value with the opposite sign.
pub fn negated(k: i32) -> (r: i32)
    ensures
        r == spec_negated(k),
        is_key(k as int) ==> is_key(r as int) && r == -k,
{
    if k == i32::MIN {
        i32::MAX
    } else {
        -k
    }
}

/// The density that the estimator divides by where a direction was drawn with
/// `density`: no less than the least density.
pub open spec fn spec_clamp_density(density: i32) -> i32 {
    if density >= DENSITY_FLOOR {
        density
    } else {
        DENSITY_FLOOR
    }
}

/// The density that the estimator divides by where a direction was drawn with
/// `density`.
pub fn clamp_density(density: i32) -> (r: i32)
    ensures
        r == spec_clamp_density(density),
{
    if density >= DENSITY_FLOOR {
        density
    } else {
        DENSITY_FLOOR
    }
}


/// The key of the value with the bit pattern `bits`; none where the pattern is
/// not a number.
pub open spec fn spec_key_of_bits(bits: u32) -> Option<i32> {
    let magnitude = if bits >= 0x8000_0000 {
        bits - 0x8000_0000
    } else {
        bits as int
    };
    if magnitude > INFINITY {
        None
    } else if bits >= 0x8000_0000 {
        Some((-magnitude) as i32)
    } else {
        Some(magnitude as i32)
    }
}

/// The bit pattern of the value with the key `key`; none where `key` is no
/// key. The key 0 gives the positive zero.
pub open spec fn spec_bits_of_key(key: i32) -> Option<u32> {
    if !is_key(key as int) {
        None
    } else if key >= 0 {
        Some(key as u32)
    } else {
        Some((0x8000_0000 - key) as u32)
    }
}

/// The key of the value with the bit pattern `bits`.
pub fn key_of_bits(bits: u32) -> (r: Option<i32>)
    ensures
        r == spec_key_of_bits(bits),
        r matches Some(k) ==> is_key(k as int),
{
    if bits >= 0x8000_0000 {
        let magnitude = bits - 0x8000_0000;
        if magnitude > 0x7f80_0000 {
            None
        } else {
            Some(-(magnitude as i32))
        }
    } else if bits > 0x7f80_0000 {
        None
    } else {
        Some(bits as i32)
    }
}

/// The bit pattern of the value with the key `key`.
pub fn bits_of_key(key: i32) -> (r: Option<u32>)
    ensures
        r == spec_bits_of_key(key),
{
    if key > INFINITY || key < -INFINITY {
        None
    } else if key >= 0 {
        Some(key as u32)
    } else {
        Some(0x8000_0000 + ((-key) as u32))
    }
}

/// A key gives a bit pattern that gives the key back.
pub proof fn lemma_key_round_trip(key: i32)
    requires
        is_key(key as int),
    ensures
        spec_bits_of_key(key) matches Some(bits) && spec_key_of_bits(bits) == Some(key),
{
}

/// A bit pattern of a number gives a key that gives the pattern back, but for
/// the negative zero, which gives the positive one.
pub proof fn lemma_bits_round_trip(bits: u32)
    requires
        spec_key_of_bits(bits) is Some,
    ensures
        spec_bits_of_key(spec_key_of_bits(bits).unwrap()) == Some(
            if bits == 0x8000_0000 {
                0u32
            } else {
                bits
            },
        ),
{
}

/// Of two patterns of numbers with the same sign, the one with the greater
/// magnitude has the key further from zero; a pattern with the sign bit set
/// never has the greater key.
pub proof fn lemma_keys_follow_sign_and_magnitude(a: u32, b: u32)
    requires
        spec_key_of_bits(a) is Some,
        spec_key_of_bits(b) is Some,
    ensures
        a < 0x8000_0000 && b < 0x8000_0000 ==> (spec_key_of_bits(a).unwrap() <= spec_key_of_bits(
            b,
        ).unwrap() <==> a <= b),
        a >= 0x8000_0000 && b >= 0x8000_0000 ==> (spec_key_of_bits(a).unwrap() <= spec_key_of_bits(
            b,
        ).unwrap() <==> a >= b),
        a >= 0x8000_0000 && b < 0x8000_0000 ==> spec_key_of_bits(a).unwrap() <= spec_key_of_bits(
            b,
        ).unwrap(),
{
}


/// The bit pattern is that of a finite number: neither an infinity nor
/// something that is not a number.
pub open spec fn is_finite_bits(bits: u32) -> bool {
    if bits >= 0x8000_0000 {
        bits - 0x8000_0000 < INFINITY
    } else {
        bits < INFINITY
    }
}

/// What goes to the output in place of a value: the value where it is finite,
/// and zero where it is not.
pub fn finite_or_zero(bits: u32) -> (r: u32)
    ensures
        r == if is_finite_bits(bits) {
            bits
        } else {
            0
        },
        is_finite_bits(r),
{
    let magnitude = if bits >= 0x8000_0000 {
        bits - 0x8000_0000
    } else {
        bits
    };
    if magnitude < 0x7f80_0000 {
        bits
    } else {
        0
    }
}

} // verus!
