//! Binary64 values held as their bit patterns, and the order of the reals on them.
use vstd::prelude::*;

verus! {

/// Bit pattern of positive infinity.
pub const POS_INFINITY: u64 = 0x7ff0_0000_0000_0000;

/// Bit pattern of negative infinity.
pub const NEG_INFINITY: u64 = 0xfff0_0000_0000_0000;

/// The sign bit.
pub const SIGN_BIT: u64 = 0x8000_0000_0000_0000;

/// Exponent and fraction: everything but the sign.
pub const MAGNITUDE_MASK: u64 = 0x7fff_ffff_ffff_ffff;

/// A NaN has all exponent bits set and a non-zero fraction.
pub open spec fn is_nan(b: u64) -> bool {
    b & MAGNITUDE_MASK > POS_INFINITY
}

/// The position of a non-NaN value on the real line, as an integer.
///
/// For binary64, the magnitude bits grow with the absolute value, so the
/// magnitude, negated for negative values, orders the values as the reals do.
/// Both zeros get the key 0, as they compare equal.
pub open spec fn order_key(b: u64) -> int {
    if b & SIGN_BIT == 0 {
        (b & MAGNITUDE_MASK) as int
    } else {
        -((b & MAGNITUDE_MASK) as int)
    }
}

/// `a <= b` as reals.
pub open spec fn le(a: u64, b: u64) -> bool {
    order_key(a) <= order_key(b)
}

/// Whether the value is a NaN.
pub fn is_nan_bits(b: u64) -> (r: bool)
    ensures
        r == is_nan(b),
{
    b & MAGNITUDE_MASK > POS_INFINITY
}

fn key(b: u64) -> (r: i128)
    ensures
        r == order_key(b),
{
    if b & SIGN_BIT == 0 {
        (b & MAGNITUDE_MASK) as i128
    } else {
        -((b & MAGNITUDE_MASK) as i128)
    }
}

/// The smaller of two values, ignoring a NaN, as `f64::min` does.
///
/// Where both are equal as reals (the two zeros) either may come back.
pub fn min_bits(a: u64, b: u64) -> (r: u64)
    ensures
        is_nan(a) ==> r == b,
        is_nan(b) && !is_nan(a) ==> r == a,
        !is_nan(a) && !is_nan(b) ==> (r == a || r == b) && le(r, a) && le(r, b),
{
    if is_nan_bits(a) {
        b
    } else if is_nan_bits(b) {
        a
    } else if key(b) < key(a) {
        b
    } else {
        a
    }
}

/// The larger of two values, ignoring a NaN, as `f64::max` does.
///
/// Where both are equal as reals (the two zeros) either may come back.
pub fn max_bits(a: u64, b: u64) -> (r: u64)
    ensures
        is_nan(a) ==> r == b,
        is_nan(b) && !is_nan(a) ==> r == a,
        !is_nan(a) && !is_nan(b) ==> (r == a || r == b) && le(a, r) && le(b, r),
{
    if is_nan_bits(a) {
        b
    } else if is_nan_bits(b) {
        a
    } else if key(a) < key(b) {
        b
    } else {
        a
    }
}

/// Neither infinity is a NaN.
pub proof fn lemma_infinities_not_nan()
    ensures
        !is_nan(POS_INFINITY),
        !is_nan(NEG_INFINITY),
        order_key(POS_INFINITY) == 0x7ff0_0000_0000_0000,
        order_key(NEG_INFINITY) == -0x7ff0_0000_0000_0000,
{
    assert(POS_INFINITY & MAGNITUDE_MASK == 0x7ff0_0000_0000_0000u64) by (bit_vector);
    assert(NEG_INFINITY & MAGNITUDE_MASK == 0x7ff0_0000_0000_0000u64) by (bit_vector);
    assert(POS_INFINITY & SIGN_BIT == 0u64) by (bit_vector);
    assert(NEG_INFINITY & SIGN_BIT != 0u64) by (bit_vector);
}

} // verus!
