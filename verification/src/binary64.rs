//! Ordering of IEEE-754 binary64 values given by their bit patterns.
//!
//! Health and quality scores are binary64 numbers. The library holds them as
//! their bit patterns (`u64`) and compares them here, with the comparison
//! semantics of IEEE-754: NaN is unordered, and -0 equals +0.
use vstd::prelude::*;

verus! {

/// Bit pattern of 0.0.
pub const ZERO_BITS: u64 = 0x0000_0000_0000_0000u64;

/// Bit pattern of 0.2.
pub const ONE_FIFTH_BITS: u64 = 0x3FC9_9999_9999_999Au64;

/// Bit pattern of 0.5.
pub const ONE_HALF_BITS: u64 = 0x3FE0_0000_0000_0000u64;

/// Bit pattern of 0.8.
pub const FOUR_FIFTHS_BITS: u64 = 0x3FE9_9999_9999_999Au64;

/// Bit pattern of 1.0.
pub const ONE_BITS: u64 = 0x3FF0_0000_0000_0000u64;

/// The sign bit.
pub open spec fn sign_bit_set(b: u64) -> bool {
    b >= 0x8000_0000_0000_0000u64
}

/// The bit pattern without its sign bit (exponent and fraction).
pub open spec fn magnitude(b: u64) -> int {
    if sign_bit_set(b) {
        b - 0x8000_0000_0000_0000u64
    } else {
        b as int
    }
}

/// NaN: all exponent bits set and a nonzero fraction.
pub open spec fn is_nan(b: u64) -> bool {
    magnitude(b) > 0x7FF0_0000_0000_0000u64
}

/// For values that are not NaN, an integer that orders them as the numbers
/// they encode are ordered (both zeros map to 0). Within one sign, binary64
/// bit patterns grow with the magnitude of the number they encode.
pub open spec fn order_key(b: u64) -> int {
    if sign_bit_set(b) {
        -magnitude(b)
    } else {
        magnitude(b)
    }
}

/// `a < b` on the binary64 numbers with these bit patterns.
pub open spec fn lt(a: u64, b: u64) -> bool {
    !is_nan(a) && !is_nan(b) && order_key(a) < order_key(b)
}

/// Decides `a < b` on the binary64 numbers with these bit patterns.
pub fn less_than(a: u64, b: u64) -> (r: bool)
    ensures
        r == lt(a, b),
{
    let sign: u64 = 0x8000_0000_0000_0000u64;
    let ma: u64 = if a >= sign { a - sign } else { a };
    let mb: u64 = if b >= sign { b - sign } else { b };
    let inf: u64 = 0x7FF0_0000_0000_0000u64;
    if ma > inf || mb > inf {
        false
    } else if a >= sign {
        if b >= sign {
            mb < ma
        } else {
            ma != 0 || mb != 0
        }
    } else {
        if b >= sign {
            false
        } else {
            ma < mb
        }
    }
}

/// `x.clamp(0.0, 1.0)` on the binary64 number with bit pattern `x`: NaN and
/// values inside the interval (-0 included) are kept.
pub open spec fn clamp_unit(x: u64) -> u64 {
    if lt(x, ZERO_BITS) {
        ZERO_BITS
    } else if lt(ONE_BITS, x) {
        ONE_BITS
    } else {
        x
    }
}

/// Clamps the binary64 number with bit pattern `x` to the interval [0, 1].
pub fn clamp_to_unit(x: u64) -> (r: u64)
    ensures
        r == clamp_unit(x),
{
    if less_than(x, ZERO_BITS) {
        ZERO_BITS
    } else if less_than(ONE_BITS, x) {
        ONE_BITS
    } else {
        x
    }
}

/// `<` is a strict order on bit patterns: irreflexive and transitive, and
/// any two values that are not NaN are comparable or order-equal.
pub proof fn lemma_lt_strict_order(a: u64, b: u64, c: u64)
    ensures
        !lt(a, a),
        lt(a, b) && lt(b, c) ==> lt(a, c),
        lt(a, b) ==> !lt(b, a),
        !is_nan(a) && !is_nan(b) ==> (lt(a, b) || lt(b, a) || order_key(a) == order_key(b)),
{
}

} // verus!
