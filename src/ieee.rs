//! Single-precision IEEE-754 quantities (the similarity threshold, the poll
//! interval) held by their bit patterns. Among non-negative values, from +0
//! up to +infinity (patterns `0` to `0x7F80_0000`), the order of the values is
//! the order of their patterns, so the library compares such quantities as
//! plain `u32`s.
use vstd::prelude::*;

verus! {

/// The pattern of `1.0`.
pub const ONE_BITS: u32 = 0x3F80_0000;

/// The pattern of `+infinity`; patterns above it, below the sign bit, are NaNs.
pub const INFINITY_BITS: u32 = 0x7F80_0000;

/// A pattern of a value in `[0, 1]` (of `-0.0` the library keeps `+0`).
pub open spec fn is_unit(b: u32) -> bool {
    b <= ONE_BITS
}

/// `x.max(0.0).min(1.0)` on the value `x` of pattern `b`: NaNs and negative
/// values give `0`, values above `1` give `1`.
pub open spec fn clamp_unit_spec(b: u32) -> u32 {
    if b <= ONE_BITS {
        b
    } else if b <= INFINITY_BITS {
        ONE_BITS
    } else {
        0
    }
}

/// `x.max(1.0)` on the value `x` of pattern `b`: NaNs, negative values and
/// values below `1` give `1`.
pub open spec fn at_least_one_spec(b: u32) -> u32 {
    if ONE_BITS <= b && b <= INFINITY_BITS {
        b
    } else {
        ONE_BITS
    }
}

/// Clamps the value of pattern `b` into `[0, 1]`.
pub fn clamp_unit(b: u32) -> (r: u32)
    ensures
        r == clamp_unit_spec(b),
        is_unit(r),
{
    if b <= ONE_BITS {
        b
    } else if b <= INFINITY_BITS {
        ONE_BITS
    } else {
        0
    }
}

/// Raises the value of pattern `b` to at least `1`.
pub fn at_least_one(b: u32) -> (r: u32)
    ensures
        r == at_least_one_spec(b),
        ONE_BITS <= r <= INFINITY_BITS,
{
    if ONE_BITS <= b && b <= INFINITY_BITS {
        b
    } else {
        ONE_BITS
    }
}

} // verus!
