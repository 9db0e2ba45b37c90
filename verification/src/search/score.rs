//! The order of `f32` scores, held by their IEEE-754 bit patterns.
use vstd::prelude::*;

verus! {

/// The bits with the sign bit cleared.
pub open spec fn magnitude(b: u32) -> int {
    (b as int) % 0x8000_0000
}

/// Whether the bits encode a NaN: all exponent bits set and a non-zero fraction.
pub open spec fn is_nan(b: u32) -> bool {
    magnitude(b) > 0x7F80_0000
}

/// An integer that orders non-NaN `f32` values as IEEE-754 does (`-0.0` and `+0.0` equal).
pub open spec fn order_key(b: u32) -> int {
    if b >= 0x8000_0000 {
        -magnitude(b)
    } else {
        magnitude(b)
    }
}

/// IEEE-754 `a > b`: false whenever either is NaN.
pub open spec fn score_gt(a: u32, b: u32) -> bool {
    !is_nan(a) && !is_nan(b) && order_key(a) > order_key(b)
}

/// Whether the `f32` with bits `b` is NaN.
pub fn score_is_nan(b: u32) -> (r: bool)
    ensures
        r == is_nan(b),
{
    b % 0x8000_0000 > 0x7F80_0000
}

/// `f32` comparison `a > b` on bit patterns.
pub fn score_greater(a: u32, b: u32) -> (r: bool)
    ensures
        r == score_gt(a, b),
{
    if score_is_nan(a) || score_is_nan(b) {
        return false;
    }
    let ma = a % 0x8000_0000;
    let mb = b % 0x8000_0000;
    let na = a >= 0x8000_0000;
    let nb = b >= 0x8000_0000;
    if !na && !nb {
        ma > mb
    } else if na && nb {
        ma < mb
    } else if !na && nb {
        !(ma == 0 && mb == 0)
    } else {
        false
    }
}

/// Whether the key of `a` is at least that of `b` (used for non-NaN scores only).
pub fn key_at_least(a: u32, b: u32) -> (r: bool)
    ensures
        r == (order_key(a) >= order_key(b)),
{
    let ma = a % 0x8000_0000;
    let mb = b % 0x8000_0000;
    let na = a >= 0x8000_0000;
    let nb = b >= 0x8000_0000;
    if !na && !nb {
        ma >= mb
    } else if na && nb {
        ma <= mb
    } else if !na && nb {
        true
    } else {
        ma == 0 && mb == 0
    }
}

} // verus!
