//! Ordering of costs given as the bit patterns of IEEE-754 doubles.
//!
//! A cost is carried as the `u64` that `f64::to_bits` returns. The order
//! here is the order of `<` on doubles: a NaN compares below nothing and
//! nothing compares below it, and the two zeros are equal.
use vstd::prelude::*;

verus! {

/// The sign bit of a double.
pub const SIGN_BIT: u64 = 0x8000_0000_0000_0000;

/// The largest magnitude that is not a NaN (the bits of infinity).
pub const INFINITY_BITS: u64 = 0x7ff0_0000_0000_0000;

/// Whether the sign bit is set.
pub open spec fn is_negative(b: u64) -> bool {
    b >= SIGN_BIT
}

/// The bits without the sign: exponent and mantissa.
pub open spec fn magnitude(b: u64) -> u64 {
    if is_negative(b) {
        (b - SIGN_BIT) as u64
    } else {
        b
    }
}

/// Whether the bits encode a NaN: all exponent bits set, mantissa non-zero.
pub open spec fn is_nan(b: u64) -> bool {
    magnitude(b) > INFINITY_BITS
}

/// The position of a non-NaN double on the number line, up to scale:
/// for two doubles, `x < y` exactly when `rank(x) < rank(y)`.
/// Both zeros have rank 0.
pub open spec fn rank(b: u64) -> int {
    if is_negative(b) {
        -(magnitude(b) as int)
    } else {
        magnitude(b) as int
    }
}

/// `x < y` on doubles, over their bits.
pub open spec fn cost_lt(a: u64, b: u64) -> bool {
    !is_nan(a) && !is_nan(b) && rank(a) < rank(b)
}

/// Compares two costs as doubles: `true` when `a < b`.
pub fn cost_less(a: u64, b: u64) -> (r: bool)
    ensures
        r == cost_lt(a, b),
{
    let ma: u64 = if a >= SIGN_BIT { a - SIGN_BIT } else { a };
    let mb: u64 = if b >= SIGN_BIT { b - SIGN_BIT } else { b };
    if ma > INFINITY_BITS || mb > INFINITY_BITS {
        return false;
    }
    let na = a >= SIGN_BIT;
    let nb = b >= SIGN_BIT;
    if !na && !nb {
        ma < mb
    } else if na && nb {
        ma > mb
    } else if na {
        !(ma == 0 && mb == 0)
    } else {
        false
    }
}

} // verus!
