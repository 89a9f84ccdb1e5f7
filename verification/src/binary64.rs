//! Doses and volumes as IEEE 754 double-precision numbers, held by their bit
//! patterns.
//!
//! A histogram compares its values and never computes with them, and the
//! ordering of double-precision numbers can be read off their bit patterns:
//! among the patterns of numbers that are zero or above, the larger pattern is
//! the larger number. Every quantity in this crate is therefore a `u64` that
//! holds the sixty-four bits of a double, sign bit first, as `to_bits` gives
//! them and `from_bits` takes them.
//!
//! The patterns fall into three classes: those that are not a number
//! ([`is_nan`]), those of numbers strictly below zero ([`is_negative`]), and
//! the rest, the measures ([`is_measure`]): both zeros, the positive finite
//! numbers and positive infinity.

use vstd::prelude::*;

verus! {

/// The sign bit. Alone it is the pattern of negative zero.
pub const SIGN_BIT: u64 = 0x8000_0000_0000_0000;

/// The pattern of positive infinity, the largest magnitude that is a number.
pub const INFINITY: u64 = 0x7FF0_0000_0000_0000;

/// The pattern of the number one.
pub const ONE: u64 = 0x3FF0_0000_0000_0000;

/// The pattern with its sign bit cleared: the pattern of the absolute value.
///
/// Two measures compare as their magnitudes do; negative and positive zero
/// both have magnitude zero and so compare equal.
pub open spec fn magnitude(bits: u64) -> u64 {
    if bits >= SIGN_BIT {
        (bits - SIGN_BIT) as u64
    } else {
        bits
    }
}

/// The pattern does not encode a number.
pub open spec fn is_nan(bits: u64) -> bool {
    magnitude(bits) > INFINITY
}

/// The pattern encodes a number strictly below zero. Negative zero is not
/// below zero.
pub open spec fn is_negative(bits: u64) -> bool {
    bits > SIGN_BIT && !is_nan(bits)
}

/// The pattern encodes a number that is zero or above.
pub open spec fn is_measure(bits: u64) -> bool {
    !is_nan(bits) && !is_negative(bits)
}

/// The pattern encodes a number in the closed interval from zero to one.
pub open spec fn is_fraction(bits: u64) -> bool {
    is_measure(bits) && magnitude(bits) <= ONE
}

/// Computes [`magnitude`].
pub fn magnitude_of(bits: u64) -> (m: u64)
    ensures
        m == magnitude(bits),
{
    if bits >= SIGN_BIT {
        bits - SIGN_BIT
    } else {
        bits
    }
}

/// Decides [`is_nan`].
pub fn check_nan(bits: u64) -> (r: bool)
    ensures
        r == is_nan(bits),
{
    magnitude_of(bits) > INFINITY
}

/// Decides [`is_negative`].
pub fn check_negative(bits: u64) -> (r: bool)
    ensures
        r == is_negative(bits),
{
    bits > SIGN_BIT && !check_nan(bits)
}

/// Decides [`is_measure`].
pub fn check_measure(bits: u64) -> (r: bool)
    ensures
        r == is_measure(bits),
{
    !check_nan(bits) && !check_negative(bits)
}

/// Decides [`is_fraction`].
pub fn check_fraction(bits: u64) -> (r: bool)
    ensures
        r == is_fraction(bits),
{
    check_measure(bits) && magnitude_of(bits) <= ONE
}

} // verus!
