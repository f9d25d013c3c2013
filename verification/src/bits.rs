//! IEEE-754 single-precision values held as their bit patterns.
//!
//! The format stores every real number as a little-endian `f32`. The
//! library keeps the 32-bit pattern itself, which preserves every value
//! (NaN payloads included) through a read/write round trip, and answers the
//! few questions the format logic asks of a value from its sign, exponent
//! and fraction fields.

use vstd::prelude::*;

verus! {

/// Bit pattern of the quiet NaN that marks an unused value (`f32::NAN`).
pub const NAN_BITS: u32 = 0x7FC0_0000;

/// Some producers write the "unknown" NaN with its bytes swapped
/// (`7F 80 00 01` on disk), which reads as this tiny positive number.
/// Flux totals and wavelength bounds holding exactly this pattern are
/// reported as unknown.
pub const SWAPPED_UNKNOWN_BITS: u32 = 0x0100_807F;

/// Sign bit (1 for negative values, negative zero and negative NaNs).
pub open spec fn sign(b: u32) -> int {
    b as int / 0x8000_0000
}

/// Biased exponent field.
pub open spec fn exponent(b: u32) -> int {
    (b as int / 0x80_0000) % 0x100
}

/// Fraction (mantissa without the implicit bit).
pub open spec fn fraction(b: u32) -> int {
    b as int % 0x80_0000
}

/// Magnitude bits: the pattern with the sign cleared.
pub open spec fn magnitude(b: u32) -> int {
    b as int % 0x8000_0000
}

/// The value is a NaN.
pub open spec fn is_nan(b: u32) -> bool {
    exponent(b) == 0xFF && fraction(b) != 0
}

/// `v.is_nan() || v <= 0.0` for the value `v` with pattern `b`.
pub open spec fn nan_or_not_positive(b: u32) -> bool {
    is_nan(b) || sign(b) == 1 || magnitude(b) == 0
}

/// `v.is_nan() || v < 0.0` for the value `v` with pattern `b`.
pub open spec fn nan_or_negative(b: u32) -> bool {
    is_nan(b) || (sign(b) == 1 && magnitude(b) != 0)
}

/// Position of a non-NaN value on the real line (both zeros at 0): larger
/// values have larger keys.
pub open spec fn order_key(b: u32) -> int {
    if sign(b) == 1 {
        -magnitude(b)
    } else {
        magnitude(b)
    }
}

/// `a >= b` for the values with patterns `a` and `b` (false when either is
/// NaN).
pub open spec fn ge(a: u32, b: u32) -> bool {
    !is_nan(a) && !is_nan(b) && order_key(a) >= order_key(b)
}

/// The pattern of `-v`: the sign bit flipped.
pub open spec fn neg(b: u32) -> u32 {
    if sign(b) == 1 {
        (b - 0x8000_0000) as u32
    } else {
        (b + 0x8000_0000) as u32
    }
}

/// The value as an optional measurement: `None` for NaN.
pub open spec fn known(b: u32) -> Option<u32> {
    if is_nan(b) {
        None
    } else {
        Some(b)
    }
}

/// Exec: `v.is_nan()`.
pub fn is_nan_exec(b: u32) -> (r: bool)
    ensures
        r == is_nan(b),
{
    (b / 0x80_0000) % 0x100 == 0xFF && b % 0x80_0000 != 0
}

/// Exec: `v.is_nan() || v <= 0.0`.
pub fn nan_or_not_positive_exec(b: u32) -> (r: bool)
    ensures
        r == nan_or_not_positive(b),
{
    is_nan_exec(b) || b / 0x8000_0000 == 1 || b % 0x8000_0000 == 0
}

/// Exec: `v.is_nan() || v < 0.0`.
pub fn nan_or_negative_exec(b: u32) -> (r: bool)
    ensures
        r == nan_or_negative(b),
{
    is_nan_exec(b) || (b / 0x8000_0000 == 1 && b % 0x8000_0000 != 0)
}

/// Exec: `a >= b`.
pub fn ge_exec(a: u32, b: u32) -> (r: bool)
    ensures
        r == ge(a, b),
{
    if is_nan_exec(a) || is_nan_exec(b) {
        return false;
    }
    let ma = a % 0x8000_0000;
    let mb = b % 0x8000_0000;
    let na = a / 0x8000_0000 == 1;
    let nb = b / 0x8000_0000 == 1;
    if !na && !nb {
        ma >= mb
    } else if na && nb {
        ma <= mb
    } else if na {
        // a <= 0 <= b: only equal when both are zeros.
        ma == 0 && mb == 0
    } else {
        true
    }
}

/// Exec: the pattern of `-v`.
pub fn neg_exec(b: u32) -> (r: u32)
    ensures
        r == neg(b),
{
    if b >= 0x8000_0000 {
        b - 0x8000_0000
    } else {
        b + 0x8000_0000
    }
}

/// Exec: `None` for NaN, else the value.
pub fn known_exec(b: u32) -> (r: Option<u32>)
    ensures
        r == known(b),
{
    if is_nan_exec(b) {
        None
    } else {
        Some(b)
    }
}

} // verus!
