//! The library carries an `f32` (a vibration magnitude, a speed or scale
//! factor) by its IEEE-754 bit pattern, as `f32::to_bits` gives it. The sign
//! tests that the bridge decides on are exact integer conditions on that
//! pattern.

use vstd::prelude::*;

verus! {

/// The bit pattern of `0.0_f32`.
pub const ZERO_BITS: u32 = 0x0000_0000u32;

/// The bit pattern of `1.0_f32`.
pub const ONE_BITS: u32 = 0x3F80_0000u32;

/// `x > 0.0` for the `f32` `x` whose bit pattern is `bits`: the positive
/// subnormals, normals and `+inf` (sign bit clear, not zero, not NaN).
pub open spec fn is_above_zero_spec(bits: u32) -> bool {
    0 < bits <= 0x7F80_0000
}

/// `0.0 <= x <= 1.0` for the `f32` `x` whose bit pattern is `bits`.
pub open spec fn is_unit_interval_spec(bits: u32) -> bool {
    bits <= ONE_BITS || bits == 0x8000_0000
}

/// Whether the `f32` with bit pattern `bits` is greater than zero.
pub fn is_above_zero(bits: u32) -> (res: bool)
    ensures
        res == is_above_zero_spec(bits),
{
    0 < bits && bits <= 0x7F80_0000
}

/// The bit pattern is a NaN (exponent all ones, fraction not zero).
pub open spec fn is_nan_spec(bits: u32) -> bool {
    (0x7F80_0000 < bits < 0x8000_0000) || 0xFF80_0000 < bits
}

/// `x == y` for the `f32`s `x` and `y` with bit patterns `a` and `b`: neither
/// is NaN, and the patterns are equal or both are zeros (`0.0 == -0.0`).
pub open spec fn f32_eq_spec(a: u32, b: u32) -> bool {
    &&& !is_nan_spec(a)
    &&& !is_nan_spec(b)
    &&& (a == b || ((a == 0 || a == 0x8000_0000) && (b == 0 || b == 0x8000_0000)))
}

/// Whether the `f32`s with bit patterns `a` and `b` are equal as floats.
pub fn f32_eq(a: u32, b: u32) -> (res: bool)
    ensures
        res == f32_eq_spec(a, b),
{
    let a_nan = (0x7F80_0000 < a && a < 0x8000_0000) || 0xFF80_0000 < a;
    let b_nan = (0x7F80_0000 < b && b < 0x8000_0000) || 0xFF80_0000 < b;
    let a_zero = a == 0 || a == 0x8000_0000;
    let b_zero = b == 0 || b == 0x8000_0000;
    !a_nan && !b_nan && (a == b || (a_zero && b_zero))
}

} // verus!
