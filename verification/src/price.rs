//! Prices and volumes are IEEE-754 binary64 values, carried as their bit
//! patterns so that every rule on them is integer arithmetic.
//!
//! For two positive finite binary64 values the numeric order is the order of
//! their bit patterns read as unsigned integers, which is what the range
//! checks rely on.
use vstd::prelude::*;

verus! {

pub open spec fn exponent_field(bits: u64) -> u64 {
    (bits / 0x10_0000_0000_0000) % 0x800
}

pub open spec fn mantissa_field(bits: u64) -> u64 {
    bits % 0x10_0000_0000_0000
}

pub open spec fn sign_bit(bits: u64) -> bool {
    bits >= 0x8000_0000_0000_0000
}

/// `f64::is_finite`: the exponent is not all ones.
pub open spec fn is_finite_value(bits: u64) -> bool {
    exponent_field(bits) != 0x7FF
}

/// `f64::is_nan`: all-ones exponent and a non-zero mantissa.
pub open spec fn is_nan_value(bits: u64) -> bool {
    exponent_field(bits) == 0x7FF && mantissa_field(bits) != 0
}

/// Positive or negative zero.
pub open spec fn is_zero_value(bits: u64) -> bool {
    bits % 0x8000_0000_0000_0000 == 0
}

/// `x > 0.0`.
pub open spec fn is_above_zero(bits: u64) -> bool {
    !is_nan_value(bits) && !sign_bit(bits) && !is_zero_value(bits)
}

/// `x < 0.0`.
pub open spec fn is_below_zero(bits: u64) -> bool {
    !is_nan_value(bits) && sign_bit(bits) && !is_zero_value(bits)
}

/// `a == b` on binary64 values: NaN equals nothing and the two zeros are equal.
pub open spec fn same_value(a: u64, b: u64) -> bool {
    !is_nan_value(a) && !is_nan_value(b) && (a == b || (is_zero_value(a) && is_zero_value(b)))
}

pub fn finite_value(bits: u64) -> (r: bool)
    ensures
        r == is_finite_value(bits),
{
    (bits / 0x10_0000_0000_0000) % 0x800 != 0x7FF
}

pub fn nan_value(bits: u64) -> (r: bool)
    ensures
        r == is_nan_value(bits),
{
    (bits / 0x10_0000_0000_0000) % 0x800 == 0x7FF && bits % 0x10_0000_0000_0000 != 0
}

pub fn zero_value(bits: u64) -> (r: bool)
    ensures
        r == is_zero_value(bits),
{
    bits % 0x8000_0000_0000_0000 == 0
}

pub fn above_zero(bits: u64) -> (r: bool)
    ensures
        r == is_above_zero(bits),
{
    !nan_value(bits) && bits < 0x8000_0000_0000_0000 && !zero_value(bits)
}

pub fn below_zero(bits: u64) -> (r: bool)
    ensures
        r == is_below_zero(bits),
{
    !nan_value(bits) && bits >= 0x8000_0000_0000_0000 && !zero_value(bits)
}

pub fn equal_values(a: u64, b: u64) -> (r: bool)
    ensures
        r == same_value(a, b),
{
    !nan_value(a) && !nan_value(b) && (a == b || (zero_value(a) && zero_value(b)))
}

} // verus!
