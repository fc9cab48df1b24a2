//! IEEE-754 single-precision numbers, held as their bit patterns.
//!
//! A pattern is a `u32`: one sign bit, eight exponent bits, twenty-three
//! fraction bits. The order of two numbers is decided on the patterns alone.

use vstd::prelude::*;

verus! {

/// The pattern without its sign bit reaches this value at infinity; above it lie the NaNs.
pub const INFINITY_MAGNITUDE: u32 = 0x7F80_0000;

/// The pattern of the lowest finite single, `-3.4028235e38`.
pub const LOWEST_FINITE: u32 = 0xFF7F_FFFF;

/// The pattern without its sign bit.
pub open spec fn spec_magnitude(bits: u32) -> u32 {
    (bits % 0x8000_0000) as u32
}

/// Whether the sign bit is set.
pub open spec fn spec_is_negative(bits: u32) -> bool {
    bits >= 0x8000_0000
}

/// Whether the pattern is a NaN.
pub open spec fn spec_is_nan(bits: u32) -> bool {
    spec_magnitude(bits) > INFINITY_MAGNITUDE
}

/// Whether the pattern is neither an infinity nor a NaN.
pub open spec fn spec_is_finite(bits: u32) -> bool {
    spec_magnitude(bits) < INFINITY_MAGNITUDE
}

/// An integer that orders the patterns that are not NaN as their numbers are
/// ordered. Both zeros have key zero.
pub open spec fn spec_order_key(bits: u32) -> int {
    if spec_is_negative(bits) {
        -(spec_magnitude(bits) as int)
    } else {
        spec_magnitude(bits) as int
    }
}

/// `a >= b` on the numbers: false when either is a NaN.
pub open spec fn spec_at_least(a: u32, b: u32) -> bool {
    !spec_is_nan(a) && !spec_is_nan(b) && spec_order_key(a) >= spec_order_key(b)
}

#[verifier::when_used_as_spec(spec_magnitude)]
pub fn magnitude(bits: u32) -> (m: u32)
    ensures
        m == spec_magnitude(bits),
{
    bits % 0x8000_0000
}

#[verifier::when_used_as_spec(spec_is_negative)]
pub fn is_negative(bits: u32) -> (negative: bool)
    ensures
        negative == spec_is_negative(bits),
{
    bits >= 0x8000_0000
}

#[verifier::when_used_as_spec(spec_is_nan)]
pub fn is_nan(bits: u32) -> (nan: bool)
    ensures
        nan == spec_is_nan(bits),
{
    magnitude(bits) > INFINITY_MAGNITUDE
}

#[verifier::when_used_as_spec(spec_is_finite)]
pub fn is_finite(bits: u32) -> (finite: bool)
    ensures
        finite == spec_is_finite(bits),
{
    magnitude(bits) < INFINITY_MAGNITUDE
}

pub fn order_key(bits: u32) -> (key: i64)
    ensures
        key == spec_order_key(bits),
{
    let m: i64 = magnitude(bits) as i64;
    if is_negative(bits) {
        -m
    } else {
        m
    }
}

#[verifier::when_used_as_spec(spec_at_least)]
pub fn at_least(a: u32, b: u32) -> (holds: bool)
    ensures
        holds == spec_at_least(a, b),
{
    !is_nan(a) && !is_nan(b) && order_key(a) >= order_key(b)
}

/// Nothing finite lies below the lowest finite single.
pub proof fn lemma_lowest_finite_is_least(bits: u32)
    requires
        is_finite(bits),
    ensures
        at_least(bits, LOWEST_FINITE),
        is_finite(LOWEST_FINITE),
{
}

} // verus!
