//! Arithmetic on IEEE-754 single-precision values, each carried as its 32-bit
//! pattern. The verifier never sees a floating-point type: every operation
//! either is pure bit logic proved here, or goes through a trusted wrapper
//! whose result is named by an uninterpreted spec function.

use rustc_apfloat::Float;
use vstd::prelude::*;

verus! {

/// Bits of 0.0.
pub const ZERO_BITS: u32 = 0x0000_0000;

/// Bits of 1.0.
pub const ONE_BITS: u32 = 0x3F80_0000;

/// Bits of 2.0.
pub const TWO_BITS: u32 = 0x4000_0000;

/// Bits of 4.0.
pub const FOUR_BITS: u32 = 0x4080_0000;

/// Bits of positive infinity.
pub const INF_BITS: u32 = 0x7F80_0000;

/// The bits of the IEEE single sum `a + b` (round to nearest, ties to even).
pub uninterp spec fn add_bits(a: u32, b: u32) -> u32;

/// The bits of the IEEE single difference `a - b`.
pub uninterp spec fn sub_bits(a: u32, b: u32) -> u32;

/// The bits of the IEEE single product `a * b`.
pub uninterp spec fn mul_bits(a: u32, b: u32) -> u32;

/// The bits of the IEEE single quotient `a / b`.
pub uninterp spec fn div_bits(a: u32, b: u32) -> u32;

/// The bits of `e` raised to the value of `a`.
pub uninterp spec fn exp_bits(a: u32) -> u32;

/// The bits of the value of `a` raised to the value of `b`.
pub uninterp spec fn pow_bits(a: u32, b: u32) -> u32;

/// The bits of the IEEE single nearest to the integer `n`.
pub uninterp spec fn single_of_usize(n: usize) -> u32;

/// Relies on rustc_apfloat's IEEE single addition (round to nearest, ties to
/// even): the sum's bits depend on the operand bits alone.
#[verifier::external_body]
pub(crate) fn add_val(a: u32, b: u32) -> (r: u32)
    ensures
        r == add_bits(a, b),
{
    let x = rustc_apfloat::ieee::Single::from_bits(a as u128);
    let y = rustc_apfloat::ieee::Single::from_bits(b as u128);
    (x + y).value.to_bits() as u32
}

/// Relies on rustc_apfloat's IEEE single subtraction.
#[verifier::external_body]
pub(crate) fn sub_val(a: u32, b: u32) -> (r: u32)
    ensures
        r == sub_bits(a, b),
{
    let x = rustc_apfloat::ieee::Single::from_bits(a as u128);
    let y = rustc_apfloat::ieee::Single::from_bits(b as u128);
    (x - y).value.to_bits() as u32
}

/// Relies on rustc_apfloat's IEEE single multiplication.
#[verifier::external_body]
pub(crate) fn mul_val(a: u32, b: u32) -> (r: u32)
    ensures
        r == mul_bits(a, b),
{
    let x = rustc_apfloat::ieee::Single::from_bits(a as u128);
    let y = rustc_apfloat::ieee::Single::from_bits(b as u128);
    (x * y).value.to_bits() as u32
}

/// Relies on rustc_apfloat's IEEE single division.
#[verifier::external_body]
pub(crate) fn div_val(a: u32, b: u32) -> (r: u32)
    ensures
        r == div_bits(a, b),
{
    let x = rustc_apfloat::ieee::Single::from_bits(a as u128);
    let y = rustc_apfloat::ieee::Single::from_bits(b as u128);
    (x / y).value.to_bits() as u32
}

/// Relies on libm::expf: `e^x` on an IEEE single, a function of the bits alone.
#[verifier::external_body]
pub(crate) fn exp_val(a: u32) -> (r: u32)
    ensures
        r == exp_bits(a),
{
    bytemuck::cast(libm::expf(bytemuck::cast(a)))
}

/// Relies on libm::powf: `x^y` on IEEE singles, a function of the bits alone.
#[verifier::external_body]
pub(crate) fn pow_val(a: u32, b: u32) -> (r: u32)
    ensures
        r == pow_bits(a, b),
{
    bytemuck::cast(libm::powf(bytemuck::cast(a), bytemuck::cast(b)))
}

/// Relies on rustc_apfloat's unsigned-integer-to-single conversion (round to
/// nearest, ties to even).
#[verifier::external_body]
pub(crate) fn single_of(n: usize) -> (r: u32)
    ensures
        r == single_of_usize(n),
{
    rustc_apfloat::ieee::Single::from_u128(n as u128).value.to_bits() as u32
}

/// Negation of an IEEE single flips the sign bit and nothing else.
pub open spec fn neg_bits(a: u32) -> u32 {
    a ^ 0x8000_0000
}

pub(crate) fn neg_val(a: u32) -> (r: u32)
    ensures
        r == neg_bits(a),
{
    a ^ 0x8000_0000
}

/// Whether the single with these bits compares strictly greater than 0.0:
/// the sign is clear, the magnitude is not zero, and the value is not a NaN
/// (all exponent bits set with a non-zero fraction).
pub open spec fn is_gt_zero(a: u32) -> bool {
    &&& a & 0x8000_0000 == 0
    &&& a & 0x7FFF_FFFF != 0
    &&& !(a & 0x7F80_0000 == 0x7F80_0000 && a & 0x007F_FFFF != 0)
}

pub(crate) fn gt_zero(a: u32) -> (r: bool)
    ensures
        r == is_gt_zero(a),
{
    a & 0x8000_0000 == 0 && a & 0x7FFF_FFFF != 0 && !(a & 0x7F80_0000 == 0x7F80_0000
        && a & 0x007F_FFFF != 0)
}

} // verus!
