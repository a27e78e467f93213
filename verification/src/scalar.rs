//! Scalars carried as IEEE single-precision bit patterns.
//!
//! The verifier has no model of floating-point values, so every scalar of the
//! network is carried as the `u32` bit pattern of an IEEE 754 single-precision
//! number (and, where a double-precision value passes through, as a `u64` bit
//! pattern). Each arithmetic operation below is a function of its operands'
//! bits alone, performed by outside code: `rustc_apfloat`'s correctly rounded
//! software arithmetic and `libm`'s elementary functions. The contracts speak
//! of those results only through the uninterpreted names declared here, so
//! everything proved downstream holds for the operations as the outside
//! libraries actually compute them.

use rustc_apfloat::Float;
use rustc_apfloat::FloatConvert;
use vstd::prelude::*;

verus! {

/// Bit pattern of single-precision 0.0.
pub const ZERO_BITS: u32 = 0;

/// Bit pattern of single-precision 1.0.
pub const ONE_BITS: u32 = 0x3F80_0000;

/// Bit pattern of single-precision positive infinity.
pub const INFINITY_BITS: u32 = 0x7F80_0000;

/// Sum of two single-precision bit patterns.
pub uninterp spec fn fadd(a: u32, b: u32) -> u32;

/// Difference of two single-precision bit patterns.
pub uninterp spec fn fsub(a: u32, b: u32) -> u32;

/// Product of two single-precision bit patterns.
pub uninterp spec fn fmul(a: u32, b: u32) -> u32;

/// Quotient of two single-precision bit patterns.
pub uninterp spec fn fdiv(a: u32, b: u32) -> u32;

/// IEEE `<` on two single-precision bit patterns (false when unordered).
pub uninterp spec fn flt(a: u32, b: u32) -> bool;

/// IEEE `==` on two single-precision bit patterns (false when unordered,
/// true across the two encodings of zero).
pub uninterp spec fn feq(a: u32, b: u32) -> bool;

/// `e` raised to the given single-precision value.
pub uninterp spec fn fexp(x: u32) -> u32;

/// Hyperbolic tangent of a single-precision value.
pub uninterp spec fn ftanh(x: u32) -> u32;

/// Hyperbolic cosine of a single-precision value.
pub uninterp spec fn fcosh(x: u32) -> u32;

/// The single-precision value nearest to the given integer.
pub uninterp spec fn f_of_usize(n: usize) -> u32;

/// A single-precision value truncated toward zero and clamped to `u64`.
pub uninterp spec fn ftrunc(x: u32) -> u64;

/// A double-precision bit pattern rounded to the nearest single-precision
/// value.
pub uninterp spec fn fdemote(x: u64) -> u32;

/// IEEE negation is exactly a flip of the sign bit, for every operand
/// including NaNs, so it needs no outside call.
pub open spec fn fneg(b: u32) -> u32 {
    b ^ 0x8000_0000
}

pub fn neg_f(b: u32) -> (r: u32)
    ensures
        r == fneg(b),
{
    b ^ 0x8000_0000
}

/// Relies on `rustc_apfloat`'s `Add` for `ieee::Single`: IEEE single-precision
/// addition, correctly rounded to nearest (ties to even), a function of the
/// two bit patterns alone.
#[verifier::external_body]
pub fn add_f(a: u32, b: u32) -> (r: u32)
    ensures
        r == fadd(a, b),
{
    let x = rustc_apfloat::ieee::Single::from_bits(a as u128);
    let y = rustc_apfloat::ieee::Single::from_bits(b as u128);
    (x + y).value.to_bits() as u32
}

/// Relies on `rustc_apfloat`'s `Sub` for `ieee::Single`: IEEE single-precision
/// subtraction, correctly rounded to nearest (ties to even).
#[verifier::external_body]
pub fn sub_f(a: u32, b: u32) -> (r: u32)
    ensures
        r == fsub(a, b),
{
    let x = rustc_apfloat::ieee::Single::from_bits(a as u128);
    let y = rustc_apfloat::ieee::Single::from_bits(b as u128);
    (x - y).value.to_bits() as u32
}

/// Relies on `rustc_apfloat`'s `Mul` for `ieee::Single`: IEEE single-precision
/// multiplication, correctly rounded to nearest (ties to even).
#[verifier::external_body]
pub fn mul_f(a: u32, b: u32) -> (r: u32)
    ensures
        r == fmul(a, b),
{
    let x = rustc_apfloat::ieee::Single::from_bits(a as u128);
    let y = rustc_apfloat::ieee::Single::from_bits(b as u128);
    (x * y).value.to_bits() as u32
}

/// Relies on `rustc_apfloat`'s `Div` for `ieee::Single`: IEEE single-precision
/// division, correctly rounded to nearest (ties to even). Division by zero
/// follows IEEE (an infinity or NaN result), it does not panic.
#[verifier::external_body]
pub fn div_f(a: u32, b: u32) -> (r: u32)
    ensures
        r == fdiv(a, b),
{
    let x = rustc_apfloat::ieee::Single::from_bits(a as u128);
    let y = rustc_apfloat::ieee::Single::from_bits(b as u128);
    (x / y).value.to_bits() as u32
}

/// Relies on `rustc_apfloat`'s `PartialOrd` for `ieee::Single`: the IEEE
/// `<` predicate, false whenever either operand is NaN.
#[verifier::external_body]
pub fn lt_f(a: u32, b: u32) -> (r: bool)
    ensures
        r == flt(a, b),
{
    let x = rustc_apfloat::ieee::Single::from_bits(a as u128);
    let y = rustc_apfloat::ieee::Single::from_bits(b as u128);
    x < y
}

/// Relies on `rustc_apfloat`'s `PartialEq` for `ieee::Single`: the IEEE
/// `==` predicate, under which the two zeros are equal and NaN equals
/// nothing.
#[verifier::external_body]
pub fn eq_f(a: u32, b: u32) -> (r: bool)
    ensures
        r == feq(a, b),
{
    let x = rustc_apfloat::ieee::Single::from_bits(a as u128);
    let y = rustc_apfloat::ieee::Single::from_bits(b as u128);
    x == y
}

/// Relies on `libm::expf`, a pure function of its operand's bits.
#[verifier::external_body]
pub fn exp_f(x: u32) -> (r: u32)
    ensures
        r == fexp(x),
{
    bytemuck::cast(libm::expf(bytemuck::cast(x)))
}

/// Relies on `libm::tanhf`, a pure function of its operand's bits.
#[verifier::external_body]
pub fn tanh_f(x: u32) -> (r: u32)
    ensures
        r == ftanh(x),
{
    bytemuck::cast(libm::tanhf(bytemuck::cast(x)))
}

/// Relies on `libm::coshf`, a pure function of its operand's bits.
#[verifier::external_body]
pub fn cosh_f(x: u32) -> (r: u32)
    ensures
        r == fcosh(x),
{
    bytemuck::cast(libm::coshf(bytemuck::cast(x)))
}

/// Relies on `rustc_apfloat`'s `from_u128_r`: the single-precision value
/// nearest the integer (ties to even), as the `as` conversion rounds.
#[verifier::external_body]
pub fn of_usize_f(n: usize) -> (r: u32)
    ensures
        r == f_of_usize(n),
{
    let v = rustc_apfloat::ieee::Single::from_u128_r(n as u128, rustc_apfloat::Round::NearestTiesToEven);
    v.value.to_bits() as u32
}

/// Relies on `rustc_apfloat`'s `to_u128_r`: the value truncated toward zero
/// and clamped to the unsigned 64-bit range, as a saturating `as` conversion
/// truncates.
#[verifier::external_body]
pub fn trunc_f(x: u32) -> (r: u64)
    ensures
        r == ftrunc(x),
{
    let v = rustc_apfloat::ieee::Single::from_bits(x as u128);
    let mut is_exact = false;
    v.to_u128_r(64, rustc_apfloat::Round::TowardZero, &mut is_exact).value as u64
}

/// Relies on `rustc_apfloat`'s `FloatConvert` from `ieee::Double` to
/// `ieee::Single`: rounding to the nearest single-precision value (ties to
/// even), as the `as` conversion rounds.
#[verifier::external_body]
pub fn demote_f(x: u64) -> (r: u32)
    ensures
        r == fdemote(x),
{
    let v = rustc_apfloat::ieee::Double::from_bits(x as u128);
    let mut loses_info = false;
    let s: rustc_apfloat::StatusAnd<rustc_apfloat::ieee::Single> = v.convert(&mut loses_info);
    s.value.to_bits() as u32
}

} // verus!
