//! The scalar layer of the numeric pipeline.
//!
//! Every real number of the solver is carried as a `Scalar`: a wrapper around a
//! `num` complex value whose imaginary part is kept at zero, so that the one
//! double-precision payload can travel through verified code as an opaque
//! value.  Arithmetic on scalars is performed by the `num`-backed operations
//! below; what each operation returns is given a name (an uninterpreted
//! function of the operands), and every contract of the library speaks of the
//! results through those names.  Two calls on equal operands thus denote
//! equal results: IEEE-754 determines the arithmetic, the comparisons and
//! the square root exactly, and the transcendental functions are each one
//! fixed function of their argument in any given build of the standard
//! library, which is all the names assert.

use vstd::prelude::*;

verus! {

/// A real scalar, held as the real part of a `num` complex number whose
/// imaginary part is zero.
#[derive(Clone, Copy, Debug)]
pub struct Scalar(pub num::complex::Complex64);

#[verifier::external_type_specification]
#[verifier::external_body]
#[verifier::reject_recursive_types(T)]
pub struct ExComplex<T>(num::complex::Complex<T>);

/// The double-precision sum of two scalars.
pub uninterp spec fn r_add(a: Scalar, b: Scalar) -> Scalar;

/// The double-precision difference of two scalars.
pub uninterp spec fn r_sub(a: Scalar, b: Scalar) -> Scalar;

/// The double-precision product of two scalars.
pub uninterp spec fn r_mul(a: Scalar, b: Scalar) -> Scalar;

/// The double-precision quotient of two scalars.
pub uninterp spec fn r_div(a: Scalar, b: Scalar) -> Scalar;

/// A scalar with its sign flipped.
pub uninterp spec fn r_neg(a: Scalar) -> Scalar;

/// The absolute value of a scalar.
pub uninterp spec fn r_abs(a: Scalar) -> Scalar;

/// The double-precision square root of a scalar.
pub uninterp spec fn r_sqrt(a: Scalar) -> Scalar;

/// The double-precision exponential of a scalar.
pub uninterp spec fn r_exp(a: Scalar) -> Scalar;

/// The double-precision sine of a scalar.
pub uninterp spec fn r_sin(a: Scalar) -> Scalar;

/// The double-precision cosine of a scalar.
pub uninterp spec fn r_cos(a: Scalar) -> Scalar;

/// The sign of a scalar: one with the scalar's sign bit.
pub uninterp spec fn r_signum(a: Scalar) -> Scalar;

/// A scalar raised to an integer power.
pub uninterp spec fn r_powi(a: Scalar, n: i32) -> Scalar;

/// A scalar raised to a scalar power.
pub uninterp spec fn r_powf(a: Scalar, b: Scalar) -> Scalar;

/// The larger of two scalars.
pub uninterp spec fn r_max(a: Scalar, b: Scalar) -> Scalar;

/// The smaller of two scalars.
pub uninterp spec fn r_min(a: Scalar, b: Scalar) -> Scalar;

/// Whether the first scalar is strictly below the second.
pub uninterp spec fn r_lt(a: Scalar, b: Scalar) -> bool;

/// Whether the first scalar is below or equal to the second.
pub uninterp spec fn r_le(a: Scalar, b: Scalar) -> bool;

/// Whether two scalars compare as numerically equal.
pub uninterp spec fn r_eq(a: Scalar, b: Scalar) -> bool;

/// The double equal to an unsigned 32-bit integer: every u32 fits a 53-bit
/// mantissa, so the conversion is exact.
pub uninterp spec fn r_from_u32(n: u32) -> Scalar;

/// Relies on `f64` addition.
#[verifier::external_body]
pub fn radd(a: Scalar, b: Scalar) -> (r: Scalar)
    ensures
        r == r_add(a, b),
{
    Scalar(num::complex::Complex64::from(a.0.re + b.0.re))
}

/// Relies on `f64` subtraction.
#[verifier::external_body]
pub fn rsub(a: Scalar, b: Scalar) -> (r: Scalar)
    ensures
        r == r_sub(a, b),
{
    Scalar(num::complex::Complex64::from(a.0.re - b.0.re))
}

/// Relies on `f64` multiplication.
#[verifier::external_body]
pub fn rmul(a: Scalar, b: Scalar) -> (r: Scalar)
    ensures
        r == r_mul(a, b),
{
    Scalar(num::complex::Complex64::from(a.0.re * b.0.re))
}

/// Relies on `f64` division.
#[verifier::external_body]
pub fn rdiv(a: Scalar, b: Scalar) -> (r: Scalar)
    ensures
        r == r_div(a, b),
{
    Scalar(num::complex::Complex64::from(a.0.re / b.0.re))
}

/// Relies on `f64` negation.
#[verifier::external_body]
pub fn rneg(a: Scalar) -> (r: Scalar)
    ensures
        r == r_neg(a),
{
    Scalar(num::complex::Complex64::from(-a.0.re))
}

/// Relies on `f64::abs`.
#[verifier::external_body]
pub fn rabs(a: Scalar) -> (r: Scalar)
    ensures
        r == r_abs(a),
{
    Scalar(num::complex::Complex64::from(a.0.re.abs()))
}

/// Relies on `f64::sqrt`.
#[verifier::external_body]
pub fn rsqrt(a: Scalar) -> (r: Scalar)
    ensures
        r == r_sqrt(a),
{
    Scalar(num::complex::Complex64::from(a.0.re.sqrt()))
}

/// Relies on `f64::exp`.
#[verifier::external_body]
pub fn rexp(a: Scalar) -> (r: Scalar)
    ensures
        r == r_exp(a),
{
    Scalar(num::complex::Complex64::from(a.0.re.exp()))
}

/// Relies on `f64::sin`.
#[verifier::external_body]
pub fn rsin(a: Scalar) -> (r: Scalar)
    ensures
        r == r_sin(a),
{
    Scalar(num::complex::Complex64::from(a.0.re.sin()))
}

/// Relies on `f64::cos`.
#[verifier::external_body]
pub fn rcos(a: Scalar) -> (r: Scalar)
    ensures
        r == r_cos(a),
{
    Scalar(num::complex::Complex64::from(a.0.re.cos()))
}

/// Relies on `f64::signum`.
#[verifier::external_body]
pub fn rsignum(a: Scalar) -> (r: Scalar)
    ensures
        r == r_signum(a),
{
    Scalar(num::complex::Complex64::from(a.0.re.signum()))
}

/// Relies on `f64::powi`.
#[verifier::external_body]
pub fn rpowi(a: Scalar, n: i32) -> (r: Scalar)
    ensures
        r == r_powi(a, n),
{
    Scalar(num::complex::Complex64::from(a.0.re.powi(n)))
}

/// Relies on `f64::powf`.
#[verifier::external_body]
pub fn rpowf(a: Scalar, b: Scalar) -> (r: Scalar)
    ensures
        r == r_powf(a, b),
{
    Scalar(num::complex::Complex64::from(a.0.re.powf(b.0.re)))
}

/// Relies on `f64::max`.
#[verifier::external_body]
pub fn rmax(a: Scalar, b: Scalar) -> (r: Scalar)
    ensures
        r == r_max(a, b),
{
    Scalar(num::complex::Complex64::from(a.0.re.max(b.0.re)))
}

/// Relies on `f64::min`.
#[verifier::external_body]
pub fn rmin(a: Scalar, b: Scalar) -> (r: Scalar)
    ensures
        r == r_min(a, b),
{
    Scalar(num::complex::Complex64::from(a.0.re.min(b.0.re)))
}

/// Relies on the `f64` strict-order comparison, which is asymmetric: a
/// value strictly below another is never also strictly above it.
#[verifier::external_body]
pub fn rlt(a: Scalar, b: Scalar) -> (r: bool)
    ensures
        r == r_lt(a, b),
        r ==> !r_lt(b, a),
{
    a.0.re < b.0.re
}

/// Relies on the `f64` non-strict-order comparison.
#[verifier::external_body]
pub fn rle(a: Scalar, b: Scalar) -> (r: bool)
    ensures
        r == r_le(a, b),
{
    a.0.re <= b.0.re
}

/// Relies on the `f64` equality comparison, which is symmetric: the call
/// decides both orientations of the name at once.
#[verifier::external_body]
pub fn req(a: Scalar, b: Scalar) -> (r: bool)
    ensures
        r == r_eq(a, b),
        r == r_eq(b, a),
{
    a.0.re == b.0.re
}

/// Relies on the lossless `u32` to double conversion of std.
#[verifier::external_body]
pub fn rfrom_u32(n: u32) -> (r: Scalar)
    ensures
        r == r_from_u32(n),
{
    Scalar(num::complex::Complex64::new(n.into(), Default::default()))
}

/// The scalar zero.
pub open spec fn r_zero() -> Scalar {
    r_from_u32(0)
}

/// The scalar one.
pub open spec fn r_one() -> Scalar {
    r_from_u32(1)
}

/// The scalar zero, as executable code.
pub fn rzero() -> (r: Scalar)
    ensures
        r == r_zero(),
{
    rfrom_u32(0)
}

/// The scalar one, as executable code.
pub fn rone() -> (r: Scalar)
    ensures
        r == r_one(),
{
    rfrom_u32(1)
}

} // verus!
