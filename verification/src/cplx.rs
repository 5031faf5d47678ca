//! Complex values built from two scalars, with componentwise arithmetic.
//!
//! Every operation is executable verified code over the named scalar
//! operations, so a contract that mentions `c_add`, `c_mul` and the like pins
//! the result down to an exact composition of double-precision steps.

use vstd::prelude::*;

verus! {

use crate::scalar::{
    Scalar, r_add, r_sub, r_mul, r_div, r_neg, r_cos, r_sin, r_exp, r_zero, r_one,
    radd, rsub, rmul, rdiv, rneg, rcos, rsin, rexp, rzero, rone,
};

/// A complex value: real and imaginary part, each a scalar.
#[derive(Clone, Copy, Debug)]
pub struct Cplx {
    pub re: Scalar,
    pub im: Scalar,
}

/// The componentwise sum of two complex values.
pub open spec fn c_add(a: Cplx, b: Cplx) -> Cplx {
    Cplx { re: r_add(a.re, b.re), im: r_add(a.im, b.im) }
}

/// The componentwise difference of two complex values.
pub open spec fn c_sub(a: Cplx, b: Cplx) -> Cplx {
    Cplx { re: r_sub(a.re, b.re), im: r_sub(a.im, b.im) }
}

/// The componentwise negation of a complex value.
pub open spec fn c_neg(a: Cplx) -> Cplx {
    Cplx { re: r_neg(a.re), im: r_neg(a.im) }
}

/// The complex product: `(ac - bd, ad + bc)`.
pub open spec fn c_mul(a: Cplx, b: Cplx) -> Cplx {
    Cplx {
        re: r_sub(r_mul(a.re, b.re), r_mul(a.im, b.im)),
        im: r_add(r_mul(a.re, b.im), r_mul(a.im, b.re)),
    }
}

/// The complex quotient, by the conjugate trick:
/// `((ac + bd) / (cc + dd), (bc - ad) / (cc + dd))`.
pub open spec fn c_div(a: Cplx, b: Cplx) -> Cplx {
    let n = c_norm_sqr(b);
    Cplx {
        re: r_div(r_add(r_mul(a.re, b.re), r_mul(a.im, b.im)), n),
        im: r_div(r_sub(r_mul(a.im, b.re), r_mul(a.re, b.im)), n),
    }
}

/// A complex value scaled by a real factor, componentwise.
pub open spec fn c_scale(s: Scalar, a: Cplx) -> Cplx {
    Cplx { re: r_mul(s, a.re), im: r_mul(s, a.im) }
}

/// The squared magnitude `re*re + im*im`.
pub open spec fn c_norm_sqr(a: Cplx) -> Scalar {
    r_add(r_mul(a.re, a.re), r_mul(a.im, a.im))
}

/// The unit complex number of angle `t`: `(cos t, sin t)`.
pub open spec fn c_cis(t: Scalar) -> Cplx {
    Cplx { re: r_cos(t), im: r_sin(t) }
}

/// The complex exponential: `exp(re) * (cos im, sin im)`.
pub open spec fn c_exp(a: Cplx) -> Cplx {
    Cplx { re: r_mul(r_exp(a.re), r_cos(a.im)), im: r_mul(r_exp(a.re), r_sin(a.im)) }
}

/// A real scalar embedded as a complex value.
pub open spec fn c_of(s: Scalar) -> Cplx {
    Cplx { re: s, im: r_zero() }
}

/// The complex zero.
pub open spec fn c_zero() -> Cplx {
    Cplx { re: r_zero(), im: r_zero() }
}

/// The complex one.
pub open spec fn c_one() -> Cplx {
    Cplx { re: r_one(), im: r_zero() }
}

/// The imaginary unit.
pub open spec fn c_i() -> Cplx {
    Cplx { re: r_zero(), im: r_one() }
}

pub fn cadd(a: Cplx, b: Cplx) -> (r: Cplx)
    ensures
        r == c_add(a, b),
{
    Cplx { re: radd(a.re, b.re), im: radd(a.im, b.im) }
}

pub fn csub(a: Cplx, b: Cplx) -> (r: Cplx)
    ensures
        r == c_sub(a, b),
{
    Cplx { re: rsub(a.re, b.re), im: rsub(a.im, b.im) }
}

pub fn cneg(a: Cplx) -> (r: Cplx)
    ensures
        r == c_neg(a),
{
    Cplx { re: rneg(a.re), im: rneg(a.im) }
}

pub fn cmul(a: Cplx, b: Cplx) -> (r: Cplx)
    ensures
        r == c_mul(a, b),
{
    Cplx {
        re: rsub(rmul(a.re, b.re), rmul(a.im, b.im)),
        im: radd(rmul(a.re, b.im), rmul(a.im, b.re)),
    }
}

pub fn cdiv(a: Cplx, b: Cplx) -> (r: Cplx)
    ensures
        r == c_div(a, b),
{
    let n = cnorm_sqr(b);
    Cplx {
        re: rdiv(radd(rmul(a.re, b.re), rmul(a.im, b.im)), n),
        im: rdiv(rsub(rmul(a.im, b.re), rmul(a.re, b.im)), n),
    }
}

pub fn cscale(s: Scalar, a: Cplx) -> (r: Cplx)
    ensures
        r == c_scale(s, a),
{
    Cplx { re: rmul(s, a.re), im: rmul(s, a.im) }
}

pub fn cnorm_sqr(a: Cplx) -> (r: Scalar)
    ensures
        r == c_norm_sqr(a),
{
    radd(rmul(a.re, a.re), rmul(a.im, a.im))
}

pub fn ccis(t: Scalar) -> (r: Cplx)
    ensures
        r == c_cis(t),
{
    Cplx { re: rcos(t), im: rsin(t) }
}

pub fn cexp(a: Cplx) -> (r: Cplx)
    ensures
        r == c_exp(a),
{
    let m = rexp(a.re);
    Cplx { re: rmul(m, rcos(a.im)), im: rmul(m, rsin(a.im)) }
}

pub fn cof(s: Scalar) -> (r: Cplx)
    ensures
        r == c_of(s),
{
    Cplx { re: s, im: rzero() }
}

pub fn czero() -> (r: Cplx)
    ensures
        r == c_zero(),
{
    Cplx { re: rzero(), im: rzero() }
}

pub fn cone() -> (r: Cplx)
    ensures
        r == c_one(),
{
    Cplx { re: rone(), im: rzero() }
}

pub fn ci() -> (r: Cplx)
    ensures
        r == c_i(),
{
    Cplx { re: rzero(), im: rone() }
}

} // verus!
