//! Five-point-stencil numerical differentiation.
//!
//! The estimate is the Richardson combination of three central differences
//! with steps `h, 2h, 3h`, where `h` is the square root of the machine
//! epsilon.  The stencil predicate is stated over a relation between
//! positions and admissible values, so the same specification describes the
//! derivative of a plain function and of a deflated one.

use vstd::prelude::*;

verus! {

use crate::scalar::{
    Scalar, r_add, r_sub, r_mul, r_div, r_one, r_from_u32,
    radd, rsub, rmul, rdiv, rone, rfrom_u32,
};

/// The stencil step `h`: the square root of the double-precision machine
/// epsilon, one over 2^26.
pub open spec fn stencil_step() -> Scalar {
    r_div(r_one(), r_from_u32(67108864))
}

/// Twice the stencil step.
pub open spec fn stencil_step_2() -> Scalar {
    r_mul(stencil_step(), r_from_u32(2))
}

/// Three times the stencil step.
pub open spec fn stencil_step_3() -> Scalar {
    r_mul(stencil_step(), r_from_u32(3))
}

/// The Richardson combination `((15 m1 - 6 m2) + m3) / (10 h)` of the three
/// central differences `m1 = (y1p - y1m) / 2`, `m2 = (y2p - y2m) / 4`,
/// `m3 = (y3p - y3m) / 6`.
pub open spec fn stencil_combine(
    y1p: Scalar,
    y1m: Scalar,
    y2p: Scalar,
    y2m: Scalar,
    y3p: Scalar,
    y3m: Scalar,
) -> Scalar {
    let m1 = r_div(r_sub(y1p, y1m), r_from_u32(2));
    let m2 = r_div(r_sub(y2p, y2m), r_from_u32(4));
    let m3 = r_div(r_sub(y3p, y3m), r_from_u32(6));
    r_div(
        r_add(r_sub(r_mul(m1, r_from_u32(15)), r_mul(m2, r_from_u32(6))), m3),
        r_mul(stencil_step(), r_from_u32(10)),
    )
}

/// The values a function may return at each position: the relation between a
/// position and an admissible value there.
pub open spec fn value_rel<F: Fn(Scalar) -> Scalar>(f: F) -> spec_fn(Scalar, Scalar) -> bool {
    |t: Scalar, y: Scalar| call_ensures(f, (t,), y)
}

/// `d` is a five-point-stencil derivative estimate at `x` of a function whose
/// admissible values are described by `rel`: the Richardson combination of
/// one admissible value at each of the six stencil positions.
pub open spec fn stencil_of(rel: spec_fn(Scalar, Scalar) -> bool, x: Scalar, d: Scalar) -> bool {
    exists|y1p: Scalar, y1m: Scalar, y2p: Scalar, y2m: Scalar, y3p: Scalar, y3m: Scalar|
        #![trigger rel(r_add(x, stencil_step()), y1p), rel(r_sub(x, stencil_step()), y1m),
            rel(r_add(x, stencil_step_2()), y2p), rel(r_sub(x, stencil_step_2()), y2m),
            rel(r_add(x, stencil_step_3()), y3p), rel(r_sub(x, stencil_step_3()), y3m)]
        rel(r_add(x, stencil_step()), y1p) && rel(r_sub(x, stencil_step()), y1m) && rel(
            r_add(x, stencil_step_2()),
            y2p,
        ) && rel(r_sub(x, stencil_step_2()), y2m) && rel(r_add(x, stencil_step_3()), y3p) && rel(
            r_sub(x, stencil_step_3()),
            y3m,
        ) && d == stencil_combine(y1p, y1m, y2p, y2m, y3p, y3m)
}

/// A stencil estimate for a stronger relation is one for a weaker relation.
pub proof fn lemma_stencil_mono(
    rel1: spec_fn(Scalar, Scalar) -> bool,
    rel2: spec_fn(Scalar, Scalar) -> bool,
    x: Scalar,
    d: Scalar,
)
    requires
        stencil_of(rel1, x, d),
        forall|t: Scalar, y: Scalar| #[trigger] rel1(t, y) ==> rel2(t, y),
    ensures
        stencil_of(rel2, x, d),
{
}

/// The five-point-stencil derivative estimate of `f` at `x`: combines the
/// values `f` returns at the six stencil positions around `x`.
pub fn derivative<F: Fn(Scalar) -> Scalar>(f: &F, x: Scalar) -> (d: Scalar)
    requires
        forall|t: Scalar| #[trigger] call_requires(*f, (t,)),
    ensures
        stencil_of(value_rel(*f), x, d),
{
    let dx1 = rdiv(rone(), rfrom_u32(67108864));
    let dx2 = rmul(dx1, rfrom_u32(2));
    let dx3 = rmul(dx1, rfrom_u32(3));

    let y1p = f(radd(x, dx1));
    let y1m = f(rsub(x, dx1));
    let y2p = f(radd(x, dx2));
    let y2m = f(rsub(x, dx2));
    let y3p = f(radd(x, dx3));
    let y3m = f(rsub(x, dx3));

    let m1 = rdiv(rsub(y1p, y1m), rfrom_u32(2));
    let m2 = rdiv(rsub(y2p, y2m), rfrom_u32(4));
    let m3 = rdiv(rsub(y3p, y3m), rfrom_u32(6));

    let d = rdiv(
        radd(rsub(rmul(m1, rfrom_u32(15)), rmul(m2, rfrom_u32(6))), m3),
        rmul(dx1, rfrom_u32(10)),
    );
    proof {
        let rel = value_rel(*f);
        assert(rel(r_add(x, stencil_step()), y1p) && rel(r_sub(x, stencil_step()), y1m) && rel(
            r_add(x, stencil_step_2()),
            y2p,
        ) && rel(r_sub(x, stencil_step_2()), y2m) && rel(r_add(x, stencil_step_3()), y3p) && rel(
            r_sub(x, stencil_step_3()),
            y3m,
        ));
    }
    d
}

} // verus!
