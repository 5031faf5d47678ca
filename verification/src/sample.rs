//! Sampling a function on a uniform grid over an interval.

use vstd::prelude::*;

verus! {

use crate::scalar::{
    Scalar, r_add, r_sub, r_mul, r_div, r_from_u32,
    radd, rsub, rmul, rdiv, rfrom_u32, rzero,
};
use crate::cplx::Cplx;

/// A sampled point: a position and the value taken there.
#[derive(Clone, Copy, Debug)]
pub struct SampledPoint {
    pub x: Scalar,
    pub y: Cplx,
}

/// The linear map sending `[a1, b1]` to `[a2, b2]`, evaluated at `x`:
/// `a2 + (x - a1) * (b2 - a2) / (b1 - a1)`.
pub open spec fn lin_map(x: Scalar, a1: Scalar, b1: Scalar, a2: Scalar, b2: Scalar) -> Scalar {
    r_add(a2, r_div(r_mul(r_sub(x, a1), r_sub(b2, a2)), r_sub(b1, a1)))
}

/// Maps an index position from one range into another.
pub fn index_to_range(x: Scalar, a1: Scalar, b1: Scalar, a2: Scalar, b2: Scalar) -> (r: Scalar)
    ensures
        r == lin_map(x, a1, b1, a2, b2),
{
    radd(a2, rdiv(rmul(rsub(x, a1), rsub(b2, a2)), rsub(b1, a1)))
}

/// The `i`-th of `n` grid positions spread evenly over `[a, b]`, endpoints
/// included: the image of `i` under the linear map from `[0, n-1]` to `[a, b]`.
pub open spec fn grid_point(a: Scalar, b: Scalar, n: usize, i: int) -> Scalar {
    lin_map(r_from_u32(i as u32), r_from_u32(0), r_from_u32((n - 1) as u32), a, b)
}

/// Samples `f` at `n` evenly spaced positions over `[a, b]`, endpoints
/// included; point `i` sits at `grid_point(a, b, n, i)` and carries a value
/// that `f` returned there.
pub fn evaluate_function_between<F: Fn(Scalar) -> Cplx>(
    f: &F,
    a: Scalar,
    b: Scalar,
    n: usize,
) -> (r: Vec<SampledPoint>)
    requires
        1 <= n <= u32::MAX,
        forall|x: Scalar| #[trigger] call_requires(*f, (x,)),
    ensures
        r@.len() == n,
        forall|i: int|
            0 <= i < n ==> (#[trigger] r@[i]).x == grid_point(a, b, n, i) && call_ensures(
                *f,
                (r@[i].x,),
                r@[i].y,
            ),
{
    let mut out: Vec<SampledPoint> = Vec::new();
    let lo = rzero();
    let hi = rfrom_u32((n - 1) as u32);
    let mut i: usize = 0;
    while i < n
        invariant
            n <= u32::MAX,
            forall|x: Scalar| #[trigger] call_requires(*f, (x,)),
            lo == r_from_u32(0),
            hi == r_from_u32((n - 1) as u32),
            i <= n,
            out@.len() == i,
            forall|j: int|
                0 <= j < i ==> (#[trigger] out@[j]).x == grid_point(a, b, n, j) && call_ensures(
                    *f,
                    (out@[j].x,),
                    out@[j].y,
                ),
        decreases n - i,
    {
        let x = index_to_range(rfrom_u32(i as u32), lo, hi, a, b);
        let y = f(x);
        out.push(SampledPoint { x, y });
        i += 1;
    }
    out
}

} // verus!
