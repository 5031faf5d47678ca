//! Semiclassical (WKB) approximation of bound-state wavefunctions of a
//! one-dimensional time-independent Schrödinger problem, patched with
//! Airy-function corrections near classical turning points.
//!
//! The numeric pipeline is built from a root-finding engine with
//! zero-deflation, a turning-point detector that pairs the zeros of a
//! validity function, a chunked trapezoidal integrator, and an assembler
//! that stitches WKB and Airy segments through smooth joints.

use vstd::prelude::*;

pub mod airy;
pub mod builder;
pub mod cplx;
pub mod derivative;
pub mod integrate;
pub mod roots;
pub mod sample;
pub mod scalar;
pub mod turning;
pub mod wkb;

verus! {

use crate::scalar::{Scalar, r_le, r_lt, rle, rlt};

/// Whether a half-open interval contains a point: the lower bound is
/// inclusive, the upper bound exclusive.
pub open spec fn in_range_spec(range: (Scalar, Scalar), x: Scalar) -> bool {
    r_le(range.0, x) && r_lt(x, range.1)
}

/// Whether a half-open interval contains a point, as executable code.
pub fn is_in_range(range: (Scalar, Scalar), x: Scalar) -> (r: bool)
    ensures
        r == in_range_spec(range, x),
{
    rle(range.0, x) && rlt(x, range.1)
}

} // verus!
