//! The physical configuration and the WKB approximant.
//!
//! A WKB segment evaluates the semiclassical form built from the local
//! momentum `p(x) = sqrt(|2 m (E - U(x))|)`: oscillatory
//! `c * cos(phi + off) / sqrt(p)` in the classically allowed region and a
//! decaying `c * exp(-|phi|) / (2 sqrt(p))` in the forbidden one, where
//! `phi` is the chunked trapezoidal integral of the momentum from the
//! segment's reference point.

use vstd::prelude::*;

verus! {

use crate::scalar::{
    Scalar, r_add, r_sub, r_mul, r_div, r_neg, r_abs, r_sqrt, r_exp, r_cos, r_zero, r_one, r_le,
    r_signum, r_from_u32,
    radd, rsub, rmul, rdiv, rneg, rabs, rsqrt, rexp, rcos, rzero, rone, rle, rsignum, rfrom_u32,
};
use crate::cplx::{Cplx, c_scale, cscale, cof};
use crate::sample::{SampledPoint, evaluate_function_between, grid_point};
use crate::integrate::{integrate, integrate_spec};

/// How many points a phase or renormalization integral samples.
pub const INTEG_STEPS: usize = 64000;

/// How many points each parallel integration chunk holds.
pub const TRAPEZE_PER_THREAD: usize = 1000;

/// The immutable physical configuration: the eigen-energy, the mass, the
/// phase offset used for matching, and the potential function, shared
/// read-only by every approximant derived from it.
pub struct Phase<'a, F: Fn(Scalar) -> Scalar> {
    pub energy: Scalar,
    pub mass: Scalar,
    pub phase_off: Scalar,
    pub potential: &'a F,
}

impl<'a, F: Fn(Scalar) -> Scalar> Phase<'a, F> {
    /// The configuration is usable when its potential accepts every input.
    pub open spec fn wf(&self) -> bool {
        forall|t: Scalar| #[trigger] call_requires(*self.potential, (t,))
    }

    /// An identical copy of the configuration.
    pub fn duplicate(&self) -> (r: Self)
        ensures
            r == *self,
    {
        Phase {
            energy: self.energy,
            mass: self.mass,
            phase_off: self.phase_off,
            potential: self.potential,
        }
    }

    /// A configuration with no phase offset.
    pub fn new(energy: Scalar, mass: Scalar, potential: &'a F) -> (r: Self)
        ensures
            r.energy == energy,
            r.mass == mass,
            r.potential == potential,
            r.phase_off == r_zero(),
    {
        Phase { energy, mass, phase_off: rzero(), potential }
    }
}

/// The admissible values of the local momentum:
/// `sqrt(|2 m (E - y)|)` for a value `y` the potential returned there.
pub open spec fn momentum_rel<F: Fn(Scalar) -> Scalar>(
    energy: Scalar,
    mass: Scalar,
    f: F,
) -> spec_fn(Scalar, Scalar) -> bool {
    |x: Scalar, p: Scalar|
        exists|y: Scalar|
            #[trigger] call_ensures(f, (x,), y) && p == r_sqrt(
                r_abs(r_mul(r_mul(r_from_u32(2), mass), r_sub(energy, y))),
            )
}

/// One value of the local momentum at `x`.
pub fn momentum_value<F: Fn(Scalar) -> Scalar>(
    energy: Scalar,
    mass: Scalar,
    f: &F,
    x: Scalar,
) -> (p: Scalar)
    requires
        forall|t: Scalar| #[trigger] call_requires(*f, (t,)),
    ensures
        momentum_rel(energy, mass, *f)(x, p),
{
    let y = f(x);
    let p = rsqrt(rabs(rmul(rmul(rfrom_u32(2), mass), rsub(energy, y))));
    proof {
        assert(call_ensures(*f, (x,), y) && p == r_sqrt(
            r_abs(r_mul(r_mul(r_from_u32(2), mass), r_sub(energy, y))),
        ));
        assert(momentum_rel(energy, mass, *f)(x, p));
    }
    p
}

/// A momentum sampling between two positions: `n` evenly spaced points, each
/// carrying a momentum value as a complex number with zero imaginary part.
pub open spec fn momentum_samples<F: Fn(Scalar) -> Scalar>(
    energy: Scalar,
    mass: Scalar,
    f: F,
    a: Scalar,
    b: Scalar,
    n: usize,
    pts: Seq<SampledPoint>,
) -> bool {
    pts.len() == n && forall|i: int|
        0 <= i < n ==> (#[trigger] pts[i]).x == grid_point(a, b, n, i) && momentum_rel(
            energy,
            mass,
            f,
        )(pts[i].x, pts[i].y.re) && pts[i].y.im == r_zero()
}

/// The WKB form built from the shifted potential value `s = E - U(x)`, the
/// momentum `p` and the phase integral `phi`: oscillatory where `s` is not
/// below zero, decaying where it is.
pub open spec fn wkb_form(c: Cplx, off: Scalar, s: Scalar, p: Scalar, phi: Scalar) -> Cplx {
    if r_le(r_zero(), s) {
        c_scale(r_div(r_cos(r_add(phi, off)), r_sqrt(p)), c)
    } else {
        c_scale(r_div(r_exp(r_neg(r_abs(phi))), r_mul(r_from_u32(2), r_sqrt(p))), c)
    }
}

/// A WKB segment: the configuration, an amplitude, the sampling density of
/// the phase integral, the boundary the segment is anchored at, the
/// reference point its phase integral starts from, and the phase offset.
pub struct WkbWaveFunction<'a, F: Fn(Scalar) -> Scalar> {
    pub phase: Phase<'a, F>,
    pub c: Cplx,
    pub integ_steps: usize,
    pub x_0: Scalar,
    pub x_ref: Scalar,
    pub phase_off: Scalar,
}

/// What one WKB evaluation returns: the WKB form built from a potential
/// value observed at `x`, a momentum value observed at `x`, and the chunked
/// trapezoidal integral of a momentum sampling from the reference to `x`.
pub open spec fn wkb_eval_post<F: Fn(Scalar) -> Scalar>(
    w: WkbWaveFunction<F>,
    x: Scalar,
    r: Cplx,
) -> bool {
    exists|y: Scalar, p: Scalar, pts: Seq<SampledPoint>|
        #![trigger call_ensures(*w.phase.potential, (x,), y), momentum_rel(w.phase.energy, w.phase.mass, *w.phase.potential)(x, p), pts.len()]
        call_ensures(*w.phase.potential, (x,), y) && momentum_rel(
            w.phase.energy,
            w.phase.mass,
            *w.phase.potential,
        )(x, p) && momentum_samples(
            w.phase.energy,
            w.phase.mass,
            *w.phase.potential,
            w.x_ref,
            x,
            w.integ_steps,
            pts,
        ) && r == wkb_form(
            w.c,
            w.phase_off,
            r_sub(w.phase.energy, y),
            p,
            integrate_spec(pts, TRAPEZE_PER_THREAD as int).re,
        )
}

impl<'a, F: Fn(Scalar) -> Scalar> WkbWaveFunction<'a, F> {
    /// A WKB segment over a configuration.
    pub fn new(
        phase: Phase<'a, F>,
        c: Cplx,
        integ_steps: usize,
        x_0: Scalar,
        x_ref: Scalar,
        phase_off: Scalar,
    ) -> (r: Self)
        ensures
            r.phase == phase,
            r.c == c,
            r.integ_steps == integ_steps,
            r.x_0 == x_0,
            r.x_ref == x_ref,
            r.phase_off == phase_off,
    {
        WkbWaveFunction { phase, c, integ_steps, x_0, x_ref, phase_off }
    }

    /// An identical copy of the segment.
    pub fn duplicate(&self) -> (r: Self)
        ensures
            r == *self,
    {
        WkbWaveFunction {
            phase: self.phase.duplicate(),
            c: self.c,
            integ_steps: self.integ_steps,
            x_0: self.x_0,
            x_ref: self.x_ref,
            phase_off: self.phase_off,
        }
    }

    /// The same segment with another amplitude.
    pub fn with_c(&self, c: Cplx) -> (r: Self)
        ensures
            r.phase == self.phase,
            r.c == c,
            r.integ_steps == self.integ_steps,
            r.x_0 == self.x_0,
            r.x_ref == self.x_ref,
            r.phase_off == self.phase_off,
    {
        WkbWaveFunction {
            phase: self.phase.duplicate(),
            c,
            integ_steps: self.integ_steps,
            x_0: self.x_0,
            x_ref: self.x_ref,
            phase_off: self.phase_off,
        }
    }

    /// The orientation of the segment: the sign of the distance from the
    /// reference point to the anchored boundary.
    pub fn get_exp_sign(&self) -> (r: Scalar)
        ensures
            r == r_signum(r_sub(self.x_0, self.x_ref)),
    {
        rsignum(rsub(self.x_0, self.x_ref))
    }

    /// Evaluates the WKB form at `x`.
    pub fn eval(&self, x: Scalar) -> (r: Cplx)
        requires
            self.phase.wf(),
            1 <= self.integ_steps <= u32::MAX,
        ensures
            wkb_eval_post(*self, x, r),
    {
        let energy = self.phase.energy;
        let mass = self.phase.mass;
        let pot = self.phase.potential;
        let ghost mrel = momentum_rel(energy, mass, *pot);
        let mom = |t: Scalar| -> (v: Cplx)
            ensures
                mrel(t, v.re) && v.im == r_zero(),
            { cof(momentum_value(energy, mass, pot, t)) };
        proof {
            assert(forall|t: Scalar| #[trigger] call_requires(mom, (t,)));
        }
        let pts = evaluate_function_between(&mom, self.x_ref, x, self.integ_steps);
        let phi = integrate(&pts, TRAPEZE_PER_THREAD).re;
        let y = pot(x);
        let p = momentum_value(energy, mass, pot, x);
        let s = rsub(energy, y);
        let r = if rle(rzero(), s) {
            cscale(rdiv(rcos(radd(phi, self.phase_off)), rsqrt(p)), self.c)
        } else {
            cscale(rdiv(rexp(rneg(rabs(phi))), rmul(rfrom_u32(2), rsqrt(p))), self.c)
        };
        proof {
            assert(momentum_samples(energy, mass, *pot, self.x_ref, x, self.integ_steps, pts@));
            assert(call_ensures(*pot, (x,), y));
            assert(r == wkb_form(
                self.c,
                self.phase_off,
                r_sub(energy, y),
                p,
                integrate_spec(pts@, TRAPEZE_PER_THREAD as int).re,
            ));
            assert(wkb_eval_post(*self, x, r));
        }
        r
    }
}

} // verus!
