//! The Airy approximant, valid near a classical turning point.
//!
//! The Airy function `Ai` itself comes from a special-function provider
//! handed in by the caller; `Bi` is derived from `Ai` by an exact rotation
//! identity.  Each approximant is anchored at a turning point located by
//! Newton's method inside a bracket of validity-function zeros, with the
//! local potential slope folded into the curvature coefficient.

use vstd::prelude::*;

verus! {

use crate::scalar::{
    Scalar, r_add, r_sub, r_mul, r_div, r_neg, r_abs, r_sqrt, r_exp, r_zero, r_one, r_signum,
    r_powf, r_from_u32,
    radd, rsub, rmul, rdiv, rneg, rabs, rsqrt, rexp, rzero, rone, rsignum, rpowf, rfrom_u32,
};
use crate::cplx::{
    Cplx, c_add, c_sub, c_mul, c_div, c_neg, c_scale, c_cis, c_i, c_one, c_zero,
    cadd, csub, cmul, cdiv, cneg, cscale, ccis, ci, cone, cof,
};
use crate::sample::{SampledPoint, evaluate_function_between};
use crate::integrate::{integrate, integrate_spec};
use crate::wkb::{momentum_rel, momentum_value, momentum_samples, INTEG_STEPS, TRAPEZE_PER_THREAD};
use crate::derivative::{stencil_of, value_rel, derivative};
use crate::roots::{
    FatalError, newton_found_rel, newton_gave_up_rel, newtons_method, lemma_found_mono,
    lemma_gave_up_mono,
};
use crate::turning::{
    TGroup, valid_pair, calc_ts, turning_precision, shifted_potential_rel, shifted_value,
    detection_failure, found_zeros, grouping_outcome,
};
use crate::wkb::Phase;

/// The rotation `exp(2 i pi / 3)` used by the `Bi` identity:
/// `(-1/2, sqrt(3)/2)`.
pub open spec fn bi_rotation() -> Cplx {
    Cplx {
        re: r_neg(r_div(r_one(), r_from_u32(2))),
        im: r_div(r_sqrt(r_from_u32(3)), r_from_u32(2)),
    }
}

/// The factor `exp(i pi / 6)` used by the `Bi` identity:
/// `(sqrt(3)/2, 1/2)`.
pub open spec fn bi_factor() -> Cplx {
    Cplx {
        re: r_div(r_sqrt(r_from_u32(3)), r_from_u32(2)),
        im: r_div(r_one(), r_from_u32(2)),
    }
}

/// What the derived `Bi` returns at `x`: the rotation identity applied to
/// two values the provider returned, one at `x` and one at the rotated
/// argument.
pub open spec fn bi_post<A: Fn(Cplx) -> Cplx>(ai: A, x: Cplx, r: Cplx) -> bool {
    exists|a1: Cplx, a2: Cplx|
        #![trigger call_ensures(ai, (x,), a1), call_ensures(ai, (c_mul(x, bi_rotation()),), a2)]
        call_ensures(ai, (x,), a1) && call_ensures(ai, (c_mul(x, bi_rotation()),), a2) && r
            == c_add(c_mul(c_neg(c_i()), a1), c_mul(c_scale(r_from_u32(2), a2), bi_factor()))
}

/// The Airy function of the second kind, derived from the provider's `Ai` by
/// the exact identity `Bi(z) = -i Ai(z) + 2 Ai(z exp(2 i pi / 3)) exp(i pi / 6)`.
#[allow(non_snake_case)]
pub fn Bi<A: Fn(Cplx) -> Cplx>(ai: &A, x: Cplx) -> (r: Cplx)
    requires
        forall|t: Cplx| #[trigger] call_requires(*ai, (t,)),
    ensures
        bi_post(*ai, x, r),
{
    let two = rfrom_u32(2);
    let three = rfrom_u32(3);
    let rot = Cplx { re: rneg(rdiv(rone(), two)), im: rdiv(rsqrt(three), two) };
    let fac = Cplx { re: rdiv(rsqrt(three), two), im: rdiv(rone(), two) };
    let a1 = ai(x);
    let a2 = ai(cmul(x, rot));
    let r = cadd(cmul(cneg(ci()), a1), cmul(cscale(two, a2), fac));
    proof {
        assert(rot == bi_rotation() && fac == bi_factor());
        assert(call_ensures(*ai, (x,), a1) && call_ensures(*ai, (c_mul(x, bi_rotation()),), a2)
            && r == c_add(
            c_mul(c_neg(c_i()), a1),
            c_mul(c_scale(r_from_u32(2), a2), bi_factor()),
        ));
        assert(bi_post(*ai, x, r));
    }
    r
}

/// The signed cube root of the curvature coefficient:
/// `signum(u) * |u|^(1/3)`.
pub open spec fn u_1_cube_root(u: Scalar) -> Scalar {
    r_mul(r_signum(u), r_powf(r_abs(u), r_div(r_one(), r_from_u32(3))))
}

/// The closed-form matching coefficients: the 2-by-2 linear system equating
/// the Airy and WKB representations at the two validity-boundary points,
/// solved Cramer's-rule style with the determinant `Ai1 Bi2 - Ai2 Bi1`.
pub open spec fn cramer_spec(
    ai1: Cplx,
    bi1: Cplx,
    ai2: Cplx,
    bi2: Cplx,
    wp1: Scalar,
    wm1: Scalar,
    wp2: Scalar,
    wm2: Scalar,
    c_wkb: (Scalar, Scalar),
) -> (Cplx, Cplx) {
    let det = c_sub(c_mul(ai1, bi2), c_mul(ai2, bi1));
    let c_a = c_sub(
        c_div(c_scale(r_neg(c_wkb.1), c_sub(c_scale(wm2, bi1), c_scale(wm1, bi2))), det),
        c_div(c_scale(c_wkb.0, c_sub(c_scale(wp2, bi1), c_scale(wp1, bi2))), det),
    );
    let c_b = c_add(
        c_div(c_scale(c_wkb.1, c_sub(c_scale(wm2, ai1), c_scale(wm1, ai2))), det),
        c_div(c_scale(c_wkb.0, c_sub(c_scale(wp2, ai1), c_scale(wp1, ai2))), det),
    );
    (c_a, c_b)
}

/// Solves the matching system for given Airy values and WKB amplitudes.
pub fn cramer_coefficients(
    ai1: Cplx,
    bi1: Cplx,
    ai2: Cplx,
    bi2: Cplx,
    wp1: Scalar,
    wm1: Scalar,
    wp2: Scalar,
    wm2: Scalar,
    c_wkb: (Scalar, Scalar),
) -> (r: (Cplx, Cplx))
    ensures
        r == cramer_spec(ai1, bi1, ai2, bi2, wp1, wm1, wp2, wm2, c_wkb),
{
    let det = csub(cmul(ai1, bi2), cmul(ai2, bi1));
    let c_a = csub(
        cdiv(cscale(rneg(c_wkb.1), csub(cscale(wm2, bi1), cscale(wm1, bi2))), det),
        cdiv(cscale(c_wkb.0, csub(cscale(wp2, bi1), cscale(wp1, bi2))), det),
    );
    let c_b = cadd(
        cdiv(cscale(c_wkb.1, csub(cscale(wm2, ai1), cscale(wm1, ai2))), det),
        cdiv(cscale(c_wkb.0, csub(cscale(wp2, ai1), cscale(wp1, ai2))), det),
    );
    (c_a, c_b)
}

/// The growing WKB amplitude at a boundary: `exp(phi) / sqrt(p)`.
pub open spec fn wkb_amp_plus(phi: Scalar, p: Scalar) -> Scalar {
    r_div(r_exp(phi), r_sqrt(p))
}

/// The decaying WKB amplitude at a boundary: `exp(-phi) / sqrt(p)`.
pub open spec fn wkb_amp_minus(phi: Scalar, p: Scalar) -> Scalar {
    r_div(r_exp(r_neg(phi)), r_sqrt(p))
}

/// The argument the Airy provider is asked at a boundary point `t` of the
/// bracket around the turning point `x_1`.
pub open spec fn airy_argument(u_1: Scalar, t: Scalar, x_1: Scalar) -> Cplx {
    Cplx { re: r_mul(u_1_cube_root(u_1), r_sub(t, x_1)), im: r_zero() }
}

/// What the boundary-matching computation returns: Airy values observed at
/// the two boundary arguments, momentum samplings of the two phase integrals
/// from the reference point, momentum values observed at the boundaries, and
/// the Cramer combination of all of them.
pub open spec fn matching_post<F: Fn(Scalar) -> Scalar, A: Fn(Cplx) -> Cplx>(
    energy: Scalar,
    mass: Scalar,
    f: F,
    ai: A,
    t: (Scalar, Scalar),
    c_wkb: (Scalar, Scalar),
    u_1: Scalar,
    x_1: Scalar,
    x_0: Scalar,
    r: (Cplx, Cplx),
) -> bool {
    exists|
        ai1: Cplx,
        bi1: Cplx,
        ai2: Cplx,
        bi2: Cplx,
        p1: Scalar,
        p2: Scalar,
        pts1: Seq<SampledPoint>,
        pts2: Seq<SampledPoint>,
    |
        #![trigger call_ensures(ai, (airy_argument(u_1, t.0, x_1),), ai1),
            bi_post(ai, airy_argument(u_1, t.0, x_1), bi1),
            call_ensures(ai, (airy_argument(u_1, t.1, x_1),), ai2),
            bi_post(ai, airy_argument(u_1, t.1, x_1), bi2),
            momentum_rel(energy, mass, f)(t.0, p1), momentum_rel(energy, mass, f)(t.1, p2),
            pts1.len(), pts2.len()]
        call_ensures(ai, (airy_argument(u_1, t.0, x_1),), ai1) && bi_post(
            ai,
            airy_argument(u_1, t.0, x_1),
            bi1,
        ) && call_ensures(ai, (airy_argument(u_1, t.1, x_1),), ai2) && bi_post(
            ai,
            airy_argument(u_1, t.1, x_1),
            bi2,
        ) && momentum_rel(energy, mass, f)(t.0, p1) && momentum_rel(energy, mass, f)(t.1, p2)
            && momentum_samples(energy, mass, f, x_0, t.0, INTEG_STEPS, pts1) && momentum_samples(
            energy,
            mass,
            f,
            x_0,
            t.1,
            INTEG_STEPS,
            pts2,
        ) && r == cramer_spec(
            ai1,
            bi1,
            ai2,
            bi2,
            wkb_amp_plus(integrate_spec(pts1, TRAPEZE_PER_THREAD as int).re, p1),
            wkb_amp_minus(integrate_spec(pts1, TRAPEZE_PER_THREAD as int).re, p1),
            wkb_amp_plus(integrate_spec(pts2, TRAPEZE_PER_THREAD as int).re, p2),
            wkb_amp_minus(integrate_spec(pts2, TRAPEZE_PER_THREAD as int).re, p2),
            c_wkb,
        )
}

/// An Airy approximant: the provider of `Ai`, an amplitude, the curvature
/// coefficient at the turning point, the turning point itself, the phase
/// offset, and the bracket of validity-function zeros it patches.
pub struct AiryWaveFunction<'a, A: Fn(Cplx) -> Cplx> {
    pub ai: &'a A,
    pub c: Cplx,
    pub u_1: Scalar,
    pub turning_point: Scalar,
    pub phase_off: Scalar,
    pub ts: (Scalar, Scalar),
}

/// How an Airy approximant's anchor data stands to the turning-point bracket
/// it was built from, whatever its amplitude: its bracket is the pair, its
/// curvature coefficient is `2 m` times the negated potential slope estimated
/// at its turning point, and the turning point was reached by a converged
/// Newton run on `U - E` seeded at the bracket's middle.
pub open spec fn airy_anchored<F: Fn(Scalar) -> Scalar, A: Fn(Cplx) -> Cplx>(
    energy: Scalar,
    mass: Scalar,
    f: F,
    pair: (Scalar, Scalar),
    a: AiryWaveFunction<A>,
) -> bool {
    a.ts == pair && (exists|d: Scalar|
        #[trigger] stencil_of(value_rel(f), a.turning_point, d) && a.u_1 == r_mul(
            r_mul(r_from_u32(2), mass),
            r_neg(d),
        )) && newton_found_rel(
        shifted_potential_rel(energy, f),
        turning_precision(),
        r_div(r_add(pair.0, pair.1), r_from_u32(2)),
        a.turning_point,
    )
}

/// A freshly built Airy approximant: anchored to its bracket, with the unit
/// amplitude.
pub open spec fn airy_from_pair<F: Fn(Scalar) -> Scalar, A: Fn(Cplx) -> Cplx>(
    energy: Scalar,
    mass: Scalar,
    f: F,
    pair: (Scalar, Scalar),
    a: AiryWaveFunction<A>,
) -> bool {
    airy_anchored(energy, mass, f, pair, a) && a.c == c_one()
}

/// What one Airy evaluation returns: the prefactor `sqrt(pi) / |u|^(1/6)`
/// times a value the provider returned for `cbrt(u) (tp - x)`, rotated by
/// `cis(signum(u) ((tp - x) - off))`.
pub open spec fn airy_eval_post<A: Fn(Cplx) -> Cplx>(
    a: AiryWaveFunction<A>,
    x: Scalar,
    r: Cplx,
) -> bool {
    exists|av: Cplx|
        #[trigger] call_ensures(
            *a.ai,
            (Cplx { re: r_mul(u_1_cube_root(a.u_1), r_sub(a.turning_point, x)), im: r_zero() },),
            av,
        ) && r == c_mul(
            c_scale(
                r_div(
                    r_sqrt(pi_spec()),
                    r_powf(r_abs(a.u_1), r_div(r_one(), r_from_u32(6))),
                ),
                av,
            ),
            c_cis(r_mul(r_signum(a.u_1), r_sub(r_sub(a.turning_point, x), a.phase_off))),
        )
}

/// The double nearest to pi, put together exactly from its mantissa:
/// `(1647099 * 2^32 + 1413754136) / 2^51`.
pub open spec fn pi_spec() -> Scalar {
    r_div(
        r_add(
            r_mul(r_from_u32(1647099), r_mul(r_from_u32(65536), r_from_u32(65536))),
            r_from_u32(1413754136),
        ),
        r_mul(r_from_u32(67108864), r_from_u32(33554432)),
    )
}

/// The double nearest to pi, as executable code; every step of the mantissa
/// arithmetic is exact.
pub fn pi_value() -> (r: Scalar)
    ensures
        r == pi_spec(),
{
    rdiv(
        radd(
            rmul(rfrom_u32(1647099), rmul(rfrom_u32(65536), rfrom_u32(65536))),
            rfrom_u32(1413754136),
        ),
        rmul(rfrom_u32(67108864), rfrom_u32(33554432)),
    )
}

impl<'a, A: Fn(Cplx) -> Cplx> AiryWaveFunction<'a, A> {
    /// The signed cube root of the curvature coefficient.
    pub fn get_u_1_cube_root(u_1: Scalar) -> (r: Scalar)
        ensures
            r == u_1_cube_root(u_1),
    {
        rmul(rsignum(u_1), rpowf(rabs(u_1), rdiv(rone(), rfrom_u32(3))))
    }

    /// An identical copy of the approximant.
    pub fn duplicate(&self) -> (r: Self)
        ensures
            r == *self,
    {
        AiryWaveFunction {
            ai: self.ai,
            c: self.c,
            u_1: self.u_1,
            turning_point: self.turning_point,
            phase_off: self.phase_off,
            ts: self.ts,
        }
    }

    /// The same approximant with another amplitude.
    pub fn with_c(&self, c: Cplx) -> (r: Self)
        ensures
            r == (AiryWaveFunction { c, ..*self }),
    {
        AiryWaveFunction {
            ai: self.ai,
            c,
            u_1: self.u_1,
            turning_point: self.turning_point,
            phase_off: self.phase_off,
            ts: self.ts,
        }
    }

    /// Builds one Airy approximant per turning-point bracket found in the
    /// view, along with the brackets themselves.
    pub fn new<'b, F: Fn(Scalar) -> Scalar + Sync>(
        phase: &Phase<'b, F>,
        view: (Scalar, Scalar),
        ai: &'a A,
    ) -> (r: Result<(Vec<Self>, TGroup), FatalError>)
        requires
            phase.wf(),
        ensures
            match r {
                Ok((funcs, tg)) => {
                    &&& funcs@.len() == tg.ts@.len()
                    &&& forall|i: int|
                        0 <= i < tg.ts@.len() ==> valid_pair(
                            phase.energy,
                            phase.mass,
                            *phase.potential,
                            #[trigger] tg.ts@[i],
                        )
                    &&& forall|i: int|
                        0 <= i < funcs@.len() ==> airy_from_pair(
                            phase.energy,
                            phase.mass,
                            *phase.potential,
                            tg.ts@[i].0,
                            #[trigger] funcs@[i],
                        ) && funcs@[i].phase_off == phase.phase_off && funcs@[i].ai == ai
                    &&& exists|zs: Seq<Scalar>|
                        #[trigger] found_zeros(
                            phase.energy,
                            phase.mass,
                            *phase.potential,
                            view,
                            zs,
                        ) && grouping_outcome(
                            phase.energy,
                            phase.mass,
                            *phase.potential,
                            zs,
                            tg.ts@,
                        )
                },
                Err(e) => detection_failure(phase.energy, phase.mass, *phase.potential, e),
            },
    {
        let energy = phase.energy;
        let mass = phase.mass;
        let pot = phase.potential;
        let ghost srel = shifted_potential_rel(energy, *pot);
        let shifted = |x: Scalar| -> (v: Scalar)
            ensures
                shifted_potential_rel(energy, *pot)(x, v),
            { shifted_value(energy, pot, x) };
        proof {
            assert(forall|t: Scalar, v: Scalar| #[trigger]
                call_ensures(shifted, (t,), v) ==> srel(t, v));
            assert(forall|t: Scalar| #[trigger] call_requires(shifted, (t,)));
        }
        let boundaries = match calc_ts(phase, view) {
            Ok(tg) => tg,
            Err(e) => {
                return Err(e);
            },
        };
        let prec = rdiv(rone(), rfrom_u32(10000000));
        let mut funcs: Vec<Self> = Vec::new();
        let n = boundaries.ts.len();
        let mut i: usize = 0;
        while i < n
            invariant
                i <= n,
                n == boundaries.ts@.len(),
                phase.wf(),
                energy == phase.energy,
                mass == phase.mass,
                pot == phase.potential,
                srel == shifted_potential_rel(energy, *pot),
                forall|t: Scalar, v: Scalar| #[trigger]
                    call_ensures(shifted, (t,), v) ==> srel(t, v),
                forall|t: Scalar| #[trigger] call_requires(shifted, (t,)),
                prec == turning_precision(),
                funcs@.len() == i,
                forall|j: int|
                    0 <= j < i ==> airy_from_pair(
                        energy,
                        mass,
                        *pot,
                        boundaries.ts@[j].0,
                        #[trigger] funcs@[j],
                    ) && funcs@[j].phase_off == phase.phase_off && funcs@[j].ai == ai,
            decreases n - i,
        {
            let ((t1, t2), _stored) = boundaries.ts[i];
            let mid = rdiv(radd(t1, t2), rfrom_u32(2));
            let x_1 = match newtons_method(&shifted, mid, prec) {
                Ok(t) => t,
                Err(e) => {
                    proof {
                        lemma_gave_up_mono(value_rel(shifted), srel, prec, mid, usize::MAX as nat);
                        assert(newton_gave_up_rel(
                            shifted_potential_rel(energy, *pot),
                            turning_precision(),
                            mid,
                            usize::MAX as nat,
                        ));
                        assert(detection_failure(energy, mass, *pot, FatalError::ZeroDerivative));
                    }
                    return Err(e);
                },
            };
            let d = derivative(pot, x_1);
            let u_1 = rmul(rmul(rfrom_u32(2), mass), rneg(d));
            let a = AiryWaveFunction {
                ai,
                c: cone(),
                u_1,
                turning_point: x_1,
                phase_off: phase.phase_off,
                ts: (t1, t2),
            };
            proof {
                lemma_found_mono(value_rel(shifted), srel, prec, mid, x_1);
                assert(stencil_of(value_rel(*pot), x_1, d) && u_1 == r_mul(
                    r_mul(r_from_u32(2), mass),
                    r_neg(d),
                ));
                assert(newton_found_rel(
                    shifted_potential_rel(energy, *pot),
                    turning_precision(),
                    r_div(r_add(t1, t2), r_from_u32(2)),
                    x_1,
                ));
                assert(airy_from_pair(energy, mass, *pot, (t1, t2), a));
                assert(boundaries.ts@[i as int].0 == (t1, t2));
            }
            funcs.push(a);
            i += 1;
        }
        Ok((funcs, boundaries))
    }

    /// The matching coefficients between the WKB and Airy representations at the
    /// bracket `t` around the turning point `x_1`: the WKB amplitudes are built
    /// from phase integrals starting at the reference point `x_0`, the Airy
    /// values from the provider, and the two coefficients come out of the
    /// Cramer's-rule closed form — a documented alternative to locating the
    /// matching iteratively.
    pub fn calc_c_a_and_c_b<'b, F: Fn(Scalar) -> Scalar>(
        phase: &Phase<'b, F>,
        t: (Scalar, Scalar),
        c_wkb: (Scalar, Scalar),
        u_1: Scalar,
        x_1: Scalar,
        x_0: Scalar,
        ai: &A,
    ) -> (r: (Cplx, Cplx))
        requires
            phase.wf(),
            forall|z: Cplx| #[trigger] call_requires(*ai, (z,)),
        ensures
            matching_post(
                phase.energy,
                phase.mass,
                *phase.potential,
                *ai,
                t,
                c_wkb,
                u_1,
                x_1,
                x_0,
                r,
            ),
    {
        let energy = phase.energy;
        let mass = phase.mass;
        let pot = phase.potential;
        let ghost mrel = momentum_rel(energy, mass, *pot);
        let mom = |s: Scalar| -> (v: Cplx)
            ensures
                mrel(s, v.re) && v.im == r_zero(),
            { cof(momentum_value(energy, mass, pot, s)) };
        proof {
            assert(forall|s: Scalar| #[trigger] call_requires(mom, (s,)));
        }
        let pts1 = evaluate_function_between(&mom, x_0, t.0, INTEG_STEPS);
        let pts2 = evaluate_function_between(&mom, x_0, t.1, INTEG_STEPS);
        let phi1 = integrate(&pts1, TRAPEZE_PER_THREAD).re;
        let phi2 = integrate(&pts2, TRAPEZE_PER_THREAD).re;
        let p1 = momentum_value(energy, mass, pot, t.0);
        let p2 = momentum_value(energy, mass, pot, t.1);
        let wp1 = rdiv(rexp(phi1), rsqrt(p1));
        let wm1 = rdiv(rexp(rneg(phi1)), rsqrt(p1));
        let wp2 = rdiv(rexp(phi2), rsqrt(p2));
        let wm2 = rdiv(rexp(rneg(phi2)), rsqrt(p2));

        let cbrt = Self::get_u_1_cube_root(u_1);
        let arg1 = Cplx { re: rmul(cbrt, rsub(t.0, x_1)), im: rzero() };
        let arg2 = Cplx { re: rmul(cbrt, rsub(t.1, x_1)), im: rzero() };
        let ai1 = ai(arg1);
        let bi1 = Bi(ai, arg1);
        let ai2 = ai(arg2);
        let bi2 = Bi(ai, arg2);

        let r = cramer_coefficients(ai1, bi1, ai2, bi2, wp1, wm1, wp2, wm2, c_wkb);
        proof {
            assert(arg1 == airy_argument(u_1, t.0, x_1));
            assert(arg2 == airy_argument(u_1, t.1, x_1));
            assert(momentum_samples(energy, mass, *pot, x_0, t.0, INTEG_STEPS, pts1@));
            assert(momentum_samples(energy, mass, *pot, x_0, t.1, INTEG_STEPS, pts2@));
            assert(wp1 == wkb_amp_plus(integrate_spec(pts1@, TRAPEZE_PER_THREAD as int).re, p1));
            assert(matching_post(
                energy,
                mass,
                *pot,
                *ai,
                t,
                c_wkb,
                u_1,
                x_1,
                x_0,
                r,
            ));
        }
        r
    }

    /// Evaluates the Airy form at `x`.
    pub fn eval(&self, x: Scalar) -> (r: Cplx)
        requires
            forall|t: Cplx| #[trigger] call_requires(*self.ai, (t,)),
        ensures
            airy_eval_post(*self, x, r),
    {
        let cbrt = Self::get_u_1_cube_root(self.u_1);
        let arg = Cplx { re: rmul(cbrt, rsub(self.turning_point, x)), im: rzero() };
        let av = (self.ai)(arg);
        let pref = rdiv(rsqrt(pi_value()), rpowf(rabs(self.u_1), rdiv(rone(), rfrom_u32(6))));
        let theta = rmul(rsignum(self.u_1), rsub(rsub(self.turning_point, x), self.phase_off));
        let r = cmul(cscale(pref, av), ccis(theta));
        proof {
            assert(call_ensures(
                *self.ai,
                (
                    Cplx {
                        re: r_mul(u_1_cube_root(self.u_1), r_sub(self.turning_point, x)),
                        im: r_zero(),
                    },
                ),
                av,
            ));
            assert(airy_eval_post(*self, x, r));
        }
        r
    }
}

} // verus!
