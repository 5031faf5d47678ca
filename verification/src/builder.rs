//! The wavefunction assembler: piecewise composition of WKB segments, Airy
//! segments and smooth joints, with global renormalization.
//!
//! The part types carry no output transform: on every evaluation path of the
//! assembler the transform would be the identity, so the segments hand their
//! values out untouched and any post-processing is the caller's.

use vstd::prelude::*;

verus! {

use crate::scalar::{
    Scalar, r_add, r_sub, r_mul, r_div, r_neg, r_abs, r_sqrt, r_exp, r_sin, r_zero, r_one, r_eq,
    r_lt, r_le, r_signum, r_powi, r_max, r_min, r_from_u32,
    radd, rsub, rmul, rdiv, rneg, rabs, rsqrt, rexp, rsin, rzero, rone, req, rlt, rle, rsignum,
    rpowi, rmax, rmin, rfrom_u32,
};
use crate::cplx::{
    Cplx, c_add, c_sub, c_mul, c_scale, c_of, c_norm_sqr, c_zero, c_one,
    cadd, csub, cmul, cscale, cof, cnorm_sqr, czero, cone,
};
use crate::in_range_spec;
use crate::is_in_range;
use crate::airy::{AiryWaveFunction, airy_eval_post, pi_spec, pi_value};
use crate::wkb::{WkbWaveFunction, Phase, wkb_eval_post, INTEG_STEPS, TRAPEZE_PER_THREAD};
use crate::sample::{SampledPoint, evaluate_function_between, grid_point};
use crate::integrate::{integrate, integrate_spec};
use crate::roots::FatalError;
use crate::derivative::{stencil_of, value_rel};
use crate::turning::{valid_pair, detection_failure};
use crate::airy::{airy_from_pair, airy_anchored};

/// How the assembled wavefunction is scaled: by a fixed factor, by the
/// factor that makes the squared-magnitude integral one, or not at all.
pub enum ScalingType {
    Mul(Cplx),
    Renormalize(Cplx),
    Unscaled,
}

/// Whether two scalars carry the same sign.
pub open spec fn sign_match_spec(f1: Scalar, f2: Scalar) -> bool {
    r_eq(r_signum(f1), r_signum(f2))
}

/// Whether two scalars carry the same sign, as executable code; the
/// comparison is symmetric, so the result decides both orientations.
pub fn sign_match(f1: Scalar, f2: Scalar) -> (r: bool)
    ensures
        r == sign_match_spec(f1, f2),
        r == sign_match_spec(f2, f1),
{
    req(rsignum(f1), rsignum(f2))
}

/// A complex value with the strictly smaller of its two components' absolute
/// values zeroed: first the real part where it is smaller, then the
/// imaginary part where it is smaller than what the real part has become.
pub open spec fn dominant_part(c: Cplx) -> Cplx {
    let c1 = if r_lt(r_abs(c.re), r_abs(c.im)) {
        Cplx { re: r_zero(), im: c.im }
    } else {
        c
    };
    if r_lt(r_abs(c1.im), r_abs(c1.re)) {
        Cplx { re: c1.re, im: r_zero() }
    } else {
        c1
    }
}

/// Whether two complex values carry the same sign pattern once each is
/// reduced to its dominant components.
pub open spec fn sign_match_complex_spec(c1: Cplx, c2: Cplx) -> bool {
    sign_match_spec(dominant_part(c1).re, dominant_part(c2).re) && sign_match_spec(
        dominant_part(c1).im,
        dominant_part(c2).im,
    )
}

/// Whether two complex values carry the same sign pattern on their dominant
/// components.  The test is symmetric in its arguments: the result decides
/// the specification in both orientations, so two swapped calls agree.
pub fn sign_match_complex(c1: Cplx, c2: Cplx) -> (r: bool)
    ensures
        r == sign_match_complex_spec(c1, c2),
        r == sign_match_complex_spec(c2, c1),
{
    let mut a = c1;
    let mut b = c2;
    if rlt(rabs(a.re), rabs(a.im)) {
        a = Cplx { re: rzero(), im: a.im };
    }
    if rlt(rabs(a.im), rabs(a.re)) {
        a = Cplx { re: a.re, im: rzero() };
    }
    if rlt(rabs(b.re), rabs(b.im)) {
        b = Cplx { re: rzero(), im: b.im };
    }
    if rlt(rabs(b.im), rabs(b.re)) {
        b = Cplx { re: b.re, im: rzero() };
    }
    proof {
        assert(a == dominant_part(c1));
        assert(b == dominant_part(c2));
    }
    sign_match(a.re, b.re) && sign_match(a.im, b.im)
}

/// One side of a joint: a WKB segment or an Airy segment.
pub enum Side<'a, F: Fn(Scalar) -> Scalar, A: Fn(Cplx) -> Cplx> {
    Wkb(WkbWaveFunction<'a, F>),
    Airy(AiryWaveFunction<'a, A>),
}

impl<'a, F: Fn(Scalar) -> Scalar, A: Fn(Cplx) -> Cplx> Side<'a, F, A> {
    /// A side is usable when its underlying functions accept every input.
    pub open spec fn wf(&self) -> bool {
        match self {
            Side::Wkb(w) => w.phase.wf() && 1 <= w.integ_steps <= u32::MAX,
            Side::Airy(a) => forall|t: Cplx| #[trigger] call_requires(*a.ai, (t,)),
        }
    }

    /// An identical copy of the side.
    pub fn duplicate(&self) -> (r: Self)
        ensures
            r == *self,
    {
        match self {
            Side::Wkb(w) => Side::Wkb(w.duplicate()),
            Side::Airy(a) => Side::Airy(a.duplicate()),
        }
    }

    /// Evaluates the side's approximant at `x`.
    pub fn eval(&self, x: Scalar) -> (r: Cplx)
        requires
            self.wf(),
        ensures
            side_eval_post(*self, x, r),
    {
        match self {
            Side::Wkb(w) => w.eval(x),
            Side::Airy(a) => a.eval(x),
        }
    }
}

/// What one side evaluation returns.
pub open spec fn side_eval_post<F: Fn(Scalar) -> Scalar, A: Fn(Cplx) -> Cplx>(
    s: Side<F, A>,
    x: Scalar,
    r: Cplx,
) -> bool {
    match s {
        Side::Wkb(w) => wkb_eval_post(w, x, r),
        Side::Airy(a) => airy_eval_post(a, x, r),
    }
}

/// The smooth step `sin(t pi / 2)^2` of the blending, rising from zero at
/// `t = 0` to one at `t = 1`.
pub open spec fn chi_spec(t: Scalar) -> Scalar {
    r_powi(r_sin(r_div(r_mul(t, pi_spec()), r_from_u32(2))), 2)
}

/// A joint: a smooth blend between two approximants over a transition band
/// anchored at `cut`, whose signed width `delta` tells which side enters and
/// which leaves.
pub struct Joint<'a, F: Fn(Scalar) -> Scalar, A: Fn(Cplx) -> Cplx> {
    pub left: Side<'a, F, A>,
    pub right: Side<'a, F, A>,
    pub cut: Scalar,
    pub delta: Scalar,
}

/// The band a joint covers: from the cut in the direction of the signed
/// width.
pub open spec fn joint_range<F: Fn(Scalar) -> Scalar, A: Fn(Cplx) -> Cplx>(
    j: Joint<F, A>,
) -> (Scalar, Scalar) {
    if r_lt(r_zero(), j.delta) {
        (j.cut, r_add(j.cut, j.delta))
    } else {
        (r_add(j.cut, j.delta), j.cut)
    }
}

/// The side whose band the point enters from: the left one for a rightward
/// band, else the right one.
pub open spec fn joint_enter<F: Fn(Scalar) -> Scalar, A: Fn(Cplx) -> Cplx>(
    j: Joint<F, A>,
) -> Side<F, A> {
    if r_lt(r_zero(), j.delta) {
        j.left
    } else {
        j.right
    }
}

/// The side the band exits into.
pub open spec fn joint_exit<F: Fn(Scalar) -> Scalar, A: Fn(Cplx) -> Cplx>(
    j: Joint<F, A>,
) -> Side<F, A> {
    if r_lt(r_zero(), j.delta) {
        j.right
    } else {
        j.left
    }
}

/// What one joint evaluation returns: values of the entering and exiting
/// sides, blended by the smooth step of the distance from the cut, measured
/// in units of the band's width.
pub open spec fn joint_eval_post<F: Fn(Scalar) -> Scalar, A: Fn(Cplx) -> Cplx>(
    j: Joint<F, A>,
    x: Scalar,
    r: Cplx,
) -> bool {
    exists|lv: Cplx, rv: Cplx|
        #![trigger side_eval_post(joint_enter(j), x, lv), side_eval_post(joint_exit(j), x, rv)]
        side_eval_post(joint_enter(j), x, lv) && side_eval_post(joint_exit(j), x, rv) && r
            == c_add(lv, c_scale(chi_spec(r_div(r_sub(x, j.cut), r_abs(j.delta))), c_sub(rv, lv)))
}

impl<'a, F: Fn(Scalar) -> Scalar, A: Fn(Cplx) -> Cplx> Joint<'a, F, A> {
    /// A joint is usable when both its sides are.
    pub open spec fn wf(&self) -> bool {
        self.left.wf() && self.right.wf()
    }

    /// An identical copy of the joint.
    pub fn duplicate(&self) -> (r: Self)
        ensures
            r == *self,
    {
        Joint {
            left: self.left.duplicate(),
            right: self.right.duplicate(),
            cut: self.cut,
            delta: self.delta,
        }
    }

    /// The band the joint covers.
    pub fn range(&self) -> (r: (Scalar, Scalar))
        ensures
            r == joint_range(*self),
    {
        if rlt(rzero(), self.delta) {
            (self.cut, radd(self.cut, self.delta))
        } else {
            (radd(self.cut, self.delta), self.cut)
        }
    }

    /// Evaluates the blend at `x`.
    pub fn eval(&self, x: Scalar) -> (r: Cplx)
        requires
            self.wf(),
        ensures
            joint_eval_post(*self, x, r),
    {
        let (enter, exit) = if rlt(rzero(), self.delta) {
            (&self.left, &self.right)
        } else {
            (&self.right, &self.left)
        };
        let delta = rabs(self.delta);
        let t = rdiv(rsub(x, self.cut), delta);
        let chi = rpowi(rsin(rdiv(rmul(t, pi_value()), rfrom_u32(2))), 2);
        let lv = enter.eval(x);
        let rv = exit.eval(x);
        let r = cadd(lv, cscale(chi, csub(rv, lv)));
        proof {
            assert(chi == chi_spec(r_div(r_sub(x, self.cut), r_abs(self.delta))));
            assert(joint_eval_post(*self, x, r));
        }
        r
    }
}

/// The fraction of a turning-point bracket's width that each transition
/// band takes.
pub open spec fn airy_transition_fraction() -> Scalar {
    r_div(r_one(), r_from_u32(2))
}

/// Whether the smooth joints around each Airy segment are evaluated.
pub const ENABLE_AIRY_JOINTS: bool = true;

/// A pure WKB segment tagged with its validity range.
pub struct PureWkb<'a, F: Fn(Scalar) -> Scalar> {
    pub wkb: WkbWaveFunction<'a, F>,
    pub range: (Scalar, Scalar),
}

impl<'a, F: Fn(Scalar) -> Scalar> PureWkb<'a, F> {
    /// The segment is usable when its underlying functions accept every
    /// input.
    pub open spec fn wf(&self) -> bool {
        self.wkb.phase.wf() && 1 <= self.wkb.integ_steps <= u32::MAX
    }

    /// The segment's validity range.
    pub fn range(&self) -> (r: (Scalar, Scalar))
        ensures
            r == self.range,
    {
        self.range
    }

    /// Evaluates the WKB form at `x`.
    pub fn eval(&self, x: Scalar) -> (r: Cplx)
        requires
            self.wf(),
        ensures
            wkb_eval_post(self.wkb, x, r),
    {
        self.wkb.eval(x)
    }
}

/// A patched segment around one turning point: the Airy approximant, the
/// WKB approximant it corrects, the two joints bridging them on either side
/// of the Airy bracket, and the segment's validity range.
pub struct ApproxPart<'a, F: Fn(Scalar) -> Scalar, A: Fn(Cplx) -> Cplx> {
    pub airy: AiryWaveFunction<'a, A>,
    pub wkb: WkbWaveFunction<'a, F>,
    pub airy_join_l: Joint<'a, F, A>,
    pub airy_join_r: Joint<'a, F, A>,
    pub range: (Scalar, Scalar),
}

/// How a patched segment is assembled from its two approximants: the
/// transition bands take half the bracket's width, centred just inside the
/// bracket's ends, entering the Airy segment from the left and leaving it to
/// the right.
pub open spec fn approx_part_built<F: Fn(Scalar) -> Scalar, A: Fn(Cplx) -> Cplx>(
    p: ApproxPart<F, A>,
    airy: AiryWaveFunction<A>,
    wkb: WkbWaveFunction<F>,
    range: (Scalar, Scalar),
) -> bool {
    let delta = r_mul(r_sub(airy.ts.1, airy.ts.0), airy_transition_fraction());
    &&& p.airy == airy
    &&& p.wkb == wkb
    &&& p.range == range
    &&& p.airy_join_l == (Joint {
        left: Side::<F, A>::Wkb(wkb),
        right: Side::<F, A>::Airy(airy),
        cut: r_add(airy.ts.0, r_div(delta, r_from_u32(2))),
        delta: r_neg(delta),
    })
    &&& p.airy_join_r == (Joint {
        left: Side::<F, A>::Airy(airy),
        right: Side::<F, A>::Wkb(wkb),
        cut: r_sub(airy.ts.1, r_div(delta, r_from_u32(2))),
        delta,
    })
}

/// What one patched-segment evaluation returns: the left joint's blend on
/// its band, then the right joint's, then the Airy form on the bracket, and
/// the WKB form everywhere else.
pub open spec fn approx_eval_post<F: Fn(Scalar) -> Scalar, A: Fn(Cplx) -> Cplx>(
    p: ApproxPart<F, A>,
    x: Scalar,
    r: Cplx,
) -> bool {
    if in_range_spec(joint_range(p.airy_join_l), x) {
        joint_eval_post(p.airy_join_l, x, r)
    } else if in_range_spec(joint_range(p.airy_join_r), x) {
        joint_eval_post(p.airy_join_r, x, r)
    } else if in_range_spec(p.airy.ts, x) {
        airy_eval_post(p.airy, x, r)
    } else {
        wkb_eval_post(p.wkb, x, r)
    }
}

impl<'a, F: Fn(Scalar) -> Scalar, A: Fn(Cplx) -> Cplx> ApproxPart<'a, F, A> {
    /// The segment is usable when its underlying functions accept every
    /// input.
    pub open spec fn wf(&self) -> bool {
        &&& self.wkb.phase.wf()
        &&& 1 <= self.wkb.integ_steps <= u32::MAX
        &&& (forall|t: Cplx| #[trigger] call_requires(*self.airy.ai, (t,)))
        &&& self.airy_join_l.wf()
        &&& self.airy_join_r.wf()
    }

    /// Assembles the patched segment around one turning point.
    pub fn new(airy: AiryWaveFunction<'a, A>, wkb: WkbWaveFunction<'a, F>, range: (Scalar, Scalar)) -> (r:
        Self)
        ensures
            approx_part_built(r, airy, wkb, range),
    {
        let delta = rmul(rsub(airy.ts.1, airy.ts.0), rdiv(rone(), rfrom_u32(2)));
        let half = rdiv(delta, rfrom_u32(2));
        let join_l = Joint {
            left: Side::Wkb(wkb.duplicate()),
            right: Side::Airy(airy.duplicate()),
            cut: radd(airy.ts.0, half),
            delta: rneg(delta),
        };
        let join_r = Joint {
            left: Side::Airy(airy.duplicate()),
            right: Side::Wkb(wkb.duplicate()),
            cut: rsub(airy.ts.1, half),
            delta,
        };
        ApproxPart { airy, wkb, airy_join_l: join_l, airy_join_r: join_r, range }
    }

    /// The segment's validity range.
    pub fn range(&self) -> (r: (Scalar, Scalar))
        ensures
            r == self.range,
    {
        self.range
    }

    /// Evaluates the patched form at `x`: the joints on their bands, the
    /// Airy form on the bracket, the WKB form elsewhere.
    pub fn eval(&self, x: Scalar) -> (r: Cplx)
        requires
            self.wf(),
        ensures
            approx_eval_post(*self, x, r),
    {
        if is_in_range(self.airy_join_l.range(), x) && ENABLE_AIRY_JOINTS {
            self.airy_join_l.eval(x)
        } else if is_in_range(self.airy_join_r.range(), x) && ENABLE_AIRY_JOINTS {
            self.airy_join_r.eval(x)
        } else if is_in_range(self.airy.ts, x) {
            self.airy.eval(x)
        } else {
            self.wkb.eval(x)
        }
    }
}

/// One piece of the assembled wavefunction.
pub enum WavePart<'a, F: Fn(Scalar) -> Scalar, A: Fn(Cplx) -> Cplx> {
    Pure(PureWkb<'a, F>),
    Approx(ApproxPart<'a, F, A>),
}

/// The validity range of a piece.
pub open spec fn part_range<F: Fn(Scalar) -> Scalar, A: Fn(Cplx) -> Cplx>(
    p: WavePart<F, A>,
) -> (Scalar, Scalar) {
    match p {
        WavePart::Pure(w) => w.range,
        WavePart::Approx(a) => a.range,
    }
}

/// What evaluating a piece returns.
pub open spec fn part_eval_post<F: Fn(Scalar) -> Scalar, A: Fn(Cplx) -> Cplx>(
    p: WavePart<F, A>,
    x: Scalar,
    r: Cplx,
) -> bool {
    match p {
        WavePart::Pure(w) => wkb_eval_post(w.wkb, x, r),
        WavePart::Approx(a) => approx_eval_post(a, x, r),
    }
}

impl<'a, F: Fn(Scalar) -> Scalar, A: Fn(Cplx) -> Cplx> WavePart<'a, F, A> {
    /// A piece is usable when its underlying functions accept every input.
    pub open spec fn wf(&self) -> bool {
        match self {
            WavePart::Pure(w) => w.wf(),
            WavePart::Approx(a) => a.wf(),
        }
    }

    /// The piece's validity range.
    pub fn range(&self) -> (r: (Scalar, Scalar))
        ensures
            r == part_range(*self),
    {
        match self {
            WavePart::Pure(w) => w.range,
            WavePart::Approx(a) => a.range,
        }
    }

    /// Evaluates the piece at `x`.
    pub fn eval(&self, x: Scalar) -> (r: Cplx)
        requires
            self.wf(),
        ensures
            part_eval_post(*self, x, r),
    {
        match self {
            WavePart::Pure(w) => w.eval(x),
            WavePart::Approx(a) => a.eval(x),
        }
    }
}

/// One minus the machine epsilon: the factor that pulls the outer bounds
/// just inside themselves before the renormalization integral.
pub open spec fn eps_shrink() -> Scalar {
    r_sub(r_one(), r_div(r_one(), r_mul(r_from_u32(67108864), r_from_u32(67108864))))
}

/// The sampled points with each value replaced by its squared magnitude.
pub open spec fn norm_points(pts: Seq<SampledPoint>) -> Seq<SampledPoint> {
    Seq::new(pts.len(), |i: int| SampledPoint { x: pts[i].x, y: c_of(c_norm_sqr(pts[i].y)) })
}

/// The renormalization factor built from a sampling: one over the real part
/// of the integral of the squared magnitudes, or one when that area compares
/// equal to zero (renormalization is then skipped).
pub open spec fn renorm_factor_formula(pts: Seq<SampledPoint>) -> Scalar {
    let area = integrate_spec(norm_points(pts), TRAPEZE_PER_THREAD as int).re;
    r_div(
        r_one(),
        if r_eq(area, r_zero()) {
            r_one()
        } else {
            area
        },
    )
}

/// What the renormalization factor was computed from: a full sampling of the
/// wavefunction between the shrunken outer bounds.
pub open spec fn renorm_factor_post<G: Fn(Scalar) -> Cplx>(
    f: G,
    approx_inf: (Scalar, Scalar),
    r: Scalar,
) -> bool {
    exists|pts: Seq<SampledPoint>|
        #![trigger pts.len()]
        pts.len() == INTEG_STEPS && (forall|i: int|
            0 <= i < pts.len() ==> (#[trigger] pts[i]).x == grid_point(
                r_mul(approx_inf.0, eps_shrink()),
                r_mul(approx_inf.1, eps_shrink()),
                INTEG_STEPS,
                i,
            ) && call_ensures(f, (pts[i].x,), pts[i].y)) && r == renorm_factor_formula(pts)
}

/// The factor that scales the wavefunction to unit norm: one over the
/// integral of its squared magnitude across the outer bounds; an area of
/// exactly zero is reported by leaving the factor at one.
pub fn renormalize_factor<G: Fn(Scalar) -> Cplx>(wave_func: &G, approx_inf: (Scalar, Scalar)) -> (r:
    Scalar)
    requires
        forall|t: Scalar| #[trigger] call_requires(*wave_func, (t,)),
    ensures
        renorm_factor_post(*wave_func, approx_inf, r),
{
    let shrink = rsub(rone(), rdiv(rone(), rmul(rfrom_u32(67108864), rfrom_u32(67108864))));
    let a = rmul(approx_inf.0, shrink);
    let b = rmul(approx_inf.1, shrink);
    let pts = evaluate_function_between(wave_func, a, b, INTEG_STEPS);
    let n = pts.len();
    let mut mapped: Vec<SampledPoint> = Vec::new();
    let mut i: usize = 0;
    while i < n
        invariant
            i <= n,
            n == pts@.len(),
            mapped@.len() == i,
            forall|j: int| 0 <= j < i ==> mapped@[j] == norm_points(pts@)[j],
        decreases n - i,
    {
        let p = pts[i];
        mapped.push(SampledPoint { x: p.x, y: cof(cnorm_sqr(p.y)) });
        i += 1;
    }
    proof {
        assert(mapped@ =~= norm_points(pts@));
    }
    let area = integrate(&mapped, TRAPEZE_PER_THREAD).re;
    let area = if req(area, rzero()) {
        rone()
    } else {
        area
    };
    let r = rdiv(rone(), area);
    proof {
        assert(r == renorm_factor_formula(pts@));
    }
    r
}

/// A function scaled by a fixed complex factor.
pub struct Scaled<G: Fn(Scalar) -> Cplx> {
    pub scale: Cplx,
    pub func: G,
}

impl<G: Fn(Scalar) -> Cplx> Scaled<G> {
    /// Evaluates the underlying function and scales its value.
    pub fn eval(&self, x: Scalar) -> (r: Cplx)
        requires
            forall|t: Scalar| #[trigger] call_requires(self.func, (t,)),
        ensures
            exists|y: Cplx| #[trigger] call_ensures(self.func, (x,), y) && r == c_mul(y, self.scale),
    {
        let y = (self.func)(x);
        cmul(y, self.scale)
    }
}

/// Scales a wavefunction to unit norm across the outer bounds.
pub fn renormalize<G: Fn(Scalar) -> Cplx>(wave_func: G, approx_inf: (Scalar, Scalar)) -> (r: Scaled<
    G,
>)
    requires
        forall|t: Scalar| #[trigger] call_requires(wave_func, (t,)),
    ensures
        r.func == wave_func,
        exists|factor: Scalar|
            #[trigger] renorm_factor_post(wave_func, approx_inf, factor) && r.scale == c_of(factor),
{
    let factor = renormalize_factor(&wave_func, approx_inf);
    Scaled { scale: cof(factor), func: wave_func }
}

/// Evaluating the piece list at `x`: the first piece whose range holds `x`
/// answered.
pub open spec fn psi_post<F: Fn(Scalar) -> Scalar, A: Fn(Cplx) -> Cplx>(
    parts: Seq<WavePart<F, A>>,
    x: Scalar,
    v: Cplx,
) -> bool {
    exists|i: int|
        #![trigger parts[i]]
        0 <= i < parts.len() && in_range_spec(part_range(parts[i]), x) && (forall|j: int|
            0 <= j < i ==> !in_range_spec(part_range(#[trigger] parts[j]), x)) && part_eval_post(
            parts[i],
            x,
            v,
        )
}

/// No piece's range holds `x`.
pub open spec fn no_part_contains<F: Fn(Scalar) -> Scalar, A: Fn(Cplx) -> Cplx>(
    parts: Seq<WavePart<F, A>>,
    x: Scalar,
) -> bool {
    forall|i: int| 0 <= i < parts.len() ==> !in_range_spec(part_range(#[trigger] parts[i]), x)
}

/// The assembled wavefunction: the shared configuration, the view, the
/// ordered piece list, the ranges the Airy and WKB forms cover, and the
/// global scaling factor.
pub struct WaveFunction<'a, F: Fn(Scalar) -> Scalar, A: Fn(Cplx) -> Cplx> {
    pub phase: Phase<'a, F>,
    pub view: (Scalar, Scalar),
    pub parts: Vec<WavePart<'a, F, A>>,
    pub airy_ranges: Vec<(Scalar, Scalar)>,
    pub wkb_ranges: Vec<(Scalar, Scalar)>,
    pub scaling: Cplx,
}

/// The shape every WKB segment of the assembler takes: the shared
/// configuration, the unit amplitude, the full sampling density, and the
/// given anchor and reference points.
pub open spec fn wkb_segment_shape<'a, F: Fn(Scalar) -> Scalar>(
    wkb: WkbWaveFunction<'a, F>,
    phase: Phase<'a, F>,
    x_0: Scalar,
    x_ref: Scalar,
) -> bool {
    &&& wkb.phase == phase
    &&& wkb.c == c_one()
    &&& wkb.integ_steps == INTEG_STEPS
    &&& wkb.x_0 == x_0
    &&& wkb.x_ref == x_ref
    &&& wkb.phase_off == phase.phase_off
}

/// The degenerate assembly taken when no turning point lies in view: exactly
/// two pure WKB halves anchored at the lower outer bound, referenced at the
/// two outer bounds, split at the view's middle, with no Airy range.
pub open spec fn fallback_assembly<'a, F: Fn(Scalar) -> Scalar, A: Fn(Cplx) -> Cplx>(
    w: WaveFunction<'a, F, A>,
    approx_inf: (Scalar, Scalar),
) -> bool {
    let mid = r_div(r_add(w.view.0, w.view.1), r_from_u32(2));
    &&& w.parts@.len() == 2
    &&& w.airy_ranges@.len() == 0
    &&& (match w.parts@[0] {
        WavePart::Pure(p) => p.range == (approx_inf.0, mid) && wkb_segment_shape(
            p.wkb,
            w.phase,
            approx_inf.0,
            approx_inf.0,
        ),
        WavePart::Approx(_) => false,
    })
    &&& (match w.parts@[1] {
        WavePart::Pure(p) => p.range == (mid, approx_inf.1) && wkb_segment_shape(
            p.wkb,
            w.phase,
            approx_inf.0,
            approx_inf.1,
        ),
        WavePart::Approx(_) => false,
    })
}

/// The positions the detected assembly spans: the turning points of the
/// groups, with a point mirrored across each outer bound as a guard.
pub open spec fn mirrored_turning_points(
    pairs: Seq<((Scalar, Scalar), Scalar)>,
    approx_inf: (Scalar, Scalar),
) -> Seq<Scalar> {
    Seq::new(
        pairs.len() + 2,
        |i: int|
            if i == 0 {
                r_sub(r_mul(r_from_u32(2), approx_inf.0), pairs[0].1)
            } else if i <= pairs.len() {
                pairs[i - 1].1
            } else {
                r_sub(r_mul(r_from_u32(2), approx_inf.1), pairs[pairs.len() - 1].1)
            },
    )
}

/// The `i`-th patched segment as the assembler builds it, over the
/// assembly's components: an Airy approximant anchored to the `i`-th bracket
/// carrying the segment-orientation amplitude, a WKB segment anchored at the
/// turning point and referenced backwards or at the anchor by the observed
/// sign of the potential's slope there, joints per `approx_part_built`, and
/// the midpoint-delimited range, recorded in the range lists.
pub open spec fn segment_built_parts<'a, F: Fn(Scalar) -> Scalar, A: Fn(Cplx) -> Cplx>(
    phase: Phase<'a, F>,
    parts: Seq<WavePart<'a, F, A>>,
    wkb_ranges: Seq<(Scalar, Scalar)>,
    airy_ranges: Seq<(Scalar, Scalar)>,
    pairs: Seq<((Scalar, Scalar), Scalar)>,
    approx_inf: (Scalar, Scalar),
    i: int,
) -> bool {
    let tps = mirrored_turning_points(pairs, approx_inf);
    let rng = (
        r_div(r_add(tps[i + 1], tps[i]), r_from_u32(2)),
        r_div(r_add(tps[i + 2], tps[i + 1]), r_from_u32(2)),
    );
    match parts[i] {
        WavePart::Approx(ap) => {
            &&& approx_part_built(ap, ap.airy, ap.wkb, rng)
            &&& wkb_ranges[i] == rng
            &&& airy_ranges[i] == ap.airy.ts
            &&& ap.airy.ts == pairs[i].0
            &&& airy_anchored(phase.energy, phase.mass, *phase.potential, pairs[i].0, ap.airy)
            &&& ap.airy.c == c_of(r_signum(r_sub(ap.wkb.x_0, ap.wkb.x_ref)))
            &&& ap.airy.phase_off == phase.phase_off
            &&& (exists|d: Scalar|
                #[trigger] stencil_of(value_rel(*phase.potential), tps[i + 1], d)
                    && wkb_segment_shape(
                    ap.wkb,
                    phase,
                    tps[i + 1],
                    if r_lt(r_zero(), d) {
                        tps[i]
                    } else {
                        tps[i + 1]
                    },
                ))
        },
        WavePart::Pure(_) => false,
    }
}

/// The `i`-th patched segment of an assembled wavefunction.
pub open spec fn segment_built<'a, F: Fn(Scalar) -> Scalar, A: Fn(Cplx) -> Cplx>(
    w: WaveFunction<'a, F, A>,
    pairs: Seq<((Scalar, Scalar), Scalar)>,
    approx_inf: (Scalar, Scalar),
    i: int,
) -> bool {
    segment_built_parts(w.phase, w.parts@, w.wkb_ranges@, w.airy_ranges@, pairs, approx_inf, i)
}

/// The assembly taken when turning points were detected: one patched segment
/// per valid pair, each built as `segment_built` says.
pub open spec fn detected_assembly<'a, F: Fn(Scalar) -> Scalar, A: Fn(Cplx) -> Cplx>(
    w: WaveFunction<'a, F, A>,
    approx_inf: (Scalar, Scalar),
    pairs: Seq<((Scalar, Scalar), Scalar)>,
) -> bool {
    &&& pairs.len() >= 1
    &&& w.parts@.len() == pairs.len()
    &&& w.airy_ranges@.len() == pairs.len()
    &&& (forall|i: int|
        0 <= i < pairs.len() ==> valid_pair(
            w.phase.energy,
            w.phase.mass,
            *w.phase.potential,
            #[trigger] pairs[i],
        ))
    &&& (forall|i: int| 0 <= i < pairs.len() ==> #[trigger] segment_built(w, pairs, approx_inf, i))
}

/// How a renormalized scaling came about: the factor is the renormalization
/// formula over a full sampling, between the shrunken outer bounds, of the
/// piece list scaled by the requested factor (zero outside every piece).
pub open spec fn renormalized_scaling<F: Fn(Scalar) -> Scalar, A: Fn(Cplx) -> Cplx>(
    parts: Seq<WavePart<F, A>>,
    s: Cplx,
    approx_inf: (Scalar, Scalar),
    scaling: Cplx,
) -> bool {
    exists|pts: Seq<SampledPoint>, factor: Scalar|
        #![trigger pts.len(), c_scale(factor, s)]
        pts.len() == INTEG_STEPS && (forall|i: int|
            0 <= i < pts.len() ==> (#[trigger] pts[i]).x == grid_point(
                r_mul(approx_inf.0, eps_shrink()),
                r_mul(approx_inf.1, eps_shrink()),
                INTEG_STEPS,
                i,
            ) && pieces_or_zero(parts, s, pts[i].x, pts[i].y)) && factor == renorm_factor_formula(
            pts,
        ) && scaling == c_scale(factor, s)
}

/// A factor computed by `renormalize_factor` over a sampler whose every
/// value is a scaled piecewise evaluation yields a renormalized scaling.
proof fn lemma_renormalized_scaling<G: Fn(Scalar) -> Cplx, F: Fn(Scalar) -> Scalar, A: Fn(
    Cplx,
) -> Cplx>(
    g: G,
    parts: Seq<WavePart<F, A>>,
    s: Cplx,
    approx_inf: (Scalar, Scalar),
    factor: Scalar,
    scaling: Cplx,
)
    requires
        renorm_factor_post(g, approx_inf, factor),
        forall|t: Scalar, v: Cplx| #[trigger] call_ensures(g, (t,), v) ==> pieces_or_zero(
            parts,
            s,
            t,
            v,
        ),
        scaling == c_scale(factor, s),
    ensures
        renormalized_scaling(parts, s, approx_inf, scaling),
{
    let pts = choose|pts: Seq<SampledPoint>|
        #![trigger pts.len()]
        pts.len() == INTEG_STEPS && (forall|i: int|
            0 <= i < pts.len() ==> (#[trigger] pts[i]).x == grid_point(
                r_mul(approx_inf.0, eps_shrink()),
                r_mul(approx_inf.1, eps_shrink()),
                INTEG_STEPS,
                i,
            ) && call_ensures(g, (pts[i].x,), pts[i].y)) && factor == renorm_factor_formula(pts);
    assert(pts.len() == INTEG_STEPS);
    assert forall|i: int| 0 <= i < pts.len() implies (#[trigger] pts[i]).x == grid_point(
        r_mul(approx_inf.0, eps_shrink()),
        r_mul(approx_inf.1, eps_shrink()),
        INTEG_STEPS,
        i,
    ) && pieces_or_zero(parts, s, pts[i].x, pts[i].y) by {
        assert(call_ensures(g, (pts[i].x,), pts[i].y));
    };
    assert(renormalized_scaling(parts, s, approx_inf, scaling));
}

impl<'a, F: Fn(Scalar) -> Scalar, A: Fn(Cplx) -> Cplx> WaveFunction<'a, F, A> {
    /// The wavefunction is usable when its configuration and every piece
    /// accept every input.
    pub open spec fn wf(&self) -> bool {
        self.phase.wf() && forall|i: int|
            0 <= i < self.parts@.len() ==> (#[trigger] self.parts@[i]).wf()
    }

    /// Adjacent pieces share their boundary exactly: the piece list leaves
    /// no gap between the ranges it covers.
    pub open spec fn parts_contiguous(&self) -> bool {
        forall|i: int|
            0 <= i < self.parts@.len() - 1 ==> part_range(#[trigger] self.parts@[i + 1]).0
                == part_range(self.parts@[i]).1
    }

    /// The configured eigen-energy.
    pub fn get_energy(&self) -> (r: Scalar)
        ensures
            r == self.phase.energy,
    {
        self.phase.energy
    }

    /// Assembles the wavefunction for the `n`-th bound state: obtains the
    /// eigen-energy from the provider, derives the view from the classical
    /// bounds (falling back to the outer bounds where Newton finds none),
    /// computes the turning-point groups, and builds one patched segment per
    /// group — or two pure WKB halves split at the view's middle when no
    /// turning point lies in view — then applies the requested scaling.
    pub fn new<G: Fn(usize) -> Scalar>(
        potential: &'a F,
        mass: Scalar,
        n_energy: usize,
        approx_inf: (Scalar, Scalar),
        view_factor: Scalar,
        scaling: ScalingType,
        nth_energy: &G,
        ai: &'a A,
    ) -> (r: Result<WaveFunction<'a, F, A>, FatalError>) where F: Sync
        requires
            forall|t: Scalar| #[trigger] call_requires(*potential, (t,)),
            forall|t: Cplx| #[trigger] call_requires(*ai, (t,)),
            call_requires(*nth_energy, (n_energy,)),
        ensures
            match r {
                Ok(w) => {
                    &&& w.wf()
                    &&& w.parts@.len() >= 1
                    &&& w.parts_contiguous()
                    &&& call_ensures(*nth_energy, (n_energy,), w.phase.energy)
                    &&& w.phase.mass == mass
                    &&& w.phase.potential == potential
                    &&& w.phase.phase_off == r_div(pi_spec(), r_from_u32(4))
                    &&& w.wkb_ranges@.len() == w.parts@.len()
                    &&& (forall|i: int|
                        0 <= i < w.parts@.len() ==> part_range(#[trigger] w.parts@[i])
                            == w.wkb_ranges@[i])
                    &&& (fallback_assembly(w, approx_inf) || exists|
                        pairs: Seq<((Scalar, Scalar), Scalar)>,
                    | #[trigger] detected_assembly(w, approx_inf, pairs))
                    &&& (match scaling {
                        ScalingType::Mul(s) => w.scaling == s,
                        ScalingType::Unscaled => w.scaling == c_one(),
                        ScalingType::Renormalize(s) => renormalized_scaling(
                            w.parts@,
                            s,
                            approx_inf,
                            w.scaling,
                        ),
                    })
                },
                Err(e) => exists|en: Scalar|
                    #[trigger] call_ensures(*nth_energy, (n_energy,), en) && detection_failure(
                        en,
                        mass,
                        *potential,
                        e,
                    ),
            },
    {
        let energy = nth_energy(n_energy);
        let prec = rdiv(rone(), rfrom_u32(10000000));
        let shifted = |x: Scalar| -> (v: Scalar)
            ensures
                crate::turning::shifted_potential_rel(energy, *potential)(x, v),
            { crate::turning::shifted_value(energy, potential, x) };
        proof {
            assert(forall|t: Scalar| #[trigger] call_requires(shifted, (t,)));
        }
        let lower = crate::roots::newtons_method_max_iters(&shifted, approx_inf.0, prec, 100000);
        let upper = crate::roots::newtons_method_max_iters(&shifted, approx_inf.1, prec, 100000);
        let sqrt_eps = rdiv(rone(), rfrom_u32(67108864));
        let view = match (lower, upper) {
            (Some(lb), Some(ub)) => (
                rsub(lb, rmul(rsub(ub, lb), view_factor)),
                radd(ub, rmul(rsub(ub, lb), view_factor)),
            ),
            _ => (rsub(approx_inf.0, sqrt_eps), radd(approx_inf.1, sqrt_eps)),
        };
        let pi4 = rdiv(pi_value(), rfrom_u32(4));
        let phase = Phase { energy, mass, phase_off: pi4, potential };
        let pair = match AiryWaveFunction::new(&phase, view, ai) {
            Ok(p) => p,
            Err(e) => {
                proof {
                    assert(call_ensures(*nth_energy, (n_energy,), energy) && detection_failure(
                        energy,
                        mass,
                        *potential,
                        e,
                    ));
                }
                return Err(e);
            },
        };
        let (airys, boundaries) = pair;
        let ghost gpairs = boundaries.ts@;

        let mut parts: Vec<WavePart<'a, F, A>> = Vec::new();
        let mut airy_ranges: Vec<(Scalar, Scalar)> = Vec::new();
        let mut wkb_ranges: Vec<(Scalar, Scalar)> = Vec::new();
        let ghost mut fell_back = false;

        if boundaries.ts.len() == 0 {
            proof {
                fell_back = true;
            }
            let wkb1 = WkbWaveFunction::new(
                phase.duplicate(),
                cone(),
                INTEG_STEPS,
                approx_inf.0,
                approx_inf.0,
                pi4,
            );
            let wkb2 = WkbWaveFunction::new(
                phase.duplicate(),
                cone(),
                INTEG_STEPS,
                approx_inf.0,
                approx_inf.1,
                pi4,
            );
            let center = rdiv(radd(view.0, view.1), rfrom_u32(2));
            let r1 = (approx_inf.0, center);
            let r2 = (center, approx_inf.1);
            parts.push(WavePart::Pure(PureWkb { wkb: wkb1, range: r1 }));
            parts.push(WavePart::Pure(PureWkb { wkb: wkb2, range: r2 }));
            wkb_ranges.push(r1);
            wkb_ranges.push(r2);
        } else {
            let m = boundaries.ts.len();
            let two = rfrom_u32(2);
            let mut tps: Vec<Scalar> = Vec::new();
            let (_, first_tp) = boundaries.ts[0];
            tps.push(rsub(rmul(two, approx_inf.0), first_tp));
            let mut i: usize = 0;
            while i < m
                invariant
                    i <= m,
                    m == boundaries.ts@.len(),
                    tps@.len() == i + 1,
                    tps@[0] == r_sub(r_mul(r_from_u32(2), approx_inf.0), boundaries.ts@[0].1),
                    forall|j: int| 1 <= j < i + 1 ==> tps@[j] == boundaries.ts@[j - 1].1,
                decreases m - i,
            {
                let (_p, tp) = boundaries.ts[i];
                tps.push(tp);
                i += 1;
            }
            let (_, last_tp) = boundaries.ts[m - 1];
            tps.push(rsub(rmul(two, approx_inf.1), last_tp));

            let tps_len = tps.len();
            proof {
                assert(tps_len == m + 2 && m + 2 <= usize::MAX);
                assert forall|k: int| 0 <= k < m + 2 implies tps@[k]
                    == mirrored_turning_points(gpairs, approx_inf)[k] by {
                    if k == 0 {
                    } else if k <= m as int {
                        assert(tps@[k] == gpairs[k - 1].1);
                    } else {
                        assert(tps@[k] == r_sub(
                            r_mul(r_from_u32(2), approx_inf.1),
                            gpairs[m - 1].1,
                        ));
                    }
                };
                assert(tps@ =~= mirrored_turning_points(gpairs, approx_inf));
            }

            let mut j: usize = 0;
            while j < m
                invariant
                    j <= m,
                    m + 2 <= usize::MAX,
                    m == boundaries.ts@.len(),
                    m == airys@.len(),
                    gpairs == boundaries.ts@,
                    tps@.len() == m + 2,
                    tps@ == mirrored_turning_points(gpairs, approx_inf),
                    two == r_from_u32(2),
                    pi4 == r_div(pi_spec(), r_from_u32(4)),
                    phase.wf(),
                    phase.energy == energy,
                    phase.mass == mass,
                    phase.phase_off == pi4,
                    phase.potential == potential,
                    forall|t: Scalar| #[trigger] call_requires(*potential, (t,)),
                    forall|t: Cplx| #[trigger] call_requires(*ai, (t,)),
                    forall|k: int|
                        0 <= k < m ==> airy_from_pair(
                            energy,
                            mass,
                            *potential,
                            gpairs[k].0,
                            #[trigger] airys@[k],
                        ) && airys@[k].phase_off == pi4 && airys@[k].ai == ai,
                    parts@.len() == j,
                    wkb_ranges@.len() == j,
                    airy_ranges@.len() == j,
                    forall|k: int| 0 <= k < j ==> (#[trigger] parts@[k]).wf(),
                    forall|k: int|
                        0 <= k < j ==> part_range(#[trigger] parts@[k]) == wkb_ranges@[k],
                    forall|k: int|
                        0 <= k < j ==> part_range(#[trigger] parts@[k]) == (
                        r_div(r_add(tps@[k + 1], tps@[k]), r_from_u32(2)),
                        r_div(r_add(tps@[k + 2], tps@[k + 1]), r_from_u32(2)),
                        ),
                    forall|k: int|
                        0 <= k < j ==> #[trigger] segment_built_parts(
                            phase,
                            parts@,
                            wkb_ranges@,
                            airy_ranges@,
                            gpairs,
                            approx_inf,
                            k,
                        ),
                decreases m - j,
            {
                let ghost parts_before = parts@;
                let ghost wr_before = wkb_ranges@;
                let ghost ar_before = airy_ranges@;
                let prev = tps[j];
                let bnd = tps[j + 1];
                let nxt = tps[j + 2];
                let d = crate::derivative::derivative(potential, bnd);
                let wkb = if rlt(rzero(), d) {
                    WkbWaveFunction::new(phase.duplicate(), cone(), INTEG_STEPS, bnd, prev, pi4)
                } else {
                    WkbWaveFunction::new(phase.duplicate(), cone(), INTEG_STEPS, bnd, bnd, pi4)
                };
                let rng = (rdiv(radd(bnd, prev), two), rdiv(radd(nxt, bnd), two));
                let exp_sign = wkb.get_exp_sign();
                let a2 = airys[j].with_c(cof(exp_sign));
                let ats = a2.ts;
                let part = ApproxPart::new(a2, wkb, rng);
                proof {
                    assert(part.wf());
                    assert(part.range == rng);
                }
                parts.push(WavePart::Approx(part));
                wkb_ranges.push(rng);
                airy_ranges.push(ats);
                proof {
                    let k = j as int;
                    let d2 = choose|d2: Scalar|
                        #[trigger] stencil_of(value_rel(*potential), airys@[k].turning_point, d2)
                            && airys@[k].u_1 == r_mul(r_mul(r_from_u32(2), mass), r_neg(d2));
                    assert(stencil_of(value_rel(*potential), a2.turning_point, d2) && a2.u_1
                        == r_mul(r_mul(r_from_u32(2), mass), r_neg(d2)));
                    assert(airy_anchored(energy, mass, *potential, gpairs[k].0, a2));
                    assert(stencil_of(value_rel(*potential), tps@[k + 1], d));
                    assert(wkb_segment_shape(
                        part.wkb,
                        phase,
                        tps@[k + 1],
                        if r_lt(r_zero(), d) {
                            tps@[k]
                        } else {
                            tps@[k + 1]
                        },
                    ));
                    assert(a2.c == c_of(r_signum(r_sub(part.wkb.x_0, part.wkb.x_ref))));
                    assert(segment_built_parts(
                        phase,
                        parts@,
                        wkb_ranges@,
                        airy_ranges@,
                        gpairs,
                        approx_inf,
                        k,
                    ));
                    assert forall|k2: int| 0 <= k2 < j as int implies #[trigger] segment_built_parts(
                        phase,
                        parts@,
                        wkb_ranges@,
                        airy_ranges@,
                        gpairs,
                        approx_inf,
                        k2,
                    ) by {
                        assert(segment_built_parts(
                            phase,
                            parts_before,
                            wr_before,
                            ar_before,
                            gpairs,
                            approx_inf,
                            k2,
                        ));
                        assert(parts@[k2] == parts_before[k2] && wkb_ranges@[k2] == wr_before[k2]
                            && airy_ranges@[k2] == ar_before[k2]);
                    };
                }
                j += 1;
            }
        }
        proof {
            assert(forall|i: int|
                0 <= i < parts@.len() - 1 ==> part_range(#[trigger] parts@[i + 1]).0 == part_range(
                    parts@[i],
                ).1);
        }
        match scaling {
            ScalingType::Mul(s) => {
                let w = WaveFunction { phase, view, parts, airy_ranges, wkb_ranges, scaling: s };
                proof {
                    assert(fallback_assembly(w, approx_inf) || detected_assembly(
                        w,
                        approx_inf,
                        gpairs,
                    ));
                }
                Ok(w)
            },
            ScalingType::Unscaled => {
                let w = WaveFunction {
                    phase,
                    view,
                    parts,
                    airy_ranges,
                    wkb_ranges,
                    scaling: cone(),
                };
                proof {
                    assert(fallback_assembly(w, approx_inf) || detected_assembly(
                        w,
                        approx_inf,
                        gpairs,
                    ));
                }
                Ok(w)
            },
            ScalingType::Renormalize(s) => {
                let unscaled = WaveFunction {
                    phase,
                    view,
                    parts,
                    airy_ranges,
                    wkb_ranges,
                    scaling: s,
                };
                proof {
                    assert(unscaled.wf());
                    assert(fallback_assembly(unscaled, approx_inf) || detected_assembly(
                        unscaled,
                        approx_inf,
                        gpairs,
                    ));
                }
                let ghost gpost: spec_fn(Scalar, Cplx) -> bool = |t: Scalar, v: Cplx|
                    pieces_or_zero(unscaled.parts@, s, t, v);
                let factor = {
                    let sampler = |x: Scalar| -> (v: Cplx)
                        ensures
                            gpost(x, v),
                        { unscaled.eval_or_zero(x) };
                    proof {
                        assert(forall|t: Scalar| #[trigger] call_requires(sampler, (t,)));
                    }
                    let factor = renormalize_factor(&sampler, approx_inf);
                    proof {
                        assert forall|t: Scalar, v: Cplx| #[trigger]
                            call_ensures(sampler, (t,), v) implies pieces_or_zero(
                            unscaled.parts@,
                            s,
                            t,
                            v,
                        ) by {
                            assert(gpost(t, v));
                        };
                        lemma_renormalized_scaling(
                            sampler,
                            unscaled.parts@,
                            s,
                            approx_inf,
                            factor,
                            c_scale(factor, s),
                        );
                    }
                    factor
                };
                let WaveFunction { phase, view, parts, airy_ranges, wkb_ranges, scaling: s0 } =
                    unscaled;
                let w = WaveFunction {
                    phase,
                    view,
                    parts,
                    airy_ranges,
                    wkb_ranges,
                    scaling: cscale(factor, s0),
                };
                proof {
                    assert(fallback_assembly(w, approx_inf) || detected_assembly(
                        w,
                        approx_inf,
                        gpairs,
                    ));
                    assert(renormalized_scaling(w.parts@, s, approx_inf, w.scaling));
                }
                Ok(w)
            },
        }
    }

    /// The first piece whose range holds `x`, evaluated there; asking for a
    /// point outside every piece is the fatal out-of-range condition.
    pub fn calc_psi(&self, x: Scalar) -> (r: Result<Cplx, FatalError>)
        requires
            self.wf(),
        ensures
            match r {
                Ok(v) => psi_post(self.parts@, x, v),
                Err(e) => e == FatalError::OutOfRange && no_part_contains(self.parts@, x),
            },
    {
        let n = self.parts.len();
        let mut i: usize = 0;
        while i < n
            invariant
                i <= n,
                n == self.parts@.len(),
                self.wf(),
                forall|j: int|
                    0 <= j < i ==> !in_range_spec(part_range(#[trigger] self.parts@[j]), x),
            decreases n - i,
        {
            let part = &self.parts[i];
            if is_in_range(part.range(), x) {
                let v = part.eval(x);
                proof {
                    assert(psi_post(self.parts@, x, v));
                }
                return Ok(v);
            }
            i += 1;
        }
        Err(FatalError::OutOfRange)
    }

    /// The first piece whose range holds `x`, evaluated there, or complex
    /// zero where no piece's range holds `x`.
    pub fn psi_or_zero(&self, x: Scalar) -> (r: Cplx)
        requires
            self.wf(),
        ensures
            psi_post(self.parts@, x, r) || (no_part_contains(self.parts@, x) && r == c_zero()),
    {
        match self.calc_psi(x) {
            Ok(v) => v,
            Err(_) => czero(),
        }
    }

    /// The scaled evaluation: the global scaling times the piecewise value.
    pub fn eval(&self, x: Scalar) -> (r: Result<Cplx, FatalError>)
        requires
            self.wf(),
        ensures
            match r {
                Ok(v) => exists|u: Cplx|
                    #[trigger] psi_post(self.parts@, x, u) && v == c_mul(self.scaling, u),
                Err(e) => e == FatalError::OutOfRange && no_part_contains(self.parts@, x),
            },
    {
        match self.calc_psi(x) {
            Ok(u) => Ok(cmul(self.scaling, u)),
            Err(e) => Err(e),
        }
    }

    /// The scaled evaluation, or complex zero outside every piece.
    pub fn eval_or_zero(&self, x: Scalar) -> (r: Cplx)
        requires
            self.wf(),
        ensures
            exists|u: Cplx|
                #[trigger] c_mul(self.scaling, u) == r && (psi_post(self.parts@, x, u) || (
                no_part_contains(self.parts@, x) && u == c_zero())),
    {
        let u = self.psi_or_zero(x);
        cmul(self.scaling, u)
    }

    /// The ranges covered by Airy forms.
    pub fn get_airy_ranges(&self) -> (r: &Vec<(Scalar, Scalar)>)
        ensures
            r@ == self.airy_ranges@,
    {
        &self.airy_ranges
    }

    /// The ranges covered by WKB forms.
    pub fn get_wkb_ranges(&self) -> (r: &Vec<(Scalar, Scalar)>)
        ensures
            r@ == self.wkb_ranges@,
    {
        &self.wkb_ranges
    }

    /// The WKB ranges clipped to the view.
    pub fn get_wkb_ranges_in_view(&self) -> (r: Vec<(Scalar, Scalar)>)
        ensures
            r@.len() == self.wkb_ranges@.len(),
            forall|i: int|
                0 <= i < r@.len() ==> #[trigger] r@[i] == (
                r_max(self.view.0, self.wkb_ranges@[i].0),
                r_min(self.view.1, self.wkb_ranges@[i].1),
                ),
    {
        let n = self.wkb_ranges.len();
        let mut out: Vec<(Scalar, Scalar)> = Vec::new();
        let mut i: usize = 0;
        while i < n
            invariant
                i <= n,
                n == self.wkb_ranges@.len(),
                out@.len() == i,
                forall|j: int|
                    0 <= j < i ==> #[trigger] out@[j] == (
                    r_max(self.view.0, self.wkb_ranges@[j].0),
                    r_min(self.view.1, self.wkb_ranges@[j].1),
                    ),
            decreases n - i,
        {
            let (lo, hi) = self.wkb_ranges[i];
            out.push((rmax(self.view.0, lo), rmin(self.view.1, hi)));
            i += 1;
        }
        out
    }

    /// Whether some WKB range holds `x`.
    pub fn is_wkb(&self, x: Scalar) -> (r: bool)
        ensures
            r == exists|i: int|
                0 <= i < self.wkb_ranges@.len() && in_range_spec(#[trigger] self.wkb_ranges@[i], x),
    {
        ranges_contain(&self.wkb_ranges, x)
    }

    /// Whether some Airy range holds `x`.
    pub fn is_airy(&self, x: Scalar) -> (r: bool)
        ensures
            r == exists|i: int|
                0 <= i < self.airy_ranges@.len() && in_range_spec(
                    #[trigger] self.airy_ranges@[i],
                    x,
                ),
    {
        ranges_contain(&self.airy_ranges, x)
    }

    /// The view interval.
    pub fn get_view(&self) -> (r: (Scalar, Scalar))
        ensures
            r == self.view,
    {
        self.view
    }

    /// Replaces the view interval.
    pub fn set_view(&mut self, view: (Scalar, Scalar))
        ensures
            final(self).view == view,
            final(self).phase == old(self).phase,
            final(self).parts == old(self).parts,
            final(self).airy_ranges == old(self).airy_ranges,
            final(self).wkb_ranges == old(self).wkb_ranges,
            final(self).scaling == old(self).scaling,
    {
        self.view = view;
    }

    /// The shared configuration.
    pub fn get_phase(&self) -> (r: &Phase<'a, F>)
        ensures
            *r == self.phase,
    {
        &self.phase
    }
}

/// Whether some range of the list holds `x`.
fn ranges_contain(ranges: &Vec<(Scalar, Scalar)>, x: Scalar) -> (r: bool)
    ensures
        r == exists|i: int| 0 <= i < ranges@.len() && in_range_spec(#[trigger] ranges@[i], x),
{
    let n = ranges.len();
    let mut i: usize = 0;
    while i < n
        invariant
            i <= n,
            n == ranges@.len(),
            forall|j: int| 0 <= j < i ==> !in_range_spec(#[trigger] ranges@[j], x),
        decreases n - i,
    {
        if is_in_range(ranges[i], x) {
            proof {
                assert(in_range_spec(ranges@[i as int], x));
            }
            return true;
        }
        i += 1;
    }
    false
}

/// The left fold of complex values, from zero.
pub open spec fn c_sum(vals: Seq<Cplx>) -> Cplx
    decreases vals.len(),
{
    if vals.len() == 0 {
        c_zero()
    } else {
        c_add(c_sum(vals.drop_last()), vals.last())
    }
}

/// The running minimum of the first `k` scalars, replaced on a strictly
/// smaller value.
pub open spec fn fold_min(s: Seq<Scalar>, k: int) -> Scalar
    decreases k,
{
    if k <= 1 {
        s[0]
    } else {
        let m = fold_min(s, k - 1);
        if r_lt(s[k - 1], m) {
            s[k - 1]
        } else {
            m
        }
    }
}

/// The running maximum of the first `k` scalars, replaced on a strictly
/// larger value.
pub open spec fn fold_max(s: Seq<Scalar>, k: int) -> Scalar
    decreases k,
{
    if k <= 1 {
        s[0]
    } else {
        let m = fold_max(s, k - 1);
        if r_lt(m, s[k - 1]) {
            s[k - 1]
        } else {
            m
        }
    }
}

/// What evaluating one wavefunction returns: its scaling times a piecewise
/// value.
pub open spec fn wave_eval_post<F: Fn(Scalar) -> Scalar, A: Fn(Cplx) -> Cplx>(
    w: WaveFunction<F, A>,
    x: Scalar,
    v: Cplx,
) -> bool {
    exists|u: Cplx| #[trigger] c_mul(w.scaling, u) == v && psi_post(w.parts@, x, u)
}

/// What evaluating a piece list under a scaling returns, with an
/// out-of-range fallback: the scaling times the first containing piece's
/// value, or the scaling times zero outside every piece.
pub open spec fn pieces_or_zero<F: Fn(Scalar) -> Scalar, A: Fn(Cplx) -> Cplx>(
    parts: Seq<WavePart<F, A>>,
    s: Cplx,
    x: Scalar,
    v: Cplx,
) -> bool {
    exists|u: Cplx|
        #[trigger] c_mul(s, u) == v && (psi_post(parts, x, u) || (no_part_contains(parts, x) && u
            == c_zero()))
}

/// What evaluating one wavefunction with an out-of-range fallback returns.
pub open spec fn wave_or_zero_post<F: Fn(Scalar) -> Scalar, A: Fn(Cplx) -> Cplx>(
    w: WaveFunction<F, A>,
    x: Scalar,
    v: Cplx,
) -> bool {
    pieces_or_zero(w.parts@, w.scaling, x, v)
}

/// The lower view edges of a list of wavefunctions.
pub open spec fn views_lo<F: Fn(Scalar) -> Scalar, A: Fn(Cplx) -> Cplx>(
    ws: Seq<WaveFunction<F, A>>,
) -> Seq<Scalar> {
    Seq::new(ws.len(), |i: int| ws[i].view.0)
}

/// The upper view edges of a list of wavefunctions.
pub open spec fn views_hi<F: Fn(Scalar) -> Scalar, A: Fn(Cplx) -> Cplx>(
    ws: Seq<WaveFunction<F, A>>,
) -> Seq<Scalar> {
    Seq::new(ws.len(), |i: int| ws[i].view.1)
}

/// What evaluating a member list under a global scaling returns, with the
/// out-of-range fallback: one value per member (zero outside its pieces),
/// summed in order and scaled.
pub open spec fn sup_or_zero_post<F: Fn(Scalar) -> Scalar, A: Fn(Cplx) -> Cplx>(
    waves: Seq<WaveFunction<F, A>>,
    s: Cplx,
    x: Scalar,
    v: Cplx,
) -> bool {
    exists|vals: Seq<Cplx>|
        #![trigger vals.len()]
        vals.len() == waves.len() && (forall|i: int|
            0 <= i < vals.len() ==> wave_or_zero_post(waves[i], x, #[trigger] vals[i])) && v
            == c_mul(s, c_sum(vals))
}

/// How a renormalized superposition scaling came about: the factor is the
/// renormalization formula over a full sampling, between the shrunken outer
/// bounds, of the member sum scaled by the requested factor.
pub open spec fn renormalized_superposition<F: Fn(Scalar) -> Scalar, A: Fn(Cplx) -> Cplx>(
    waves: Seq<WaveFunction<F, A>>,
    s: Cplx,
    approx_inf: (Scalar, Scalar),
    scaling: Cplx,
) -> bool {
    exists|pts: Seq<SampledPoint>, factor: Scalar|
        #![trigger pts.len(), c_scale(factor, s)]
        pts.len() == INTEG_STEPS && (forall|i: int|
            0 <= i < pts.len() ==> (#[trigger] pts[i]).x == grid_point(
                r_mul(approx_inf.0, eps_shrink()),
                r_mul(approx_inf.1, eps_shrink()),
                INTEG_STEPS,
                i,
            ) && sup_or_zero_post(waves, s, pts[i].x, pts[i].y)) && factor == renorm_factor_formula(
            pts,
        ) && scaling == c_scale(factor, s)
}

/// A factor computed by `renormalize_factor` over a sampler whose every
/// value is a scaled member sum yields a renormalized superposition scaling.
proof fn lemma_renormalized_superposition<G: Fn(Scalar) -> Cplx, F: Fn(Scalar) -> Scalar, A: Fn(
    Cplx,
) -> Cplx>(
    g: G,
    waves: Seq<WaveFunction<F, A>>,
    s: Cplx,
    approx_inf: (Scalar, Scalar),
    factor: Scalar,
    scaling: Cplx,
)
    requires
        renorm_factor_post(g, approx_inf, factor),
        forall|t: Scalar, v: Cplx| #[trigger] call_ensures(g, (t,), v) ==> sup_or_zero_post(
            waves,
            s,
            t,
            v,
        ),
        scaling == c_scale(factor, s),
    ensures
        renormalized_superposition(waves, s, approx_inf, scaling),
{
    let pts = choose|pts: Seq<SampledPoint>|
        #![trigger pts.len()]
        pts.len() == INTEG_STEPS && (forall|i: int|
            0 <= i < pts.len() ==> (#[trigger] pts[i]).x == grid_point(
                r_mul(approx_inf.0, eps_shrink()),
                r_mul(approx_inf.1, eps_shrink()),
                INTEG_STEPS,
                i,
            ) && call_ensures(g, (pts[i].x,), pts[i].y)) && factor == renorm_factor_formula(pts);
    assert(pts.len() == INTEG_STEPS);
    assert forall|i: int| 0 <= i < pts.len() implies (#[trigger] pts[i]).x == grid_point(
        r_mul(approx_inf.0, eps_shrink()),
        r_mul(approx_inf.1, eps_shrink()),
        INTEG_STEPS,
        i,
    ) && sup_or_zero_post(waves, s, pts[i].x, pts[i].y) by {
        assert(call_ensures(g, (pts[i].x,), pts[i].y));
    };
    assert(renormalized_superposition(waves, s, approx_inf, scaling));
}

/// A superposition: one assembled wavefunction per requested state, each
/// already scaled by its own factor, under one global scaling.
pub struct Superposition<'a, F: Fn(Scalar) -> Scalar, A: Fn(Cplx) -> Cplx> {
    pub wave_funcs: Vec<WaveFunction<'a, F, A>>,
    pub scaling: Cplx,
}

impl<'a, F: Fn(Scalar) -> Scalar, A: Fn(Cplx) -> Cplx> Superposition<'a, F, A> {
    /// The superposition is usable when each member is.
    pub open spec fn wf(&self) -> bool {
        forall|i: int| 0 <= i < self.wave_funcs@.len() ==> (#[trigger] self.wave_funcs@[i]).wf()
    }

    /// Builds one wavefunction per `(state, factor)` request, each scaled by
    /// its factor, then applies the global scaling.
    pub fn new<G: Fn(usize) -> Scalar>(
        potential: &'a F,
        mass: Scalar,
        n_energies_scaling: &Vec<(usize, Cplx)>,
        approx_inf: (Scalar, Scalar),
        view_factor: Scalar,
        scaling: ScalingType,
        nth_energy: &G,
        ai: &'a A,
    ) -> (r: Result<Self, FatalError>) where F: Sync
        requires
            forall|t: Scalar| #[trigger] call_requires(*potential, (t,)),
            forall|t: Cplx| #[trigger] call_requires(*ai, (t,)),
            forall|n: usize| #[trigger] call_requires(*nth_energy, (n,)),
        ensures
            match r {
                Ok(sp) => {
                    &&& sp.wf()
                    &&& sp.wave_funcs@.len() == n_energies_scaling@.len()
                    &&& (forall|i: int|
                        0 <= i < sp.wave_funcs@.len() ==> (#[trigger] sp.wave_funcs@[i]).scaling
                            == n_energies_scaling@[i].1 && sp.wave_funcs@[i].phase.mass == mass
                            && call_ensures(
                            *nth_energy,
                            (n_energies_scaling@[i].0,),
                            sp.wave_funcs@[i].phase.energy,
                        ))
                    &&& (match scaling {
                        ScalingType::Mul(s) => sp.scaling == s,
                        ScalingType::Unscaled => sp.scaling == c_one(),
                        ScalingType::Renormalize(s) => renormalized_superposition(
                            sp.wave_funcs@,
                            s,
                            approx_inf,
                            sp.scaling,
                        ),
                    })
                },
                Err(e) => exists|en: Scalar, idx: int|
                    #![trigger call_ensures(*nth_energy, (n_energies_scaling@[idx].0,), en)]
                    0 <= idx < n_energies_scaling@.len() && call_ensures(
                        *nth_energy,
                        (n_energies_scaling@[idx].0,),
                        en,
                    ) && detection_failure(en, mass, *potential, e),
            },
    {
        let n = n_energies_scaling.len();
        let mut waves: Vec<WaveFunction<'a, F, A>> = Vec::new();
        let mut i: usize = 0;
        while i < n
            invariant
                i <= n,
                n == n_energies_scaling@.len(),
                forall|t: Scalar| #[trigger] call_requires(*potential, (t,)),
                forall|t: Cplx| #[trigger] call_requires(*ai, (t,)),
                forall|nn: usize| #[trigger] call_requires(*nth_energy, (nn,)),
                waves@.len() == i,
                forall|j: int| 0 <= j < i ==> (#[trigger] waves@[j]).wf(),
                forall|j: int|
                    0 <= j < i ==> (#[trigger] waves@[j]).scaling == n_energies_scaling@[j].1
                        && waves@[j].phase.mass == mass && call_ensures(
                        *nth_energy,
                        (n_energies_scaling@[j].0,),
                        waves@[j].phase.energy,
                    ),
            decreases n - i,
        {
            let (e, scale) = n_energies_scaling[i];
            let wave = match WaveFunction::new(
                potential,
                mass,
                e,
                approx_inf,
                view_factor,
                ScalingType::Mul(scale),
                nth_energy,
                ai,
            ) {
                Ok(w) => w,
                Err(err) => {
                    proof {
                        let en = choose|en: Scalar|
                            #[trigger] call_ensures(*nth_energy, (e,), en) && detection_failure(
                                en,
                                mass,
                                *potential,
                                err,
                            );
                        assert(n_energies_scaling@[i as int].0 == e);
                        assert(call_ensures(*nth_energy, (n_energies_scaling@[i as int].0,), en)
                            && detection_failure(en, mass, *potential, err));
                    }
                    return Err(err);
                },
            };
            waves.push(wave);
            i += 1;
        }
        match scaling {
            ScalingType::Mul(s) => Ok(Superposition { wave_funcs: waves, scaling: s }),
            ScalingType::Unscaled => Ok(Superposition { wave_funcs: waves, scaling: cone() }),
            ScalingType::Renormalize(s) => {
                let unscaled = Superposition { wave_funcs: waves, scaling: s };
                proof {
                    assert(unscaled.wf());
                }
                let ghost gpost: spec_fn(Scalar, Cplx) -> bool = |t: Scalar, v: Cplx|
                    sup_or_zero_post(unscaled.wave_funcs@, s, t, v);
                let factor = {
                    let sampler = |x: Scalar| -> (v: Cplx)
                        ensures
                            gpost(x, v),
                        { unscaled.eval_or_zero(x) };
                    proof {
                        assert(forall|t: Scalar| #[trigger] call_requires(sampler, (t,)));
                    }
                    let factor = renormalize_factor(&sampler, approx_inf);
                    proof {
                        assert forall|t: Scalar, v: Cplx| #[trigger]
                            call_ensures(sampler, (t,), v) implies sup_or_zero_post(
                            unscaled.wave_funcs@,
                            s,
                            t,
                            v,
                        ) by {
                            assert(gpost(t, v));
                        };
                        lemma_renormalized_superposition(
                            sampler,
                            unscaled.wave_funcs@,
                            s,
                            approx_inf,
                            factor,
                            c_scale(factor, s),
                        );
                    }
                    factor
                };
                let Superposition { wave_funcs, scaling: s0 } = unscaled;
                let sp = Superposition { wave_funcs, scaling: cscale(factor, s0) };
                proof {
                    assert(renormalized_superposition(sp.wave_funcs@, s, approx_inf, sp.scaling));
                }
                Ok(sp)
            },
        }
    }

    /// The members' values at `x` (zero outside a member's pieces), summed in
    /// order and scaled.
    pub fn eval_or_zero(&self, x: Scalar) -> (r: Cplx)
        requires
            self.wf(),
        ensures
            sup_or_zero_post(self.wave_funcs@, self.scaling, x, r),
    {
        let n = self.wave_funcs.len();
        let mut sum = czero();
        let ghost mut vals: Seq<Cplx> = Seq::empty();
        let mut i: usize = 0;
        while i < n
            invariant
                i <= n,
                n == self.wave_funcs@.len(),
                self.wf(),
                vals.len() == i,
                forall|j: int|
                    0 <= j < i ==> wave_or_zero_post(self.wave_funcs@[j], x, #[trigger] vals[j]),
                sum == c_sum(vals),
            decreases n - i,
        {
            let v = self.wave_funcs[i].eval_or_zero(x);
            sum = cadd(sum, v);
            proof {
                let prev = vals;
                vals = vals.push(v);
                assert(vals.drop_last() =~= prev);
                assert(vals.last() == v);
                assert(wave_or_zero_post(self.wave_funcs@[i as int], x, v));
            }
            i += 1;
        }
        let r = cmul(self.scaling, sum);
        proof {
            assert(r == c_mul(self.scaling, c_sum(vals)));
            assert(sup_or_zero_post(self.wave_funcs@, self.scaling, x, r));
        }
        r
    }

    /// The members' scaled values at `x`, summed in order and scaled; a point
    /// outside some member's pieces is the fatal out-of-range condition.
    pub fn eval(&self, x: Scalar) -> (r: Result<Cplx, FatalError>)
        requires
            self.wf(),
        ensures
            match r {
                Ok(v) => exists|vals: Seq<Cplx>|
                    #![trigger vals.len()]
                    vals.len() == self.wave_funcs@.len() && (forall|i: int|
                        0 <= i < vals.len() ==> wave_eval_post(
                            self.wave_funcs@[i],
                            x,
                            #[trigger] vals[i],
                        )) && v == c_mul(self.scaling, c_sum(vals)),
                Err(e) => e == FatalError::OutOfRange && exists|i: int|
                    0 <= i < self.wave_funcs@.len() && no_part_contains(
                        (#[trigger] self.wave_funcs@[i]).parts@,
                        x,
                    ),
            },
    {
        let n = self.wave_funcs.len();
        let mut sum = czero();
        let ghost mut vals: Seq<Cplx> = Seq::empty();
        let mut i: usize = 0;
        while i < n
            invariant
                i <= n,
                n == self.wave_funcs@.len(),
                self.wf(),
                vals.len() == i,
                forall|j: int|
                    0 <= j < i ==> wave_eval_post(self.wave_funcs@[j], x, #[trigger] vals[j]),
                sum == c_sum(vals),
            decreases n - i,
        {
            let v = match self.wave_funcs[i].eval(x) {
                Ok(v) => v,
                Err(e) => {
                    return Err(e);
                },
            };
            sum = cadd(sum, v);
            proof {
                let prev = vals;
                vals = vals.push(v);
                assert(vals.drop_last() =~= prev);
                assert(vals.last() == v);
                let u = choose|u: Cplx|
                    #[trigger] psi_post(self.wave_funcs@[i as int].parts@, x, u) && v == c_mul(
                        self.wave_funcs@[i as int].scaling,
                        u,
                    );
                assert(c_mul(self.wave_funcs@[i as int].scaling, u) == vals[i as int] && psi_post(
                    self.wave_funcs@[i as int].parts@,
                    x,
                    u,
                ));
                assert(wave_eval_post(self.wave_funcs@[i as int], x, vals[i as int]));
            }
            i += 1;
        }
        let out = cmul(self.scaling, sum);
        proof {
            assert(vals.len() == self.wave_funcs@.len());
            assert(out == c_mul(self.scaling, c_sum(vals)));
        }
        Ok(out)
    }

    /// The hull of the members' views: the least lower edge and the greatest
    /// upper edge.
    pub fn get_view(&self) -> (r: (Scalar, Scalar))
        requires
            self.wave_funcs@.len() >= 1,
        ensures
            r.0 == fold_min(views_lo(self.wave_funcs@), self.wave_funcs@.len() as int),
            r.1 == fold_max(views_hi(self.wave_funcs@), self.wave_funcs@.len() as int),
    {
        let n = self.wave_funcs.len();
        let mut lo = self.wave_funcs[0].get_view().0;
        let mut hi = self.wave_funcs[0].get_view().1;
        let mut i: usize = 1;
        while i < n
            invariant
                1 <= i <= n,
                n == self.wave_funcs@.len(),
                lo == fold_min(views_lo(self.wave_funcs@), i as int),
                hi == fold_max(views_hi(self.wave_funcs@), i as int),
            decreases n - i,
        {
            let v = self.wave_funcs[i].get_view();
            if rlt(v.0, lo) {
                lo = v.0;
            }
            if rlt(hi, v.1) {
                hi = v.1;
            }
            i += 1;
        }
        (lo, hi)
    }
}

} // verus!
