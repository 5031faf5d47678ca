use num::complex::Complex64;
use schroedinger::airy::{AiryWaveFunction, Bi};
use schroedinger::builder::{
    renormalize, renormalize_factor, sign_match_complex, ApproxPart, PureWkb, ScalingType,
    Superposition, WaveFunction, WavePart,
};
use schroedinger::cplx::Cplx;
use schroedinger::integrate::integrate;
use schroedinger::roots::FatalError;
use schroedinger::sample::evaluate_function_between;
use schroedinger::scalar::Scalar;
use schroedinger::wkb::{Phase, WkbWaveFunction};

fn sc(x: f64) -> Scalar {
    Scalar(Complex64::new(x, 0.0))
}

fn fx(s: Scalar) -> f64 {
    s.0.re
}

fn cx(re: f64, im: f64) -> Cplx {
    Cplx { re: sc(re), im: sc(im) }
}

fn to64(c: Cplx) -> Complex64 {
    Complex64::new(fx(c.re), fx(c.im))
}

fn index_to_range_f(x: f64, a1: f64, b1: f64, a2: f64, b2: f64) -> f64 {
    a2 + (x - a1) * (b2 - a2) / (b1 - a1)
}

fn linear_potential(x: Scalar) -> Scalar {
    x
}

fn smooth_ai(z: Cplx) -> Cplx {
    let w = to64(z);
    let v = (-w).exp();
    cx(v.re, v.im)
}

#[test]
fn sign_check_complex_test() {
    // The index grids stride a fine sampling of the range so the symmetry
    // check stays within the test-runner's time budget.
    let range = (-50.0, 50.0);
    let n = 100000;
    for ri1 in (0..n).step_by(24990) {
        for ii1 in (0..n).step_by(24990) {
            for ri2 in (0..n).step_by(24990) {
                for ii2 in (0..n).step_by(24990) {
                    let re1 = index_to_range_f(ri1 as f64, 0.0, n as f64, range.0, range.1);
                    let im1 = index_to_range_f(ii1 as f64, 0.0, n as f64, range.0, range.1);
                    let re2 = index_to_range_f(ri2 as f64, 0.0, n as f64, range.0, range.1);
                    let im2 = index_to_range_f(ii2 as f64, 0.0, n as f64, range.0, range.1);

                    assert_eq!(
                        sign_match_complex(cx(re1, im1), cx(re2, im2)),
                        sign_match_complex(cx(re2, im2), cx(re1, im1))
                    );
                }
            }
        }
    }
}

#[test]
fn sign_match_complex_dominant_component() {
    // (1, 100) reduces to its imaginary part, (-1, 50) too: signs match on
    // the dominant components even though the real signs differ.
    assert!(sign_match_complex(cx(1.0, 100.0), cx(-1.0, 50.0)));
    // Dominant components with opposite signs do not match.
    assert!(!sign_match_complex(cx(1.0, 100.0), cx(1.0, -100.0)));
}

#[test]
fn bi_follows_the_rotation_identity() {
    let ai = |z: Cplx| z;
    let x = Complex64::new(0.7, -0.3);
    let got = to64(Bi(&ai, cx(x.re, x.im)));
    let rot = Complex64::new(-0.5, 3.0_f64.sqrt() / 2.0);
    let fac = Complex64::new(3.0_f64.sqrt() / 2.0, 0.5);
    let expected = -Complex64::new(0.0, 1.0) * x + 2.0 * (x * rot) * fac;
    assert!((got - expected).norm() < 1e-12);
}

#[test]
fn joint_blend_is_continuous_at_every_boundary() {
    let phase = Phase { energy: sc(1.0), mass: sc(1.0), phase_off: sc(0.0), potential: &linear_potential };
    let wkb = WkbWaveFunction::new(phase, cx(1.0, 0.0), 200, sc(1.0), sc(-2.0), sc(0.0));
    let airy = AiryWaveFunction {
        ai: &smooth_ai,
        c: cx(1.0, 0.0),
        u_1: sc(-2.0),
        turning_point: sc(1.0),
        phase_off: sc(0.0),
        ts: (sc(0.8), sc(1.2)),
    };
    let part = ApproxPart::new(airy, wkb, (sc(0.0), sc(2.0)));

    // The transition bands are (0.7, 0.9) and (1.1, 1.3); together with the
    // bracket ends these are the internal seams of the patched segment.
    let h = 1e-9;
    for boundary in [0.7, 0.9, 1.1, 1.3] {
        let left = to64(part.eval(sc(boundary - h)));
        let right = to64(part.eval(sc(boundary + h)));
        assert!(
            (left - right).norm() < 1e-4,
            "jump at {}: {} vs {}",
            boundary,
            left,
            right
        );
    }
}

#[test]
fn renormalization_gives_unit_norm() {
    // A wavefunction of unit norm: the ground Gaussian of the harmonic well.
    let psi = |x: Scalar| {
        let t = fx(x);
        let v = (1.0 / std::f64::consts::PI).powf(0.25) * (-t * t / 2.0).exp();
        cx(v, 0.0)
    };
    let bounds = (sc(-10.0), sc(10.0));
    let scaled = renormalize(psi, bounds);

    let factor = to64(scaled.scale);
    assert!((factor.re - 1.0).abs() < 1e-4);
    assert_eq!(factor.im, 0.0);

    let sampler = |x: Scalar| scaled.eval(x);
    let pts = evaluate_function_between(&sampler, sc(-10.0), sc(10.0), 64000);
    let mut norm_pts = Vec::new();
    for p in pts.iter() {
        let v = to64(p.y);
        norm_pts.push(schroedinger::sample::SampledPoint { x: p.x, y: cx(v.norm_sqr(), 0.0) });
    }
    let area = fx(integrate(&norm_pts, 1000).re);
    assert!((area - 1.0).abs() < 1e-4, "norm after renormalization: {}", area);
}

#[test]
fn renormalization_of_zero_area_is_skipped() {
    let psi = |_x: Scalar| cx(0.0, 0.0);
    let factor = renormalize_factor(&psi, (sc(-10.0), sc(10.0)));
    assert_eq!(fx(factor), 1.0);
}

#[test]
fn calc_psi_outside_every_range_is_fatal() {
    let phase = Phase { energy: sc(1.0), mass: sc(1.0), phase_off: sc(0.0), potential: &linear_potential };
    let wkb = WkbWaveFunction::new(phase, cx(1.0, 0.0), 50, sc(0.0), sc(0.0), sc(0.0));
    let w: WaveFunction<_, fn(Cplx) -> Cplx> = WaveFunction {
        phase: Phase { energy: sc(1.0), mass: sc(1.0), phase_off: sc(0.0), potential: &linear_potential },
        view: (sc(0.0), sc(1.0)),
        parts: vec![WavePart::Pure(PureWkb { wkb, range: (sc(0.0), sc(1.0)) })],
        airy_ranges: vec![],
        wkb_ranges: vec![(sc(0.0), sc(1.0))],
        scaling: cx(1.0, 0.0),
    };
    assert!(w.calc_psi(sc(0.5)).is_ok());
    assert!(matches!(w.calc_psi(sc(5.0)), Err(FatalError::OutOfRange)));
    assert!(matches!(w.eval(sc(5.0)), Err(FatalError::OutOfRange)));
    assert!(w.is_wkb(sc(0.5)));
    assert!(!w.is_airy(sc(0.5)));
    let clipped = w.get_wkb_ranges_in_view();
    assert_eq!(clipped.len(), 1);
    assert_eq!(fx(clipped[0].0), 0.0);
    assert_eq!(fx(clipped[0].1), 1.0);
}

#[test]
fn assembled_wave_function_covers_its_parts() {
    // A flat potential leaves no turning point in view, so the assembler
    // falls back to two pure WKB halves split at the view's middle.
    let flat = |_x: Scalar| sc(0.0);
    let nth = |n: usize| sc(n as f64 + 0.5);
    let ai = |z: Cplx| z;
    let w = WaveFunction::new(
        &flat,
        sc(1.0),
        1,
        (sc(-5.0), sc(5.0)),
        sc(0.5),
        ScalingType::Mul(cx(2.0, 0.0)),
        &nth,
        &ai,
    )
    .unwrap();
    assert_eq!(w.parts.len(), 2);
    assert_eq!(fx(w.get_energy()), 1.5);
    assert_eq!(to64(w.scaling), Complex64::new(2.0, 0.0));
    // The two halves share their middle boundary exactly.
    let r = w.get_wkb_ranges();
    assert_eq!(fx(r[0].1).to_bits(), fx(r[1].0).to_bits());
    // Inside the view the evaluation succeeds, and scaling doubles it.
    let v = to64(w.eval(sc(0.25)).unwrap());
    let u = to64(w.calc_psi(sc(0.25)).unwrap());
    assert!((v - u * 2.0).norm() < 1e-12);
}

#[test]
fn superposition_view_is_the_hull() {
    let flat = |_x: Scalar| sc(0.0);
    let nth = |n: usize| sc(n as f64 + 0.5);
    let ai = |z: Cplx| z;
    let w1 = WaveFunction::new(
        &flat,
        sc(1.0),
        0,
        (sc(-5.0), sc(5.0)),
        sc(0.5),
        ScalingType::Unscaled,
        &nth,
        &ai,
    )
    .unwrap();
    let mut w2 = WaveFunction::new(
        &flat,
        sc(1.0),
        1,
        (sc(-5.0), sc(5.0)),
        sc(0.5),
        ScalingType::Unscaled,
        &nth,
        &ai,
    )
    .unwrap();
    w2.set_view((sc(-7.0), sc(3.0)));
    let sup = Superposition { wave_funcs: vec![w1, w2], scaling: cx(1.0, 0.0) };
    let view = sup.get_view();
    assert_eq!(fx(view.0), -7.0);
    assert!(fx(view.1) > 4.9);
}

#[test]
fn pi_is_built_exactly() {
    assert_eq!(
        fx(schroedinger::airy::pi_value()).to_bits(),
        std::f64::consts::PI.to_bits()
    );
}

#[test]
fn superposition_sums_its_members() {
    let flat = |_x: Scalar| sc(0.0);
    let nth = |n: usize| sc(n as f64 + 0.5);
    let ai = |z: Cplx| z;
    let w1 = WaveFunction::new(
        &flat,
        sc(1.0),
        0,
        (sc(-5.0), sc(5.0)),
        sc(0.5),
        ScalingType::Mul(cx(1.0, 0.0)),
        &nth,
        &ai,
    )
    .unwrap();
    let w2 = WaveFunction::new(
        &flat,
        sc(1.0),
        2,
        (sc(-5.0), sc(5.0)),
        sc(0.5),
        ScalingType::Mul(cx(0.0, 1.0)),
        &nth,
        &ai,
    )
    .unwrap();
    let x = sc(0.125);
    let expected = to64(w1.eval(x).unwrap()) + to64(w2.eval(x).unwrap());
    let sup = Superposition { wave_funcs: vec![w1, w2], scaling: cx(1.0, 0.0) };
    let got = to64(sup.eval(x).unwrap());
    assert!((got - expected).norm() < 1e-12);
    let or_zero = to64(sup.eval_or_zero(x));
    assert!((or_zero - expected).norm() < 1e-12);
}
