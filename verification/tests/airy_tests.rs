use num::complex::Complex64;
use schroedinger::airy::{cramer_coefficients, AiryWaveFunction, Bi};
use schroedinger::cplx::Cplx;
use schroedinger::integrate::integrate;
use schroedinger::sample::evaluate_function_between;
use schroedinger::scalar::Scalar;
use schroedinger::wkb::{momentum_value, Phase};

fn sc(x: f64) -> Scalar {
    Scalar(Complex64::new(x, 0.0))
}

fn fx(s: Scalar) -> f64 {
    s.0.re
}

fn cx(re: f64, im: f64) -> Cplx {
    Cplx { re: sc(re), im: sc(im) }
}

fn to64(c: Cplx) -> Complex64 {
    Complex64::new(fx(c.re), fx(c.im))
}

fn linear_potential(x: Scalar) -> Scalar {
    x
}

fn mock_ai(z: Cplx) -> Cplx {
    // A smooth stand-in for the special-function provider: precision does
    // not matter for the matching algebra, smoothness does.
    let w = to64(z);
    let v = (-w).exp() * 0.3;
    cx(v.re, v.im)
}

#[test]
fn cramer_solves_the_two_by_two_system() {
    let ai1 = cx(1.0, 0.5);
    let bi1 = cx(-0.5, 2.0);
    let ai2 = cx(0.25, -1.0);
    let bi2 = cx(3.0, 0.125);
    let (wp1, wm1, wp2, wm2) = (2.0, 0.5, 4.0, 0.25);
    let (c_a, c_b) = cramer_coefficients(
        ai1,
        bi1,
        ai2,
        bi2,
        sc(wp1),
        sc(wm1),
        sc(wp2),
        sc(wm2),
        (sc(1.5), sc(-0.75)),
    );

    let (a1, b1, a2, b2) = (to64(ai1), to64(bi1), to64(ai2), to64(bi2));
    let det = a1 * b2 - a2 * b1;
    let (cw0, cw1) = (1.5, -0.75);
    let ea = (-cw1 * (b1 * wm2 - b2 * wm1)) / det - (cw0 * (b1 * wp2 - b2 * wp1)) / det;
    let eb = (cw1 * (a1 * wm2 - a2 * wm1)) / det + (cw0 * (a1 * wp2 - a2 * wp1)) / det;
    assert!((to64(c_a) - ea).norm() < 1e-12);
    assert!((to64(c_b) - eb).norm() < 1e-12);
}

#[test]
fn matching_coefficients_come_from_the_sampled_ingredients() {
    let phase = Phase {
        energy: sc(1.0),
        mass: sc(1.0),
        phase_off: sc(0.0),
        potential: &linear_potential,
    };
    let t = (sc(0.8), sc(1.2));
    let c_wkb = (sc(1.0), sc(0.5));
    let u_1 = sc(-2.0);
    let x_1 = sc(1.0);
    let x_0 = sc(0.0);

    let (c_a, c_b) = AiryWaveFunction::calc_c_a_and_c_b(&phase, t, c_wkb, u_1, x_1, x_0, &mock_ai);

    // Rebuild the ingredients through the same public pieces: the matching
    // must be exactly their Cramer combination.
    let mom = |s: Scalar| {
        let p = momentum_value(sc(1.0), sc(1.0), &linear_potential, s);
        Cplx { re: p, im: sc(0.0) }
    };
    let phi1 = fx(integrate(&evaluate_function_between(&mom, x_0, t.0, 64000), 1000).re);
    let phi2 = fx(integrate(&evaluate_function_between(&mom, x_0, t.1, 64000), 1000).re);
    let p1 = fx(momentum_value(sc(1.0), sc(1.0), &linear_potential, t.0));
    let p2 = fx(momentum_value(sc(1.0), sc(1.0), &linear_potential, t.1));
    let (wp1, wm1) = (phi1.exp() / p1.sqrt(), (-phi1).exp() / p1.sqrt());
    let (wp2, wm2) = (phi2.exp() / p2.sqrt(), (-phi2).exp() / p2.sqrt());

    let cbrt = fx(AiryWaveFunction::<fn(Cplx) -> Cplx>::get_u_1_cube_root(u_1));
    let arg1 = cx(cbrt * (fx(t.0) - fx(x_1)), 0.0);
    let arg2 = cx(cbrt * (fx(t.1) - fx(x_1)), 0.0);
    let (ai1, bi1) = (mock_ai(arg1), Bi(&mock_ai, arg1));
    let (ai2, bi2) = (mock_ai(arg2), Bi(&mock_ai, arg2));

    let (ea, eb) = cramer_coefficients(
        ai1,
        bi1,
        ai2,
        bi2,
        sc(wp1),
        sc(wm1),
        sc(wp2),
        sc(wm2),
        c_wkb,
    );
    assert_eq!(to64(c_a), to64(ea));
    assert_eq!(to64(c_b), to64(eb));
}
