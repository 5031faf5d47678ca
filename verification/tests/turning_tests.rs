use num::complex::Complex64;
use schroedinger::scalar::Scalar;
use schroedinger::turning::{calc_ts, group_ts, sort_scalars, TGroup};
use schroedinger::wkb::Phase;

fn sc(x: f64) -> Scalar {
    Scalar(Complex64::new(x, 0.0))
}

fn fx(s: Scalar) -> f64 {
    s.0.re
}

// The symmetric double well used by the pairing scenario.
fn double_well(x: Scalar) -> Scalar {
    let t = fx(x);
    sc((t * t - 4.0) * (t * t - 4.0) / 8.0)
}

fn double_well_f(x: f64) -> f64 {
    (x * x - 4.0) * (x * x - 4.0) / 8.0
}

// The validity function of the double well at energy 1 and mass 1, written
// with the analytic derivative: its zeros seed the grouping.
fn validity_f(x: f64) -> f64 {
    let du = x * (x * x - 4.0) / 2.0;
    1.0 / 2.0_f64.sqrt() * du.abs() - (double_well_f(x) - 1.0).powi(2)
}

#[test]
fn tgroup_collects_entries() {
    let mut g = TGroup::new();
    assert_eq!(g.ts.len(), 0);
    g.add_ts(((sc(1.0), sc(2.0)), sc(1.5)));
    assert_eq!(g.ts.len(), 1);
    assert_eq!(fx(g.ts[0].1), 1.5);
}

#[test]
fn sort_scalars_orders_and_keeps_elements() {
    let input = vec![sc(3.0), sc(-1.0), sc(2.5), sc(-1.0), sc(0.0)];
    let out = sort_scalars(&input);
    assert_eq!(out.len(), 5);
    let vals: Vec<f64> = out.iter().map(|s| fx(*s)).collect();
    assert_eq!(vals, vec![-1.0, -1.0, 0.0, 2.5, 3.0]);
}

#[test]
fn double_well_pairing_is_even_and_brackets_its_turning_points() {
    // Locate the validity function's sign changes by scanning and bisecting;
    // these are the zeros the detection would deflate towards.
    let mut zeros: Vec<f64> = Vec::new();
    let mut x = -4.0;
    let step = 0.001;
    while x < 4.0 {
        let a = validity_f(x);
        let b = validity_f(x + step);
        if (a <= 0.0 && b > 0.0) || (a >= 0.0 && b < 0.0) {
            let mut lo = x;
            let mut hi = x + step;
            for _ in 0..60 {
                let mid = (lo + hi) / 2.0;
                if (validity_f(lo) <= 0.0) == (validity_f(mid) <= 0.0) {
                    lo = mid;
                } else {
                    hi = mid;
                }
            }
            zeros.push((lo + hi) / 2.0);
        }
        x += step;
    }
    assert!(zeros.len() >= 4 && zeros.len() % 2 == 0, "zeros found: {:?}", zeros);

    let zv: Vec<Scalar> = zeros.iter().map(|z| sc(*z)).collect();
    let phase = Phase { energy: sc(1.0), mass: sc(1.0), phase_off: sc(0.0), potential: &double_well };
    let groups = group_ts(&zv, &phase).unwrap();

    // The pairing is even: every boundary zero is consumed by exactly one
    // pair, and the pair count here is the double well's two wells times two.
    assert_eq!(groups.ts.len() * 2, zeros.len());
    assert!(groups.ts.len() % 2 == 0, "pairs: {}", groups.ts.len());

    for ((t1, t2), tp) in groups.ts.iter() {
        let (a, b, t) = (fx(*t1), fx(*t2), fx(*tp));
        assert!(a < t && t < b, "turning point {} outside bracket ({}, {})", t, a, b);
        // The interior point is a classical turning point: U(t) = E.
        assert!((double_well_f(t) - 1.0).abs() < 1e-5);
    }
}

#[test]
fn calc_ts_on_a_well_without_crossings_is_empty() {
    // At this energy the flat potential keeps the validity function negative
    // everywhere: no turning-point bracket lies in view.
    let flat = |_x: Scalar| sc(0.0);
    let phase = Phase { energy: sc(1.0), mass: sc(1.0), phase_off: sc(0.0), potential: &flat };
    let groups = calc_ts(&phase, (sc(-3.0), sc(3.0))).unwrap();
    assert_eq!(groups.ts.len(), 0);
}
