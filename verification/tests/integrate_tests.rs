use num::complex::Complex64;
use schroedinger::cplx::Cplx;
use schroedinger::integrate::integrate;
use schroedinger::sample::{evaluate_function_between, SampledPoint};
use schroedinger::scalar::Scalar;

fn sc(x: f64) -> Scalar {
    Scalar(Complex64::new(x, 0.0))
}

fn fx(s: Scalar) -> f64 {
    s.0.re
}

fn cx(re: f64, im: f64) -> Cplx {
    Cplx { re: sc(re), im: sc(im) }
}

fn square_complex(x: Scalar) -> Cplx {
    cx(fx(x) * fx(x), 0.0)
}

#[test]
fn integrator_matches_cubic_antiderivative() {
    let a = -2.0;
    let b = 3.0;
    let pts = evaluate_function_between(&square_complex, sc(a), sc(b), 64000);
    let area = fx(integrate(&pts, 1000).re);
    let exact = (b * b * b - a * a * a) / 3.0;
    assert!((area - exact).abs() / exact.abs() < 1e-5);
}

#[test]
fn integrator_is_exactly_zero_on_an_empty_interval() {
    let a = 1.5;
    let pts = evaluate_function_between(&square_complex, sc(a), sc(a), 64000);
    let v = integrate(&pts, 1000);
    assert_eq!(fx(v.re), 0.0);
    assert_eq!(fx(v.im), 0.0);
}

#[test]
fn integrator_is_zero_below_two_points() {
    let pts = evaluate_function_between(&square_complex, sc(0.0), sc(1.0), 1);
    let v = integrate(&pts, 1000);
    assert_eq!(fx(v.re), 0.0);
    assert_eq!(fx(v.im), 0.0);
}

#[test]
fn integrator_is_invariant_to_chunk_size() {
    // Integer-valued samples keep every partial sum exact, so the chunked
    // totals agree bit for bit across chunk sizes.
    let mut pts: Vec<SampledPoint> = Vec::new();
    for i in 0..5000 {
        pts.push(SampledPoint { x: sc(i as f64), y: cx(((i * 7) % 1000) as f64, (i % 13) as f64) });
    }
    let reference = integrate(&pts, 1);
    for chunk in [2usize, 3, 7, 100, 999, 1000, 5000, 100000] {
        let v = integrate(&pts, chunk);
        assert_eq!(fx(v.re).to_bits(), fx(reference.re).to_bits());
        assert_eq!(fx(v.im).to_bits(), fx(reference.im).to_bits());
    }
}

#[test]
fn evaluate_function_between_hits_exact_grid() {
    let pts = evaluate_function_between(&square_complex, sc(-2.0), sc(2.0), 5);
    assert_eq!(pts.len(), 5);
    let expected = [(-2.0, 4.0), (-1.0, 1.0), (0.0, 0.0), (1.0, 1.0), (2.0, 4.0)];
    for (p, (ex, ey)) in pts.iter().zip(expected.iter()) {
        assert_eq!(fx(p.x), *ex);
        assert_eq!(fx(p.y.re), *ey);
        assert_eq!(fx(p.y.im), 0.0);
    }
}
