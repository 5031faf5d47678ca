use num::complex::Complex64;
use schroedinger::cplx::Cplx;
use schroedinger::derivative::derivative;
use schroedinger::roots::{
    make_guess, newtons_method, newtons_method_max_iters, regula_falsi_bisection, FatalError,
    NewtonsMethodFindNewZero,
};
use schroedinger::scalar::Scalar;

fn sc(x: f64) -> Scalar {
    Scalar(Complex64::new(x, 0.0))
}

fn fx(s: Scalar) -> f64 {
    s.0.re
}

fn float_compare(expect: f64, actual: f64, epsilon: f64) -> bool {
    let average = (expect.abs() + actual.abs()) / 2.0;
    if average != 0.0 {
        (expect - actual).abs() / average < epsilon
    } else {
        (expect - actual).abs() < epsilon
    }
}

fn index_to_range_f(x: f64, a1: f64, b1: f64, a2: f64, b2: f64) -> f64 {
    a2 + (x - a1) * (b2 - a2) / (b1 - a1)
}

fn cmp_f64(a: &f64, b: &f64) -> std::cmp::Ordering {
    a.partial_cmp(b).unwrap()
}

#[test]
fn derivative_square_test() {
    let square = |x: Scalar| sc(fx(x) * fx(x));
    let actual = |x: f64| 2.0 * x;

    for i in 0..100 {
        let x = index_to_range_f(i as f64, 0.0, 100.0, -20.0, 20.0);
        assert!(float_compare(fx(derivative(&square, sc(x))), actual(x), 1e-4));
    }
}

#[test]
fn derivative_exp_test() {
    let exp = |x: Scalar| sc(fx(x).exp());

    for i in 0..100 {
        let x = index_to_range_f(i as f64, 0.0, 100.0, -20.0, 20.0);
        assert!(float_compare(fx(derivative(&exp, sc(x))), fx(exp(sc(x))), 1e-4));
    }
}

#[test]
fn newtons_method_square() {
    for i in 0..100 {
        let zero = index_to_range_f(i as f64, 0.0, 100.0, 0.1, 10.0);
        let func = |x: Scalar| sc(fx(x) * fx(x) - zero * zero);
        assert!(float_compare(
            fx(newtons_method(&func, sc(100.0), sc(1e-7)).unwrap()),
            zero,
            1e-4,
        ));
        assert!(float_compare(
            fx(newtons_method(&func, sc(-100.0), sc(1e-7)).unwrap()),
            -zero,
            1e-4,
        ));
    }
}

#[test]
fn newtons_method_cube() {
    for i in 0..100 {
        let zero = index_to_range_f(i as f64, 0.0, 100.0, 0.1, 10.0);
        let func = |x: Scalar| {
            let t = fx(x);
            sc((t - zero) * (t + zero) * (t - zero / 2.0))
        };
        assert!(float_compare(
            fx(newtons_method(&func, sc(100.0), sc(1e-7)).unwrap()),
            zero,
            1e-4,
        ));
        assert!(float_compare(
            fx(newtons_method(&func, sc(-100.0), sc(1e-7)).unwrap()),
            -zero,
            1e-4,
        ));
        assert!(float_compare(
            fx(newtons_method(&func, sc(0.0), sc(1e-7)).unwrap()),
            zero / 2.0,
            1e-4,
        ));
    }
}

#[test]
fn newtons_method_find_next_polynomial() {
    // The index grids walk the coefficient ranges with a coarse stride, so
    // the deflating finder is exercised on a spread of cubics within the
    // test-runner's time budget.
    for i in (0..10).step_by(3) {
        for j in (0..10).step_by(3) {
            for k in (0..10).step_by(3) {
                let a = index_to_range_f(i as f64, 0.0, 10.0, -10.0, 10.0);
                let b = index_to_range_f(j as f64, 0.0, 10.0, -100.0, 0.0);
                let c = index_to_range_f(k as f64, 0.0, 10.0, -1.0, 20.0);
                let test_func = |x: Scalar| {
                    let t = fx(x);
                    sc((t - a) * (t - b) * (t - c))
                };

                let mut finder = NewtonsMethodFindNewZero::new(test_func, sc(1e-15), 10000000);

                finder.next_zero(sc(1.0));
                finder.next_zero(sc(1.0));
                finder.next_zero(sc(1.0));

                let mut zeros_expected = [a, b, c];
                let mut zeros_actual: Vec<f64> =
                    finder.get_previous_zeros().iter().map(|z| fx(*z)).collect();

                zeros_expected.sort_by(cmp_f64);
                zeros_actual.sort_by(cmp_f64);

                assert_eq!(zeros_actual.len(), 3);

                for (expected, actual) in zeros_expected.iter().zip(zeros_actual.iter()) {
                    assert!((*expected - *actual).abs() < 1e-10);
                }
            }
        }
    }
}

#[test]
fn newtons_method_find_next_test() {
    let interval = (sc(-10.0), sc(10.0));

    let test_func = |x: Scalar| {
        let t = fx(x);
        sc(5.0 * (3.0 * t + 1.0).abs() - (1.5 * t.powi(2) + t - 50.0).powi(2))
    };

    let mut finder = NewtonsMethodFindNewZero::new(test_func, sc(1e-11), 100000000);

    for _i in 0..4 {
        let modified = |x: Scalar| finder.modified_func(x);
        let guess = make_guess(&modified, interval, 1000);
        finder.next_zero(guess.unwrap());
    }

    let mut zeros: Vec<f64> = finder.get_previous_zeros().iter().map(|z| fx(*z)).collect();
    zeros.sort_by(cmp_f64);
    let expected = [-6.65276132415, -5.58024707627, 4.91358040961, 5.98609465748];

    println!("zeros: {:#?}", zeros);

    assert_eq!(zeros.len(), expected.len());

    for (expected, actual) in expected.iter().zip(zeros.iter()) {
        assert!((*expected - *actual).abs() < 1e-10);
    }
}

#[test]
fn regula_falsi_bisection_test() {
    let func = |x: Scalar| {
        let t = fx(x);
        sc(t * (t - 2.0) * (t + 2.0))
    };

    let actual = fx(regula_falsi_bisection(&func, sc(-1e-3), sc(-1e-3), sc(1e-5)));
    let expected = -2.0;

    println!("expected: {}, actual {}", expected, actual);
    assert!(float_compare(expected, actual, 1e-3));
}

#[test]
fn newtons_method_zero_derivative_is_fatal() {
    let constant = |_x: Scalar| sc(3.5);
    let r = newtons_method(&constant, sc(1.0), sc(1e-7));
    assert!(matches!(r, Err(FatalError::ZeroDerivative)));
}

#[test]
fn newtons_method_max_iters_gives_up_quietly() {
    let constant = |_x: Scalar| sc(3.5);
    let r = newtons_method_max_iters(&constant, sc(1.0), sc(1e-7), 50);
    assert!(r.is_none());
}

#[test]
fn make_guess_picks_least_weighted_sample() {
    // f(x) = (x - 3)^2 - 1 dips nearest zero around x = 2 and x = 4 inside
    // the sampled grid; the guess must be one of the sampled positions and
    // carry the least weighted magnitude.
    let f = |x: Scalar| {
        let t = fx(x);
        sc((t - 3.0) * (t - 3.0) - 1.0)
    };
    let g = make_guess(&f, (sc(0.0), sc(5.0)), 50).unwrap();
    let pos = fx(g);
    assert!((0.0..=5.0).contains(&pos));
    assert!((pos - 2.0).abs() < 0.2 || (pos - 4.0).abs() < 0.2);
    assert!(make_guess(&f, (sc(0.0), sc(5.0)), 0).is_none());
}

#[test]
fn stateless_deflation_divides_by_the_known_zero_product() {
    // With the root at 1 already known, the stateless variant searches
    // f(x) / (x - 1) = x + 1, so from a seed between the roots it lands on
    // the other root instead of reconverging to the known one.
    let f = |x: Scalar| {
        let t = fx(x);
        sc((t - 1.0) * (t + 1.0))
    };
    let known = vec![sc(1.0)];
    let r = schroedinger::roots::newtons_method_find_new_zero(&f, sc(0.5), sc(1e-9), 1000, &known);
    let z = fx(r.unwrap());
    assert!((z + 1.0).abs() < 1e-6, "found {}", z);
}
