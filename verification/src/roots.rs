//! The root-finding engine: Newton's method with and without an iteration
//! cap, sign-change bracketing, regula-falsi refinement, and a stateful
//! deflating zero finder.
//!
//! Contracts describe a run as a chain of genuine Newton steps: each step
//! divides a value the function actually returned by a five-point-stencil
//! derivative estimate built from values the function actually returned, so
//! a result can only be what the iteration really reached.

use vstd::prelude::*;

use rayon::prelude::IntoParallelRefIterator;
use rayon::prelude::ParallelIterator;

verus! {

use crate::scalar::{
    Scalar, r_add, r_sub, r_mul, r_div, r_neg, r_abs, r_exp, r_zero, r_one, r_eq, r_lt, r_le,
    r_powi, r_from_u32,
    radd, rsub, rmul, rdiv, rneg, rabs, rexp, rzero, rone, req, rlt, rle, rpowi, rfrom_u32,
};
use crate::derivative::{stencil_of, value_rel, derivative, lemma_stencil_mono};
use crate::sample::{lin_map, index_to_range};

/// The unrecoverable failures of the pipeline: a zero derivative met by the
/// uncapped Newton iteration, an odd count of turning-point boundaries, and
/// an evaluation outside every assembled range.
#[derive(Clone, Copy, Debug, PartialEq, Eq, Structural)]
pub enum FatalError {
    ZeroDerivative,
    OddBoundaryCount,
    OutOfRange,
}

/// One non-final Newton step from `g` to `g2` on a function whose admissible
/// values are `rel`: the stencil estimate `d` observed at `g` compared as
/// nonzero, the step `y / d` was not yet below the precision, and the
/// iteration moved to `g - y / d`.
pub open spec fn newton_step(
    rel: spec_fn(Scalar, Scalar) -> bool,
    prec: Scalar,
    g: Scalar,
    g2: Scalar,
) -> bool {
    exists|d: Scalar, y: Scalar|
        #![trigger stencil_of(rel, g, d), rel(g, y)]
        stencil_of(rel, g, d) && !r_eq(d, r_zero()) && rel(g, y) && !r_lt(
            r_abs(r_div(y, d)),
            prec,
        ) && g2 == r_sub(g, r_div(y, d))
}

/// `b` is reachable from `a` by exactly `k` non-final Newton steps.
pub open spec fn newton_reaches(
    rel: spec_fn(Scalar, Scalar) -> bool,
    prec: Scalar,
    a: Scalar,
    b: Scalar,
    k: nat,
) -> bool
    decreases k,
{
    if k == 0 {
        a == b
    } else {
        exists|g: Scalar|
            #[trigger] newton_step(rel, prec, a, g) && newton_reaches(
                rel,
                prec,
                g,
                b,
                (k - 1) as nat,
            )
    }
}

/// At `z` a stencil estimate built from observed values compared equal to
/// zero: the fatal condition of the uncapped iteration.
pub open spec fn newton_fatal_at(rel: spec_fn(Scalar, Scalar) -> bool, z: Scalar) -> bool {
    exists|d: Scalar| #[trigger] stencil_of(rel, z, d) && r_eq(d, r_zero())
}

/// At `z` the observed Newton step `y / d` fell below the precision.
pub open spec fn newton_converged_at(
    rel: spec_fn(Scalar, Scalar) -> bool,
    prec: Scalar,
    z: Scalar,
) -> bool {
    exists|d: Scalar, y: Scalar|
        #![trigger stencil_of(rel, z, d), rel(z, y)]
        stencil_of(rel, z, d) && !r_eq(d, r_zero()) && rel(z, y) && r_lt(r_abs(r_div(y, d)), prec)
}

/// A chain may be extended by one more step at its end.
proof fn lemma_newton_reaches_extend(
    rel: spec_fn(Scalar, Scalar) -> bool,
    prec: Scalar,
    a: Scalar,
    b: Scalar,
    c: Scalar,
    k: nat,
)
    requires
        newton_reaches(rel, prec, a, b, k),
        newton_step(rel, prec, b, c),
    ensures
        newton_reaches(rel, prec, a, c, (k + 1) as nat),
    decreases k,
{
    if k == 0 {
        assert(newton_reaches(rel, prec, c, c, 0));
    } else {
        let g = choose|g: Scalar|
            newton_step(rel, prec, a, g) && newton_reaches(rel, prec, g, b, (k - 1) as nat);
        lemma_newton_reaches_extend(rel, prec, g, b, c, (k - 1) as nat);
        assert(newton_step(rel, prec, a, g) && newton_reaches(rel, prec, g, c, k));
    }
}

/// A step on a stronger relation is a step on a weaker one.
proof fn lemma_newton_step_mono(
    rel1: spec_fn(Scalar, Scalar) -> bool,
    rel2: spec_fn(Scalar, Scalar) -> bool,
    prec: Scalar,
    g: Scalar,
    g2: Scalar,
)
    requires
        newton_step(rel1, prec, g, g2),
        forall|t: Scalar, y: Scalar| #[trigger] rel1(t, y) ==> rel2(t, y),
    ensures
        newton_step(rel2, prec, g, g2),
{
    let (d, y) = choose|d: Scalar, y: Scalar|
        stencil_of(rel1, g, d) && !r_eq(d, r_zero()) && rel1(g, y) && !r_lt(
            r_abs(r_div(y, d)),
            prec,
        ) && g2 == r_sub(g, r_div(y, d));
    lemma_stencil_mono(rel1, rel2, g, d);
    assert(stencil_of(rel2, g, d) && !r_eq(d, r_zero()) && rel2(g, y) && !r_lt(
        r_abs(r_div(y, d)),
        prec,
    ) && g2 == r_sub(g, r_div(y, d)));
}

/// A chain on a stronger relation is a chain on a weaker one.
pub proof fn lemma_newton_reaches_mono(
    rel1: spec_fn(Scalar, Scalar) -> bool,
    rel2: spec_fn(Scalar, Scalar) -> bool,
    prec: Scalar,
    a: Scalar,
    b: Scalar,
    k: nat,
)
    requires
        newton_reaches(rel1, prec, a, b, k),
        forall|t: Scalar, y: Scalar| #[trigger] rel1(t, y) ==> rel2(t, y),
    ensures
        newton_reaches(rel2, prec, a, b, k),
    decreases k,
{
    if k > 0 {
        let g = choose|g: Scalar|
            newton_step(rel1, prec, a, g) && newton_reaches(rel1, prec, g, b, (k - 1) as nat);
        lemma_newton_step_mono(rel1, rel2, prec, a, g);
        lemma_newton_reaches_mono(rel1, rel2, prec, g, b, (k - 1) as nat);
        assert(newton_step(rel2, prec, a, g) && newton_reaches(rel2, prec, g, b, (k - 1) as nat));
    }
}

/// Convergence under a stronger relation is convergence under a weaker one.
pub proof fn lemma_converged_mono(
    rel1: spec_fn(Scalar, Scalar) -> bool,
    rel2: spec_fn(Scalar, Scalar) -> bool,
    prec: Scalar,
    z: Scalar,
)
    requires
        newton_converged_at(rel1, prec, z),
        forall|t: Scalar, y: Scalar| #[trigger] rel1(t, y) ==> rel2(t, y),
    ensures
        newton_converged_at(rel2, prec, z),
{
    let (d, y) = choose|d: Scalar, y: Scalar|
        stencil_of(rel1, z, d) && !r_eq(d, r_zero()) && rel1(z, y) && r_lt(
            r_abs(r_div(y, d)),
            prec,
        );
    lemma_stencil_mono(rel1, rel2, z, d);
    assert(stencil_of(rel2, z, d) && !r_eq(d, r_zero()) && rel2(z, y) && r_lt(
        r_abs(r_div(y, d)),
        prec,
    ));
}

/// The fatal condition under a stronger relation holds under a weaker one.
pub proof fn lemma_fatal_mono(
    rel1: spec_fn(Scalar, Scalar) -> bool,
    rel2: spec_fn(Scalar, Scalar) -> bool,
    z: Scalar,
)
    requires
        newton_fatal_at(rel1, z),
        forall|t: Scalar, y: Scalar| #[trigger] rel1(t, y) ==> rel2(t, y),
    ensures
        newton_fatal_at(rel2, z),
{
    let d = choose|d: Scalar| stencil_of(rel1, z, d) && r_eq(d, r_zero());
    lemma_stencil_mono(rel1, rel2, z, d);
    assert(stencil_of(rel2, z, d) && r_eq(d, r_zero()));
}

/// A full successful Newton run on a function with admissible values `rel`.
pub open spec fn newton_found_rel(
    rel: spec_fn(Scalar, Scalar) -> bool,
    prec: Scalar,
    guess: Scalar,
    z: Scalar,
) -> bool {
    exists|k: nat|
        #[trigger] newton_reaches(rel, prec, guess, z, k) && newton_converged_at(rel, prec, z)
}

/// A full successful run on a stronger relation is one on a weaker one.
pub proof fn lemma_found_mono(
    rel1: spec_fn(Scalar, Scalar) -> bool,
    rel2: spec_fn(Scalar, Scalar) -> bool,
    prec: Scalar,
    guess: Scalar,
    z: Scalar,
)
    requires
        newton_found_rel(rel1, prec, guess, z),
        forall|t: Scalar, y: Scalar| #[trigger] rel1(t, y) ==> rel2(t, y),
    ensures
        newton_found_rel(rel2, prec, guess, z),
{
    let k = choose|k: nat|
        #[trigger] newton_reaches(rel1, prec, guess, z, k) && newton_converged_at(rel1, prec, z);
    lemma_newton_reaches_mono(rel1, rel2, prec, guess, z, k);
    lemma_converged_mono(rel1, rel2, prec, z);
}

/// A successful Newton run of fewer than `cap` steps on a function with
/// admissible values `rel`: `z` is reachable from the seed by genuine steps
/// and the step observed at `z` fell below the precision.
pub open spec fn newton_found_within_rel(
    rel: spec_fn(Scalar, Scalar) -> bool,
    prec: Scalar,
    guess: Scalar,
    z: Scalar,
    cap: nat,
) -> bool {
    exists|k: nat|
        k < cap && #[trigger] newton_reaches(rel, prec, guess, z, k) && newton_converged_at(
            rel,
            prec,
            z,
        )
}

/// A failed Newton run on a function with admissible values `rel`: after at
/// most `cap` genuine steps the iteration stood at a point with a zero
/// observed derivative, or the cap itself was exhausted.
pub open spec fn newton_gave_up_rel(
    rel: spec_fn(Scalar, Scalar) -> bool,
    prec: Scalar,
    guess: Scalar,
    cap: nat,
) -> bool {
    exists|k: nat, z: Scalar|
        k <= cap && #[trigger] newton_reaches(rel, prec, guess, z, k) && (newton_fatal_at(rel, z)
            || k == cap)
}

/// A full successful Newton run: `z` is reachable from the seed by genuine
/// steps and the step observed at `z` fell below the precision.
pub open spec fn newton_found<F: Fn(Scalar) -> Scalar>(
    f: F,
    prec: Scalar,
    guess: Scalar,
    z: Scalar,
) -> bool {
    newton_found_rel(value_rel(f), prec, guess, z)
}

/// A successful Newton run of fewer than `cap` steps.
pub open spec fn newton_found_within<F: Fn(Scalar) -> Scalar>(
    f: F,
    prec: Scalar,
    guess: Scalar,
    z: Scalar,
    cap: nat,
) -> bool {
    newton_found_within_rel(value_rel(f), prec, guess, z, cap)
}

/// A failed Newton run: after at most `cap` genuine steps the iteration
/// stood at a point with a zero observed derivative, or the cap itself was
/// exhausted.
pub open spec fn newton_gave_up<F: Fn(Scalar) -> Scalar>(
    f: F,
    prec: Scalar,
    guess: Scalar,
    cap: nat,
) -> bool {
    newton_gave_up_rel(value_rel(f), prec, guess, cap)
}

/// A bounded successful run on a stronger relation is one on a weaker one.
pub proof fn lemma_found_within_mono(
    rel1: spec_fn(Scalar, Scalar) -> bool,
    rel2: spec_fn(Scalar, Scalar) -> bool,
    prec: Scalar,
    guess: Scalar,
    z: Scalar,
    cap: nat,
)
    requires
        newton_found_within_rel(rel1, prec, guess, z, cap),
        forall|t: Scalar, y: Scalar| #[trigger] rel1(t, y) ==> rel2(t, y),
    ensures
        newton_found_within_rel(rel2, prec, guess, z, cap),
{
    let k = choose|k: nat|
        k < cap && #[trigger] newton_reaches(rel1, prec, guess, z, k) && newton_converged_at(
            rel1,
            prec,
            z,
        );
    lemma_newton_reaches_mono(rel1, rel2, prec, guess, z, k);
    lemma_converged_mono(rel1, rel2, prec, z);
}

/// A failed run on a stronger relation is one on a weaker one.
pub proof fn lemma_gave_up_mono(
    rel1: spec_fn(Scalar, Scalar) -> bool,
    rel2: spec_fn(Scalar, Scalar) -> bool,
    prec: Scalar,
    guess: Scalar,
    cap: nat,
)
    requires
        newton_gave_up_rel(rel1, prec, guess, cap),
        forall|t: Scalar, y: Scalar| #[trigger] rel1(t, y) ==> rel2(t, y),
    ensures
        newton_gave_up_rel(rel2, prec, guess, cap),
{
    let (k, z) = choose|k: nat, z: Scalar|
        k <= cap && #[trigger] newton_reaches(rel1, prec, guess, z, k) && (newton_fatal_at(
            rel1,
            z,
        ) || k == cap);
    lemma_newton_reaches_mono(rel1, rel2, prec, guess, z, k);
    if newton_fatal_at(rel1, z) {
        lemma_fatal_mono(rel1, rel2, z);
    }
}

/// Newton's method without a caller-chosen iteration cap: from the seed,
/// repeatedly subtracts `f(g)` divided by the stencil derivative until the
/// step falls below the precision.  A derivative that compares equal to zero
/// is the fatal division-by-zero condition, reported as an error; an
/// iteration that never converges is abandoned, also as that fatal error,
/// once the step count can no longer be counted in a machine word.
pub fn newtons_method<F: Fn(Scalar) -> Scalar>(f: &F, guess: Scalar, precision: Scalar) -> (r:
    Result<Scalar, FatalError>)
    requires
        forall|t: Scalar| #[trigger] call_requires(*f, (t,)),
    ensures
        match r {
            Ok(z) => newton_found(*f, precision, guess, z),
            Err(e) => e == FatalError::ZeroDerivative && newton_gave_up(
                *f,
                precision,
                guess,
                usize::MAX as nat,
            ),
        },
{
    let mut g = guess;
    let ghost rel = value_rel(*f);
    let mut i: usize = 0;
    proof {
        assert(newton_reaches(rel, precision, guess, g, 0));
    }
    while i < usize::MAX
        invariant
            forall|t: Scalar| #[trigger] call_requires(*f, (t,)),
            rel == value_rel(*f),
            i <= usize::MAX,
            newton_reaches(rel, precision, guess, g, i as nat),
        decreases usize::MAX - i,
    {
        let d = derivative(f, g);
        if req(d, rzero()) {
            proof {
                assert(stencil_of(rel, g, d) && r_eq(d, r_zero()));
                assert(newton_fatal_at(value_rel(*f), g));
                assert(newton_gave_up(*f, precision, guess, usize::MAX as nat));
            }
            return Err(FatalError::ZeroDerivative);
        }
        let y = f(g);
        let step = rdiv(y, d);
        if rlt(rabs(step), precision) {
            proof {
                assert(stencil_of(rel, g, d) && !r_eq(d, r_zero()) && rel(g, y) && r_lt(
                    r_abs(r_div(y, d)),
                    precision,
                ));
                assert(newton_converged_at(value_rel(*f), precision, g));
                assert(newton_reaches(value_rel(*f), precision, guess, g, i as nat));
                assert(newton_found(*f, precision, guess, g));
            }
            return Ok(g);
        }
        let g2 = rsub(g, step);
        proof {
            assert(stencil_of(rel, g, d) && !r_eq(d, r_zero()) && rel(g, y) && !r_lt(
                r_abs(r_div(y, d)),
                precision,
            ) && g2 == r_sub(g, r_div(y, d)));
            lemma_newton_reaches_extend(rel, precision, guess, g, g2, i as nat);
        }
        g = g2;
        i += 1;
    }
    proof {
        assert(newton_gave_up(*f, precision, guess, usize::MAX as nat));
    }
    Err(FatalError::ZeroDerivative)
}

/// Newton's method with an iteration cap: the same iteration, but a zero
/// derivative or an exhausted cap yields no result instead of failing.
pub fn newtons_method_max_iters<F: Fn(Scalar) -> Scalar>(
    f: &F,
    guess: Scalar,
    precision: Scalar,
    max_iters: usize,
) -> (r: Option<Scalar>)
    requires
        forall|t: Scalar| #[trigger] call_requires(*f, (t,)),
    ensures
        match r {
            Some(z) => newton_found_within(*f, precision, guess, z, max_iters as nat),
            None => newton_gave_up(*f, precision, guess, max_iters as nat),
        },
{
    let mut g = guess;
    let ghost rel = value_rel(*f);
    let mut i: usize = 0;
    proof {
        assert(newton_reaches(rel, precision, guess, g, 0));
    }
    while i < max_iters
        invariant
            forall|t: Scalar| #[trigger] call_requires(*f, (t,)),
            rel == value_rel(*f),
            i <= max_iters,
            newton_reaches(rel, precision, guess, g, i as nat),
        decreases max_iters - i,
    {
        let d = derivative(f, g);
        if req(d, rzero()) {
            proof {
                assert(stencil_of(rel, g, d) && r_eq(d, r_zero()));
                assert(newton_fatal_at(value_rel(*f), g));
                assert(newton_gave_up(*f, precision, guess, max_iters as nat));
            }
            return None;
        }
        let y = f(g);
        let step = rdiv(y, d);
        if rlt(rabs(step), precision) {
            proof {
                assert(stencil_of(rel, g, d) && !r_eq(d, r_zero()) && rel(g, y) && r_lt(
                    r_abs(r_div(y, d)),
                    precision,
                ));
                assert(newton_converged_at(value_rel(*f), precision, g));
                assert(newton_reaches(value_rel(*f), precision, guess, g, i as nat));
                assert(newton_found_within(*f, precision, guess, g, max_iters as nat));
            }
            return Some(g);
        }
        let g2 = rsub(g, step);
        proof {
            assert(stencil_of(rel, g, d) && !r_eq(d, r_zero()) && rel(g, y) && !r_lt(
                r_abs(r_div(y, d)),
                precision,
            ) && g2 == r_sub(g, r_div(y, d)));
            lemma_newton_reaches_extend(rel, precision, guess, g, g2, i as nat);
        }
        g = g2;
        i += 1;
    }
    proof {
        assert(newton_gave_up(*f, precision, guess, max_iters as nat));
    }
    None
}

/// Whether two observed values witness a sign change: distinct values whose
/// signs straddle zero (an exact zero counts as a crossing on either side).
pub open spec fn sign_change(initial: Scalar, new: Scalar) -> bool {
    !r_eq(initial, new) && ((r_le(initial, r_zero()) && r_le(r_zero(), new)) || (r_le(
        r_zero(),
        initial,
    ) && r_le(new, r_zero())))
}

/// Whether a fresh sample pair witnesses a sign change.
fn check_sign(initial: Scalar, new: Scalar) -> (r: bool)
    ensures
        r == sign_change(initial, new),
{
    if req(initial, new) {
        return false;
    }
    let z = rzero();
    (rle(initial, z) && rle(z, new)) || (rle(z, initial) && rle(new, z))
}

/// The position after `k` advances of `step` from `guess`.
pub open spec fn advanced(guess: Scalar, step: Scalar, k: nat) -> Scalar
    decreases k,
{
    if k == 0 {
        guess
    } else {
        r_add(advanced(guess, step, (k - 1) as nat), step)
    }
}

/// At the `j`-th advance the search observed no sign change: admissible
/// values at the seed and at the advanced position compared without a
/// crossing, so the search stepped on.
pub open spec fn no_crossing_seen_rel(
    rel: spec_fn(Scalar, Scalar) -> bool,
    guess: Scalar,
    step: Scalar,
    j: nat,
) -> bool {
    exists|y0: Scalar, y1: Scalar|
        #![trigger rel(guess, y0), rel(advanced(guess, step, j), y1)]
        rel(guess, y0) && rel(advanced(guess, step, j), y1) && !sign_change(y0, y1)
}

/// The outcome of the bracketing search on a function with admissible values
/// `rel`: the returned right end stands `k` advances from the seed, every
/// earlier advance observed no sign change (the end is the first observed
/// crossing), and at the end either a sign change between the value at the
/// seed and the value there was observed, or the advance counter was
/// exhausted (which no physical run reaches).
pub open spec fn bracket_found_rel(
    rel: spec_fn(Scalar, Scalar) -> bool,
    guess: Scalar,
    step: Scalar,
    end: Scalar,
) -> bool {
    exists|k: nat|
        end == #[trigger] advanced(guess, step, k) && (forall|j: nat|
            j < k ==> #[trigger] no_crossing_seen_rel(rel, guess, step, j)) && ((exists|
            y0: Scalar,
            y1: Scalar,
        |
            #![trigger rel(guess, y0), rel(end, y1)]
            rel(guess, y0) && rel(end, y1) && sign_change(y0, y1)) || k == usize::MAX)
}

/// The outcome of the bracketing search.
pub open spec fn bracket_found<F: Fn(Scalar) -> Scalar>(
    f: F,
    guess: Scalar,
    step: Scalar,
    end: Scalar,
) -> bool {
    bracket_found_rel(value_rel(f), guess, step, end)
}

/// Advances from the seed in steps of `step` until the function's value
/// changes sign against its value at the seed; returns the last step's pair.
pub fn bisection_search_sign_change<F: Fn(Scalar) -> Scalar>(
    f: &F,
    initial_guess: Scalar,
    step: Scalar,
) -> (r: (Scalar, Scalar))
    requires
        forall|t: Scalar| #[trigger] call_requires(*f, (t,)),
    ensures
        r.0 == r_sub(r.1, step),
        bracket_found(*f, initial_guess, step, r.1),
{
    let mut result = initial_guess;
    let mut i: usize = 0;
    while i < usize::MAX
        invariant
            forall|t: Scalar| #[trigger] call_requires(*f, (t,)),
            result == advanced(initial_guess, step, i as nat),
            forall|j: nat|
                j < i as nat ==> #[trigger] no_crossing_seen_rel(value_rel(*f), initial_guess, step, j),
        decreases usize::MAX - i,
    {
        let y0 = f(initial_guess);
        let y1 = f(result);
        if check_sign(y0, y1) {
            proof {
                assert(value_rel(*f)(initial_guess, y0) && value_rel(*f)(result, y1)
                    && sign_change(y0, y1));
                assert(bracket_found_rel(value_rel(*f), initial_guess, step, result));
            }
            return (rsub(result, step), result);
        }
        proof {
            assert(value_rel(*f)(initial_guess, y0) && value_rel(*f)(
                advanced(initial_guess, step, i as nat),
                y1,
            ) && !sign_change(y0, y1));
            assert(no_crossing_seen_rel(value_rel(*f), initial_guess, step, i as nat));
        }
        result = radd(result, step);
        i += 1;
    }
    (rsub(result, step), result)
}

/// The secant-through-zero of the bracket `(a, b)` built from the values
/// `ya` at `a` and `yb` at `b`: `(a yb - b ya) / (yb - ya)`.
pub open spec fn rf_c_of(a: Scalar, b: Scalar, ya: Scalar, yb: Scalar) -> Scalar {
    r_div(r_sub(r_mul(a, yb), r_mul(b, ya)), r_sub(yb, ya))
}

/// `c` is a secant-through-zero position of the bracket `(a, b)`, built from
/// admissible values at the bracket's ends.
pub open spec fn is_rf_c_rel(
    rel: spec_fn(Scalar, Scalar) -> bool,
    a: Scalar,
    b: Scalar,
    c: Scalar,
) -> bool {
    exists|ya: Scalar, yb: Scalar|
        #![trigger rel(a, ya), rel(b, yb)]
        rel(a, ya) && rel(b, yb) && c == rf_c_of(a, b, ya, yb)
}

/// `c` is a secant-through-zero position of the bracket `(a, b)`, built from
/// values the function actually returned at the bracket's ends.
pub open spec fn is_rf_c<F: Fn(Scalar) -> Scalar>(f: F, a: Scalar, b: Scalar, c: Scalar) -> bool {
    is_rf_c_rel(value_rel(f), a, b, c)
}

/// The secant-through-zero position of a bracket.
fn regula_falsi_c<F: Fn(Scalar) -> Scalar>(f: &F, a: Scalar, b: Scalar) -> (c: Scalar)
    requires
        forall|t: Scalar| #[trigger] call_requires(*f, (t,)),
    ensures
        is_rf_c(*f, a, b, c),
{
    let ya = f(a);
    let yb = f(b);
    let c = rdiv(rsub(rmul(a, yb), rmul(b, ya)), rsub(yb, ya));
    proof {
        assert(value_rel(*f)(a, ya) && value_rel(*f)(b, yb) && c == rf_c_of(a, b, ya, yb));
        assert(is_rf_c_rel(value_rel(*f), a, b, c));
    }
    c
}

/// One non-final regula-falsi update of the bracket `(a, b)`: the secant
/// position `c` of the bracket was observed above the precision in absolute
/// value, the right end moved to the secant of `(a, b)`, then the left end
/// moved to the secant of `(a, new right end)`.
pub open spec fn rf_step_rel(
    rel: spec_fn(Scalar, Scalar) -> bool,
    prec: Scalar,
    a: Scalar,
    b: Scalar,
    a2: Scalar,
    b2: Scalar,
) -> bool {
    (exists|c: Scalar, y: Scalar|
        #![trigger is_rf_c_rel(rel, a, b, c), rel(c, y)]
        is_rf_c_rel(rel, a, b, c) && rel(c, y) && r_lt(prec, r_abs(y))) && is_rf_c_rel(
        rel,
        a,
        b,
        b2,
    ) && is_rf_c_rel(rel, a, b2, a2)
}

/// The bracket `(a, b)` is reachable from `(a0, b0)` by exactly `k`
/// regula-falsi updates.
pub open spec fn rf_reaches_rel(
    rel: spec_fn(Scalar, Scalar) -> bool,
    prec: Scalar,
    a0: Scalar,
    b0: Scalar,
    a: Scalar,
    b: Scalar,
    k: nat,
) -> bool
    decreases k,
{
    if k == 0 {
        a0 == a && b0 == b
    } else {
        exists|a1: Scalar, b1: Scalar|
            #[trigger] rf_step_rel(rel, prec, a0, b0, a1, b1) && rf_reaches_rel(
                rel,
                prec,
                a1,
                b1,
                a,
                b,
                (k - 1) as nat,
            )
    }
}

/// An update may be appended at the end of a chain of updates.
proof fn lemma_rf_reaches_extend(
    rel: spec_fn(Scalar, Scalar) -> bool,
    prec: Scalar,
    a0: Scalar,
    b0: Scalar,
    a: Scalar,
    b: Scalar,
    a2: Scalar,
    b2: Scalar,
    k: nat,
)
    requires
        rf_reaches_rel(rel, prec, a0, b0, a, b, k),
        rf_step_rel(rel, prec, a, b, a2, b2),
    ensures
        rf_reaches_rel(rel, prec, a0, b0, a2, b2, (k + 1) as nat),
    decreases k,
{
    if k == 0 {
        assert(rf_reaches_rel(rel, prec, a2, b2, a2, b2, 0));
    } else {
        let (a1, b1) = choose|a1: Scalar, b1: Scalar|
            rf_step_rel(rel, prec, a0, b0, a1, b1) && rf_reaches_rel(
                rel,
                prec,
                a1,
                b1,
                a,
                b,
                (k - 1) as nat,
            );
        lemma_rf_reaches_extend(rel, prec, a1, b1, a, b, a2, b2, (k - 1) as nat);
        assert(rf_step_rel(rel, prec, a0, b0, a1, b1) && rf_reaches_rel(
            rel,
            prec,
            a1,
            b1,
            a2,
            b2,
            k,
        ));
    }
}

/// The outcome of the regula-falsi refinement started on the ordered bracket
/// `(a0, b0)`: the result is the secant position of a bracket reached by
/// genuine updates, and its value was observed at or below the precision in
/// absolute value — unless the update counter was exhausted, which no
/// physical run reaches.
pub open spec fn rf_found_rel(
    rel: spec_fn(Scalar, Scalar) -> bool,
    prec: Scalar,
    a0: Scalar,
    b0: Scalar,
    r: Scalar,
) -> bool {
    exists|k: nat, a: Scalar, b: Scalar|
        #[trigger] rf_reaches_rel(rel, prec, a0, b0, a, b, k) && is_rf_c_rel(rel, a, b, r) && ((
        exists|y: Scalar| #[trigger] rel(r, y) && !r_lt(prec, r_abs(y))) || k == usize::MAX)
}

/// The outcome of the regula-falsi refinement on a function.
pub open spec fn rf_found<F: Fn(Scalar) -> Scalar>(
    f: F,
    prec: Scalar,
    a0: Scalar,
    b0: Scalar,
    r: Scalar,
) -> bool {
    rf_found_rel(value_rel(f), prec, a0, b0, r)
}

/// The whole seed-to-zero search on a function with admissible values `rel`:
/// a bracket of one step's width was found from the seed, and the result came
/// out of the regula-falsi refinement started on it, in ascending order.
pub open spec fn rf_search_found_rel(
    rel: spec_fn(Scalar, Scalar) -> bool,
    prec: Scalar,
    guess: Scalar,
    step: Scalar,
    r: Scalar,
) -> bool {
    exists|a: Scalar, b: Scalar|
        #![trigger rf_found_rel(rel, prec, a, b, r)]
        #![trigger rf_found_rel(rel, prec, b, a, r)]
        a == r_sub(b, step) && bracket_found_rel(rel, guess, step, b) && (rf_found_rel(
            rel,
            prec,
            a,
            b,
            r,
        ) || rf_found_rel(rel, prec, b, a, r))
}

/// False-position iteration: starting from the bracket `(a, b)` put in
/// ascending order, both ends are updated through secant positions until the
/// function's value at the current secant position is at or below the
/// precision in absolute value.
pub fn regula_falsi_method<F: Fn(Scalar) -> Scalar>(
    f: &F,
    a: Scalar,
    b: Scalar,
    precision: Scalar,
) -> (r: Scalar)
    requires
        forall|t: Scalar| #[trigger] call_requires(*f, (t,)),
    ensures
        r_lt(b, a) ==> rf_found(*f, precision, b, a, r),
        !r_lt(b, a) ==> rf_found(*f, precision, a, b, r),
{
    let mut lo = a;
    let mut hi = b;
    if rlt(b, a) {
        lo = b;
        hi = a;
    }
    let ghost a0 = lo;
    let ghost b0 = hi;
    let mut c = regula_falsi_c(f, lo, hi);
    let mut i: usize = 0;
    proof {
        assert(rf_reaches_rel(value_rel(*f), precision, a0, b0, lo, hi, 0));
    }
    loop
        invariant
            forall|t: Scalar| #[trigger] call_requires(*f, (t,)),
            i <= usize::MAX,
            a0 == (if r_lt(b, a) { b } else { a }),
            b0 == (if r_lt(b, a) { a } else { b }),
            rf_reaches_rel(value_rel(*f), precision, a0, b0, lo, hi, i as nat),
            is_rf_c_rel(value_rel(*f), lo, hi, c),
        decreases usize::MAX - i,
    {
        let y = f(c);
        if !rlt(precision, rabs(y)) {
            proof {
                assert(value_rel(*f)(c, y) && !r_lt(precision, r_abs(y)));
                assert(rf_found_rel(value_rel(*f), precision, a0, b0, c));
            }
            return c;
        }
        if i == usize::MAX {
            proof {
                assert(rf_found_rel(value_rel(*f), precision, a0, b0, c));
            }
            return c;
        }
        let hi2 = regula_falsi_c(f, lo, hi);
        let lo2 = regula_falsi_c(f, lo, hi2);
        let c2 = regula_falsi_c(f, lo2, hi2);
        proof {
            assert(is_rf_c_rel(value_rel(*f), lo, hi, c) && value_rel(*f)(c, y) && r_lt(
                precision,
                r_abs(y),
            ));
            assert(rf_step_rel(value_rel(*f), precision, lo, hi, lo2, hi2));
            lemma_rf_reaches_extend(value_rel(*f), precision, a0, b0, lo, hi, lo2, hi2, i as nat);
        }
        lo = lo2;
        hi = hi2;
        c = c2;
        i += 1;
    }
}

/// Locates an isolated zero from one seed point: brackets a sign change by
/// stepping, then refines the bracket by false position.
pub fn regula_falsi_bisection<F: Fn(Scalar) -> Scalar>(
    f: &F,
    guess: Scalar,
    bisection_step: Scalar,
    precision: Scalar,
) -> (r: Scalar)
    requires
        forall|t: Scalar| #[trigger] call_requires(*f, (t,)),
    ensures
        rf_search_found_rel(value_rel(*f), precision, guess, bisection_step, r),
{
    let (a, b) = bisection_search_sign_change(f, guess, bisection_step);
    let r = regula_falsi_method(f, a, b, precision);
    proof {
        if r_lt(b, a) {
            assert(rf_found_rel(value_rel(*f), precision, b, a, r));
        } else {
            assert(rf_found_rel(value_rel(*f), precision, a, b, r));
        }
        assert(rf_search_found_rel(value_rel(*f), precision, guess, bisection_step, r));
    }
    r
}

/// The whole search under a stronger relation is one under a weaker one.
pub proof fn lemma_rf_search_mono(
    rel1: spec_fn(Scalar, Scalar) -> bool,
    rel2: spec_fn(Scalar, Scalar) -> bool,
    prec: Scalar,
    guess: Scalar,
    step: Scalar,
    r: Scalar,
)
    requires
        rf_search_found_rel(rel1, prec, guess, step, r),
        forall|t: Scalar, y: Scalar| #[trigger] rel1(t, y) ==> rel2(t, y),
    ensures
        rf_search_found_rel(rel2, prec, guess, step, r),
{
    let (a, b) = choose|a: Scalar, b: Scalar|
        a == r_sub(b, step) && bracket_found_rel(rel1, guess, step, b) && (#[trigger] rf_found_rel(
            rel1,
            prec,
            a,
            b,
            r,
        ) || rf_found_rel(rel1, prec, b, a, r));
    lemma_bracket_found_mono(rel1, rel2, guess, step, b);
    if rf_found_rel(rel1, prec, a, b, r) {
        lemma_rf_found_mono(rel1, rel2, prec, a, b, r);
        assert(rf_found_rel(rel2, prec, a, b, r));
    } else {
        lemma_rf_found_mono(rel1, rel2, prec, b, a, r);
        assert(rf_found_rel(rel2, prec, b, a, r));
    }
}

/// A found bracket under a stronger relation is one under a weaker one.
proof fn lemma_bracket_found_mono(
    rel1: spec_fn(Scalar, Scalar) -> bool,
    rel2: spec_fn(Scalar, Scalar) -> bool,
    guess: Scalar,
    step: Scalar,
    end: Scalar,
)
    requires
        bracket_found_rel(rel1, guess, step, end),
        forall|t: Scalar, y: Scalar| #[trigger] rel1(t, y) ==> rel2(t, y),
    ensures
        bracket_found_rel(rel2, guess, step, end),
{
    let k = choose|k: nat|
        end == #[trigger] advanced(guess, step, k) && (forall|j: nat|
            j < k ==> #[trigger] no_crossing_seen_rel(rel1, guess, step, j)) && ((exists|
            y0: Scalar,
            y1: Scalar,
        |
            #![trigger rel1(guess, y0), rel1(end, y1)]
            rel1(guess, y0) && rel1(end, y1) && sign_change(y0, y1)) || k == usize::MAX);
    assert forall|j: nat| j < k implies #[trigger] no_crossing_seen_rel(rel2, guess, step, j) by {
        assert(no_crossing_seen_rel(rel1, guess, step, j));
        let (y0, y1) = choose|y0: Scalar, y1: Scalar|
            #![trigger rel1(guess, y0), rel1(advanced(guess, step, j), y1)]
            rel1(guess, y0) && rel1(advanced(guess, step, j), y1) && !sign_change(y0, y1);
        assert(rel2(guess, y0) && rel2(advanced(guess, step, j), y1) && !sign_change(y0, y1));
    };
    if k != usize::MAX as nat {
        let (y0, y1) = choose|y0: Scalar, y1: Scalar|
            #![trigger rel1(guess, y0), rel1(end, y1)]
            rel1(guess, y0) && rel1(end, y1) && sign_change(y0, y1);
        assert(rel2(guess, y0) && rel2(end, y1) && sign_change(y0, y1));
    }
    assert(end == advanced(guess, step, k) && (forall|j: nat|
        j < k ==> #[trigger] no_crossing_seen_rel(rel2, guess, step, j)) && ((exists|
        y0: Scalar,
        y1: Scalar,
    |
        #![trigger rel2(guess, y0), rel2(end, y1)]
        rel2(guess, y0) && rel2(end, y1) && sign_change(y0, y1)) || k == usize::MAX));
}

/// A secant position under a stronger relation is one under a weaker one.
proof fn lemma_is_rf_c_mono(
    rel1: spec_fn(Scalar, Scalar) -> bool,
    rel2: spec_fn(Scalar, Scalar) -> bool,
    a: Scalar,
    b: Scalar,
    c: Scalar,
)
    requires
        is_rf_c_rel(rel1, a, b, c),
        forall|t: Scalar, y: Scalar| #[trigger] rel1(t, y) ==> rel2(t, y),
    ensures
        is_rf_c_rel(rel2, a, b, c),
{
    let (ya, yb) = choose|ya: Scalar, yb: Scalar|
        #![trigger rel1(a, ya), rel1(b, yb)]
        rel1(a, ya) && rel1(b, yb) && c == rf_c_of(a, b, ya, yb);
    assert(rel2(a, ya) && rel2(b, yb) && c == rf_c_of(a, b, ya, yb));
}

/// An update under a stronger relation is one under a weaker one.
proof fn lemma_rf_step_mono(
    rel1: spec_fn(Scalar, Scalar) -> bool,
    rel2: spec_fn(Scalar, Scalar) -> bool,
    prec: Scalar,
    a: Scalar,
    b: Scalar,
    a2: Scalar,
    b2: Scalar,
)
    requires
        rf_step_rel(rel1, prec, a, b, a2, b2),
        forall|t: Scalar, y: Scalar| #[trigger] rel1(t, y) ==> rel2(t, y),
    ensures
        rf_step_rel(rel2, prec, a, b, a2, b2),
{
    let (c, y) = choose|c: Scalar, y: Scalar|
        #![trigger is_rf_c_rel(rel1, a, b, c), rel1(c, y)]
        is_rf_c_rel(rel1, a, b, c) && rel1(c, y) && r_lt(prec, r_abs(y));
    lemma_is_rf_c_mono(rel1, rel2, a, b, c);
    assert(is_rf_c_rel(rel2, a, b, c) && rel2(c, y) && r_lt(prec, r_abs(y)));
    lemma_is_rf_c_mono(rel1, rel2, a, b, b2);
    lemma_is_rf_c_mono(rel1, rel2, a, b2, a2);
}

/// A chain of updates under a stronger relation is one under a weaker one.
proof fn lemma_rf_reaches_mono(
    rel1: spec_fn(Scalar, Scalar) -> bool,
    rel2: spec_fn(Scalar, Scalar) -> bool,
    prec: Scalar,
    a0: Scalar,
    b0: Scalar,
    a: Scalar,
    b: Scalar,
    k: nat,
)
    requires
        rf_reaches_rel(rel1, prec, a0, b0, a, b, k),
        forall|t: Scalar, y: Scalar| #[trigger] rel1(t, y) ==> rel2(t, y),
    ensures
        rf_reaches_rel(rel2, prec, a0, b0, a, b, k),
    decreases k,
{
    if k > 0 {
        let (a1, b1) = choose|a1: Scalar, b1: Scalar|
            rf_step_rel(rel1, prec, a0, b0, a1, b1) && rf_reaches_rel(
                rel1,
                prec,
                a1,
                b1,
                a,
                b,
                (k - 1) as nat,
            );
        lemma_rf_step_mono(rel1, rel2, prec, a0, b0, a1, b1);
        lemma_rf_reaches_mono(rel1, rel2, prec, a1, b1, a, b, (k - 1) as nat);
        assert(rf_step_rel(rel2, prec, a0, b0, a1, b1) && rf_reaches_rel(
            rel2,
            prec,
            a1,
            b1,
            a,
            b,
            (k - 1) as nat,
        ));
    }
}

/// A refinement outcome under a stronger relation is one under a weaker one.
proof fn lemma_rf_found_mono(
    rel1: spec_fn(Scalar, Scalar) -> bool,
    rel2: spec_fn(Scalar, Scalar) -> bool,
    prec: Scalar,
    a0: Scalar,
    b0: Scalar,
    r: Scalar,
)
    requires
        rf_found_rel(rel1, prec, a0, b0, r),
        forall|t: Scalar, y: Scalar| #[trigger] rel1(t, y) ==> rel2(t, y),
    ensures
        rf_found_rel(rel2, prec, a0, b0, r),
{
    let (k, a, b) = choose|k: nat, a: Scalar, b: Scalar|
        #[trigger] rf_reaches_rel(rel1, prec, a0, b0, a, b, k) && is_rf_c_rel(rel1, a, b, r) && ((
        exists|y: Scalar| #[trigger] rel1(r, y) && !r_lt(prec, r_abs(y))) || k == usize::MAX);
    lemma_rf_reaches_mono(rel1, rel2, prec, a0, b0, a, b, k);
    lemma_is_rf_c_mono(rel1, rel2, a, b, r);
    if exists|y: Scalar| #[trigger] rel1(r, y) && !r_lt(prec, r_abs(y)) {
        let y = choose|y: Scalar| #[trigger] rel1(r, y) && !r_lt(prec, r_abs(y));
        assert(rel2(r, y) && !r_lt(prec, r_abs(y)));
    }
    assert(rf_reaches_rel(rel2, prec, a0, b0, a, b, k) && is_rf_c_rel(rel2, a, b, r) && ((exists|
        y: Scalar,
    | #[trigger] rel2(r, y) && !r_lt(prec, r_abs(y))) || k == usize::MAX));
}

/// The deflation divisor at `x`: the product over the recorded zeros of
/// `(x - z)^m`, folded left from one.
pub open spec fn deflation_divisor(zeros: Seq<(i32, Scalar)>, x: Scalar) -> Scalar
    decreases zeros.len(),
{
    if zeros.len() == 0 {
        r_one()
    } else {
        r_mul(
            deflation_divisor(zeros.drop_last(), x),
            r_powi(r_sub(x, zeros.last().1), zeros.last().0),
        )
    }
}

/// The deflated value at `x` built from the value `y`: `y` divided by the
/// deflation divisor, with the precision added to a divisor that compares
/// equal to zero.
pub open spec fn deflated_value(zeros: Seq<(i32, Scalar)>, prec: Scalar, x: Scalar, y: Scalar) -> Scalar {
    let d = deflation_divisor(zeros, x);
    let d2 = if r_eq(d, r_zero()) {
        r_add(d, prec)
    } else {
        d
    };
    r_div(y, d2)
}

/// The admissible values of the deflation of any base relation: at `t` the
/// deflated function may take any deflated value built from a value the base
/// relation admits at `t`.
pub open spec fn deflated_rel_of(
    base: spec_fn(Scalar, Scalar) -> bool,
    zeros: Seq<(i32, Scalar)>,
    prec: Scalar,
) -> spec_fn(Scalar, Scalar) -> bool {
    |t: Scalar, v: Scalar|
        exists|y: Scalar| #[trigger] base(t, y) && v == deflated_value(zeros, prec, t, y)
}

/// The deflation of a stronger base relation is within the deflation of a
/// weaker one.
pub proof fn lemma_deflated_rel_mono(
    base1: spec_fn(Scalar, Scalar) -> bool,
    base2: spec_fn(Scalar, Scalar) -> bool,
    zeros: Seq<(i32, Scalar)>,
    prec: Scalar,
)
    requires
        forall|t: Scalar, y: Scalar| #[trigger] base1(t, y) ==> base2(t, y),
    ensures
        forall|t: Scalar, v: Scalar| #[trigger]
            deflated_rel_of(base1, zeros, prec)(t, v) ==> deflated_rel_of(base2, zeros, prec)(
                t,
                v,
            ),
{
    assert forall|t: Scalar, v: Scalar| #[trigger]
        deflated_rel_of(base1, zeros, prec)(t, v) implies deflated_rel_of(base2, zeros, prec)(
        t,
        v,
    ) by {
        let y = choose|y: Scalar| #[trigger] base1(t, y) && v == deflated_value(zeros, prec, t, y);
        assert(base2(t, y) && v == deflated_value(zeros, prec, t, y));
    };
}

/// The admissible values of the deflated function: at `t` it may take any
/// deflated value built from a value `f` may return at `t`.
pub open spec fn deflated_rel<F: Fn(Scalar) -> Scalar>(
    f: F,
    zeros: Seq<(i32, Scalar)>,
    prec: Scalar,
) -> spec_fn(Scalar, Scalar) -> bool {
    deflated_rel_of(value_rel(f), zeros, prec)
}

/// The deflated value of `f` at `x`: `f(x)` divided by the product of
/// `(x - z)^m` over the zeros recorded so far.
fn deflated_eval<F: Fn(Scalar) -> Scalar>(
    f: &F,
    zeros: &Vec<(i32, Scalar)>,
    prec: Scalar,
    x: Scalar,
) -> (r: Scalar)
    requires
        forall|t: Scalar| #[trigger] call_requires(*f, (t,)),
    ensures
        deflated_rel(*f, zeros@, prec)(x, r),
{
    let n = zeros.len();
    let mut div = rone();
    let mut i: usize = 0;
    proof {
        assert(zeros@.take(0int) =~= Seq::<(i32, Scalar)>::empty());
    }
    while i < n
        invariant
            i <= n,
            n == zeros@.len(),
            div == deflation_divisor(zeros@.take(i as int), x),
        decreases n - i,
    {
        let (m, z) = zeros[i];
        div = rmul(div, rpowi(rsub(x, z), m));
        proof {
            assert(zeros@.take(i as int + 1).drop_last() =~= zeros@.take(i as int));
            assert(zeros@.take(i as int + 1).last() == zeros@[i as int]);
        }
        i += 1;
    }
    proof {
        assert(zeros@.take(n as int) =~= zeros@);
    }
    let div = if req(div, rzero()) {
        radd(div, prec)
    } else {
        div
    };
    let y = f(x);
    let r = rdiv(y, div);
    proof {
        assert(value_rel(*f)(x, y) && r == deflated_value(zeros@, prec, x, y));
        assert(deflated_rel(*f, zeros@, prec)(x, r));
    }
    r
}

/// The stateful deflating zero finder: holds a function, a precision, an
/// iteration cap, and the zeros found so far, each with its multiplicity
/// tag.  Searching runs the capped Newton iteration against the function
/// divided by the deflation divisor, so the iteration cannot converge back
/// to a recorded zero.
pub struct NewtonsMethodFindNewZero<F: Fn(Scalar) -> Scalar> {
    pub f: F,
    pub precision: Scalar,
    pub max_iters: usize,
    pub previous_zeros: Vec<(i32, Scalar)>,
}

impl<F: Fn(Scalar) -> Scalar> NewtonsMethodFindNewZero<F> {
    /// The finder is usable when its function accepts every input.
    pub open spec fn wf(&self) -> bool {
        forall|t: Scalar| #[trigger] call_requires(self.f, (t,))
    }

    /// A fresh finder with no recorded zeros.
    pub fn new(f: F, precision: Scalar, max_iters: usize) -> (r: Self)
        ensures
            r.f == f,
            r.precision == precision,
            r.max_iters == max_iters,
            r.previous_zeros@ =~= Seq::<(i32, Scalar)>::empty(),
    {
        NewtonsMethodFindNewZero { f, precision, max_iters, previous_zeros: Vec::new() }
    }

    /// The function under search divided by the deflation divisor of the
    /// zeros recorded so far.
    pub fn modified_func(&self, x: Scalar) -> (r: Scalar)
        requires
            self.wf(),
        ensures
            deflated_rel(self.f, self.previous_zeros@, self.precision)(x, r),
    {
        deflated_eval(&self.f, &self.previous_zeros, self.precision, x)
    }

    /// Runs the capped Newton iteration against the deflated function.  A
    /// found zero is recorded with multiplicity two where the deflated
    /// stencil derivative at it compared below the precision in absolute
    /// value (a tangential root at an extremum, which must not be revisited),
    /// else with multiplicity one; on failure the state is unchanged.
    pub fn next_zero(&mut self, guess: Scalar) -> (r: Option<Scalar>)
        requires
            old(self).wf(),
        ensures
            final(self).f == old(self).f,
            final(self).precision == old(self).precision,
            final(self).max_iters == old(self).max_iters,
            match r {
                Some(z) => {
                    &&& newton_found_within_rel(
                        deflated_rel(old(self).f, old(self).previous_zeros@, old(self).precision),
                        old(self).precision,
                        guess,
                        z,
                        old(self).max_iters as nat,
                    )
                    &&& exists|m: i32, d: Scalar|
                        #![trigger old(self).previous_zeros@.push((m, z)), r_abs(d)]
                        (m == 1 || m == 2) && final(self).previous_zeros@ =~= old(
                            self,
                        ).previous_zeros@.push((m, z)) && stencil_of(
                            deflated_rel(
                                old(self).f,
                                old(self).previous_zeros@,
                                old(self).precision,
                            ),
                            z,
                            d,
                        ) && ((m == 2) <==> r_lt(r_abs(d), old(self).precision))
                },
                None => {
                    &&& final(self).previous_zeros@ =~= old(self).previous_zeros@
                    &&& newton_gave_up_rel(
                        deflated_rel(old(self).f, old(self).previous_zeros@, old(self).precision),
                        old(self).precision,
                        guess,
                        old(self).max_iters as nat,
                    )
                },
            },
    {
        let f_ref = &self.f;
        let zeros_ref = &self.previous_zeros;
        let prec = self.precision;
        let ghost drel = deflated_rel(self.f, self.previous_zeros@, self.precision);
        let modified = |x: Scalar| -> (v: Scalar)
            ensures
                drel(x, v),
            { deflated_eval(f_ref, zeros_ref, prec, x) };
        proof {
            assert(forall|t: Scalar, v: Scalar| #[trigger]
                call_ensures(modified, (t,), v) ==> drel(t, v));
        }
        let zero = newtons_method_max_iters(&modified, guess, prec, self.max_iters);

        if let Some(z) = zero {
            proof {
                lemma_found_within_mono(
                    value_rel(modified),
                    drel,
                    prec,
                    guess,
                    z,
                    self.max_iters as nat,
                );
            }
            let d = derivative(&modified, z);
            proof {
                lemma_stencil_mono(value_rel(modified), drel, z, d);
            }
            if rlt(rabs(d), prec) {
                self.previous_zeros.push((2i32, z));
                proof {
                    assert((2i32 == 1 || 2i32 == 2) && self.previous_zeros@ =~= old(
                        self,
                    ).previous_zeros@.push((2i32, z)) && stencil_of(drel, z, d) && ((2i32 == 2)
                        <==> r_lt(r_abs(d), old(self).precision)));
                }
            } else {
                self.previous_zeros.push((1i32, z));
                proof {
                    assert((1i32 == 1 || 1i32 == 2) && self.previous_zeros@ =~= old(
                        self,
                    ).previous_zeros@.push((1i32, z)) && stencil_of(drel, z, d) && ((1i32 == 2)
                        <==> r_lt(r_abs(d), old(self).precision)));
                }
            }
            Some(z)
        } else {
            proof {
                lemma_gave_up_mono(
                    value_rel(modified),
                    drel,
                    prec,
                    guess,
                    self.max_iters as nat,
                );
            }
            None
        }
    }

    /// The positions of the recorded zeros, in recording order.
    pub fn get_previous_zeros(&self) -> (r: Vec<Scalar>)
        ensures
            r@.len() == self.previous_zeros@.len(),
            forall|i: int| 0 <= i < r@.len() ==> r@[i] == self.previous_zeros@[i].1,
    {
        let mut out: Vec<Scalar> = Vec::new();
        let n = self.previous_zeros.len();
        let mut i: usize = 0;
        while i < n
            invariant
                i <= n,
                n == self.previous_zeros@.len(),
                out@.len() == i,
                forall|j: int| 0 <= j < i ==> out@[j] == self.previous_zeros@[j].1,
            decreases n - i,
        {
            let (_m, z) = self.previous_zeros[i];
            out.push(z);
            i += 1;
        }
        out
    }
}

/// Relies on rayon's parallel map over a slice (`par_iter`, `map`,
/// `collect`): one output for each input, in input order, each one a value
/// the given closure may return for its input.
#[verifier::external_body]
fn par_map<G: Fn(Scalar) -> Scalar + Sync>(xs: &Vec<Scalar>, g: &G) -> (r: Vec<Scalar>)
    requires
        forall|t: Scalar| #[trigger] call_requires(*g, (t,)),
    ensures
        r@.len() == xs@.len(),
        forall|i: int| 0 <= i < xs@.len() ==> call_ensures(*g, (xs@[i],), #[trigger] r@[i]),
{
    xs.par_iter().map(|x| g(*x)).collect()
}

/// A weighted sample of the seed search at `x`: the value `|y / (1 - exp(-d*d))|`
/// built from a value `y` the function returned at `x` and a stencil
/// derivative estimate `d` there.  A flat region makes the weight large,
/// which biases the search away from plateaus.
pub open spec fn weighted_sample<F: Fn(Scalar) -> Scalar>(f: F, x: Scalar, w: Scalar) -> bool {
    exists|y: Scalar, d: Scalar|
        #![trigger call_ensures(f, (x,), y), stencil_of(value_rel(f), x, d)]
        call_ensures(f, (x,), y) && stencil_of(value_rel(f), x, d) && w == r_abs(
            r_div(y, r_add(r_neg(r_exp(r_mul(r_neg(d), d))), r_one())),
        )
}

/// The `i`-th of `n` seed positions: the image of `i` under the linear map
/// from `[0, n]` onto the search interval.
pub open spec fn guess_point(start: Scalar, end: Scalar, n: usize, i: int) -> Scalar {
    lin_map(r_from_u32(i as u32), r_from_u32(0), r_from_u32(n as u32), start, end)
}

/// Every weighted sample is beaten by some other — an assignment picks, for
/// each sample, one that compares strictly below it.  An order cycle of this
/// kind is never produced by double-precision comparison; the verifier
/// accounts for it.
pub open spec fn all_samples_beaten(ws: Seq<Scalar>) -> bool {
    exists|wit: Seq<int>|
        #![trigger wit.len()]
        wit.len() == ws.len() && forall|k: int|
            0 <= k < ws.len() ==> 0 <= #[trigger] wit[k] < ws.len() && r_lt(ws[wit[k]], ws[k])
}

/// The seed search's successful outcome: `x` is one of the `n` grid
/// positions, a weighted sample was observed at every grid position, and no
/// observed sample compares below the one at `x` (or, never on real doubles,
/// the observed samples form an order cycle).
pub open spec fn guess_outcome<F: Fn(Scalar) -> Scalar>(
    f: F,
    interval: (Scalar, Scalar),
    n: usize,
    x: Scalar,
) -> bool {
    exists|i: int, ws: Seq<Scalar>|
        #![trigger ws[i]]
        0 <= i < n && x == guess_point(interval.0, interval.1, n, i) && ws.len() == n && (forall|
            j: int,
        |
            0 <= j < n ==> weighted_sample(
                f,
                guess_point(interval.0, interval.1, n, j),
                #[trigger] ws[j],
            )) && ((forall|j: int| 0 <= j < n ==> !r_lt(#[trigger] ws[j], ws[i]))
            || all_samples_beaten(ws))
}

/// Samples the function's deflation-weighted magnitude at `n` evenly spaced
/// positions over the interval and returns the position of the minimum: a
/// heuristic seed for the next deflating search.  Yields nothing when no
/// position was sampled.
pub fn make_guess<F: Fn(Scalar) -> Scalar + Sync>(
    f: &F,
    interval: (Scalar, Scalar),
    n: usize,
) -> (r: Option<Scalar>)
    requires
        n <= u32::MAX,
        forall|t: Scalar| #[trigger] call_requires(*f, (t,)),
    ensures
        r is Some <==> n >= 1,
        match r {
            Some(x) => guess_outcome(*f, interval, n, x),
            None => true,
        },
{
    let (start, end) = interval;
    if n == 0 {
        return None;
    }
    let lo = rzero();
    let hi = rfrom_u32(n as u32);
    let mut xs: Vec<Scalar> = Vec::new();
    let mut i: usize = 0;
    while i < n
        invariant
            n <= u32::MAX,
            i <= n,
            start == interval.0,
            end == interval.1,
            lo == r_from_u32(0),
            hi == r_from_u32(n as u32),
            xs@.len() == i,
            forall|j: int| 0 <= j < i ==> xs@[j] == guess_point(start, end, n, j),
        decreases n - i,
    {
        xs.push(index_to_range(rfrom_u32(i as u32), lo, hi, start, end));
        i += 1;
    }
    let weigh = |x: Scalar| -> (w: Scalar)
        ensures
            weighted_sample(*f, x, w),
        {
            let d = derivative(f, x);
            let y = f(x);
            rabs(rdiv(y, radd(rneg(rexp(rmul(rneg(d), d))), rone())))
        };
    let ws = par_map(&xs, &weigh);
    let ghost wseq = ws@;
    proof {
        assert(forall|j: int|
            0 <= j < n ==> weighted_sample(*f, guess_point(start, end, n, j), #[trigger] wseq[j]));
    }
    let mut i: usize = 0;
    let ghost mut wit: Seq<int> = Seq::empty();
    while i < n
        invariant
            n <= u32::MAX,
            i <= n,
            n >= 1,
            start == interval.0,
            end == interval.1,
            xs@.len() == n,
            ws@.len() == n,
            ws@ == wseq,
            forall|t: Scalar| #[trigger] call_requires(*f, (t,)),
            forall|j: int| 0 <= j < n ==> xs@[j] == guess_point(start, end, n, j),
            forall|j: int|
                0 <= j < n ==> weighted_sample(
                    *f,
                    guess_point(start, end, n, j),
                    #[trigger] wseq[j],
                ),
            wit.len() == i,
            forall|k: int|
                0 <= k < i ==> 0 <= #[trigger] wit[k] < n && r_lt(wseq[wit[k]], wseq[k]),
        decreases n - i,
    {
        let mut beaten = false;
        let ghost mut beat_j: int = 0int;
        let mut j: usize = 0;
        while j < n
            invariant
                i < n,
                n == ws@.len(),
                ws@ == wseq,
                j <= n,
                beaten ==> 0 <= beat_j < n && r_lt(wseq[beat_j], wseq[i as int]),
                !beaten ==> forall|k: int| 0 <= k < j ==> !r_lt(#[trigger] wseq[k], wseq[i as int]),
            decreases n - j,
        {
            if rlt(ws[j], ws[i]) {
                beaten = true;
                proof {
                    beat_j = j as int;
                }
            }
            j += 1;
        }
        if !beaten {
            proof {
                let gi = i as int;
                let wgi = wseq[gi];
                assert(forall|j: int| 0 <= j < n ==> !r_lt(#[trigger] wseq[j], wseq[gi]));
                assert(0 <= gi && gi < n);
                assert(xs@[gi] == guess_point(interval.0, interval.1, n, gi));
                assert(wseq.len() == n);
                assert(forall|j: int|
                    0 <= j < n ==> weighted_sample(
                        *f,
                        guess_point(interval.0, interval.1, n, j),
                        #[trigger] wseq[j],
                    ));
                assert(guess_outcome(*f, interval, n, xs@[gi]));
            }
            return Some(xs[i]);
        }
        proof {
            wit = wit.push(beat_j);
        }
        i += 1;
    }
    proof {
        assert(wit.len() == wseq.len());
        assert(forall|k: int|
            0 <= k < wseq.len() ==> 0 <= #[trigger] wit[k] < wseq.len() && r_lt(
                wseq[wit[k]],
                wseq[k],
            ));
        assert(all_samples_beaten(wseq));
        let w0 = wseq[0int];
        assert(guess_outcome(*f, interval, n, xs@[0int]));
    }
    Some(xs[0])
}

/// The divisor of the stateless deflation: the product of `(x - z)` over the
/// known zeros, folded left from one.
pub open spec fn known_zeros_divisor(zeros: Seq<Scalar>, x: Scalar) -> Scalar
    decreases zeros.len(),
{
    if zeros.len() == 0 {
        r_one()
    } else {
        r_mul(known_zeros_divisor(zeros.drop_last(), x), r_sub(x, zeros.last()))
    }
}

/// The admissible values of the statelessly deflated function.
pub open spec fn known_zeros_rel<F: Fn(Scalar) -> Scalar>(
    f: F,
    zeros: Seq<Scalar>,
) -> spec_fn(Scalar, Scalar) -> bool {
    |t: Scalar, v: Scalar|
        exists|y: Scalar|
            #[trigger] call_ensures(f, (t,), y) && v == r_div(y, known_zeros_divisor(zeros, t))
}

/// The statelessly deflated value of `f` at `x`: `f(x)` divided by the
/// product of `(x - z)` over the known zeros.
fn naive_deflated_eval<F: Fn(Scalar) -> Scalar>(
    f: &F,
    known_zeros: &Vec<Scalar>,
    x: Scalar,
) -> (v: Scalar)
    requires
        forall|t: Scalar| #[trigger] call_requires(*f, (t,)),
    ensures
        known_zeros_rel(*f, known_zeros@)(x, v),
{
    let n = known_zeros.len();
    let mut div = rone();
    let mut i: usize = 0;
    proof {
        assert(known_zeros@.take(0int) =~= Seq::<Scalar>::empty());
    }
    while i < n
        invariant
            i <= n,
            n == known_zeros@.len(),
            div == known_zeros_divisor(known_zeros@.take(i as int), x),
        decreases n - i,
    {
        div = rmul(div, rsub(x, known_zeros[i]));
        proof {
            assert(known_zeros@.take(i as int + 1).drop_last() =~= known_zeros@.take(i as int));
            assert(known_zeros@.take(i as int + 1).last() == known_zeros@[i as int]);
        }
        i += 1;
    }
    proof {
        assert(known_zeros@.take(n as int) =~= known_zeros@);
    }
    let y = f(x);
    let v = rdiv(y, div);
    proof {
        assert(call_ensures(*f, (x,), y) && v == r_div(y, known_zeros_divisor(known_zeros@, x)));
        assert(known_zeros_rel(*f, known_zeros@)(x, v));
    }
    v
}

/// One capped Newton search against the function divided by the product of
/// `(x - z)` over the known zeros.
pub fn newtons_method_find_new_zero<F: Fn(Scalar) -> Scalar>(
    f: &F,
    guess: Scalar,
    precision: Scalar,
    max_iters: usize,
    known_zeros: &Vec<Scalar>,
) -> (r: Option<Scalar>)
    requires
        forall|t: Scalar| #[trigger] call_requires(*f, (t,)),
    ensures
        match r {
            Some(z) => newton_found_within_rel(
                known_zeros_rel(*f, known_zeros@),
                precision,
                guess,
                z,
                max_iters as nat,
            ),
            None => newton_gave_up_rel(
                known_zeros_rel(*f, known_zeros@),
                precision,
                guess,
                max_iters as nat,
            ),
        },
{
    let ghost krel = known_zeros_rel(*f, known_zeros@);
    let f_modified = |x: Scalar| -> (v: Scalar)
        ensures
            krel(x, v),
        { naive_deflated_eval(f, known_zeros, x) };
    proof {
        assert(forall|t: Scalar, v: Scalar| #[trigger]
            call_ensures(f_modified, (t,), v) ==> krel(t, v));
    }
    let r = newtons_method_max_iters(&f_modified, guess, precision, max_iters);
    proof {
        match r {
            Some(z) => {
                lemma_found_within_mono(
                    value_rel(f_modified),
                    krel,
                    precision,
                    guess,
                    z,
                    max_iters as nat,
                );
            },
            None => {
                lemma_gave_up_mono(value_rel(f_modified), krel, precision, guess, max_iters as nat);
            },
        }
    }
    r
}

} // verus!
