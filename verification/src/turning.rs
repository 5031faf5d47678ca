//! Turning-point detection and grouping.
//!
//! The validity function `v(x) = |U'(x)| / sqrt(2 m) - (U(x) - E)^2` marks
//! the boundaries of the WKB region; its zeros are found by the deflating
//! root finder, sorted, classified by the sign of the validity derivative,
//! completed at the view's edges where a boundary lies outside, and paired.
//! Each pair brackets a classically forbidden region, and the classical
//! turning point inside it is the zero of `U(x) - E` near the pair's middle.

use vstd::prelude::*;

verus! {

use crate::scalar::{
    Scalar, r_add, r_sub, r_mul, r_div, r_neg, r_abs, r_sqrt, r_zero, r_one, r_lt, r_signum,
    r_powi, r_from_u32,
    radd, rsub, rmul, rdiv, rneg, rabs, rsqrt, rzero, rone, rlt, rsignum, rpowi, rfrom_u32,
};
use crate::derivative::{stencil_of, value_rel, derivative};
use crate::roots::{
    FatalError, NewtonsMethodFindNewZero, newton_found_rel, newton_found_within_rel,
    newton_gave_up_rel, newtons_method, make_guess, regula_falsi_bisection, lemma_found_mono,
    lemma_gave_up_mono, lemma_found_within_mono, deflated_rel, deflated_rel_of,
    lemma_deflated_rel_mono, rf_search_found_rel, lemma_rf_search_mono,
};
use crate::wkb::Phase;
use vstd::multiset::Multiset;

/// How many seeding rounds the zero search runs at most.
pub const MAX_TURNING_POINTS: usize = 256;

/// The ordered turning-point groups: each entry holds the bracket of
/// validity-function zeros and the classical turning point between them.
pub struct TGroup {
    pub ts: Vec<((Scalar, Scalar), Scalar)>,
}

impl TGroup {
    /// An empty group list.
    pub fn new() -> (r: TGroup)
        ensures
            r.ts@ =~= Seq::<((Scalar, Scalar), Scalar)>::empty(),
    {
        TGroup { ts: Vec::new() }
    }

    /// Appends one turning-point entry.
    pub fn add_ts(&mut self, new_t: ((Scalar, Scalar), Scalar))
        ensures
            final(self).ts@ =~= old(self).ts@.push(new_t),
    {
        self.ts.push(new_t);
    }
}

/// The precision used to locate zeros of the validity function: `1 / 10^9`.
pub open spec fn accuracy() -> Scalar {
    r_div(r_one(), r_from_u32(1000000000))
}

/// The precision used to locate the classical turning point: `1 / 10^7`.
pub open spec fn turning_precision() -> Scalar {
    r_div(r_one(), r_from_u32(10000000))
}

/// The admissible values of the validity function derived from a potential:
/// `|d| / sqrt(2 m) - (y - E)^2` for a stencil derivative estimate `d` and a
/// returned potential value `y` at the same position.
pub open spec fn validity_rel<F: Fn(Scalar) -> Scalar>(
    energy: Scalar,
    mass: Scalar,
    f: F,
) -> spec_fn(Scalar, Scalar) -> bool {
    |x: Scalar, v: Scalar|
        exists|d: Scalar, y: Scalar|
            #![trigger stencil_of(value_rel(f), x, d), call_ensures(f, (x,), y)]
            stencil_of(value_rel(f), x, d) && call_ensures(f, (x,), y) && v == r_sub(
                r_mul(r_div(r_one(), r_sqrt(r_mul(r_from_u32(2), mass))), r_abs(d)),
                r_powi(r_sub(y, energy), 2),
            )
}

/// One value of the validity function at `x`.
pub fn validity_value<F: Fn(Scalar) -> Scalar>(
    energy: Scalar,
    mass: Scalar,
    f: &F,
    x: Scalar,
) -> (v: Scalar)
    requires
        forall|t: Scalar| #[trigger] call_requires(*f, (t,)),
    ensures
        validity_rel(energy, mass, *f)(x, v),
{
    let d = derivative(f, x);
    let y = f(x);
    let v = rsub(
        rmul(rdiv(rone(), rsqrt(rmul(rfrom_u32(2), mass))), rabs(d)),
        rpowi(rsub(y, energy), 2),
    );
    proof {
        assert(stencil_of(value_rel(*f), x, d) && call_ensures(*f, (x,), y));
        assert(validity_rel(energy, mass, *f)(x, v));
    }
    v
}

/// The admissible values of the potential shifted down by the energy:
/// the function whose zero is the classical turning point.
pub open spec fn shifted_potential_rel<F: Fn(Scalar) -> Scalar>(
    energy: Scalar,
    f: F,
) -> spec_fn(Scalar, Scalar) -> bool {
    |x: Scalar, v: Scalar|
        exists|y: Scalar| #[trigger] call_ensures(f, (x,), y) && v == r_sub(y, energy)
}

/// Inserting an element anywhere in a sequence adds it to the multiset.
proof fn lemma_insert_to_multiset(s: Seq<Scalar>, p: int, x: Scalar)
    requires
        0 <= p <= s.len(),
    ensures
        s.insert(p, x).to_multiset() =~= s.to_multiset().insert(x),
    decreases s.len() - p,
{
    if p == s.len() {
        assert(s.insert(p, x) =~= s.push(x));
        s.to_multiset_ensures();
    } else {
        let s0 = s.drop_last();
        lemma_insert_to_multiset(s0, p, x);
        s.insert_ensures(p, x);
        s0.insert_ensures(p, x);
        assert(s.insert(p, x) =~= s0.insert(p, x).push(s.last()));
        s0.insert(p, x).to_multiset_ensures();
        s0.to_multiset_ensures();
        assert(s =~= s0.push(s.last()));
        assert(s.insert(p, x).to_multiset() =~= s.to_multiset().insert(x));
    }
}

/// A rearrangement of the input, built by insertion under the double
/// comparison: same scalars, same count, and no adjacent inversion — no
/// element compares strictly below its left neighbour.  (The strict order of
/// doubles carries no transitivity axiom here, so the guarantee is stated on
/// neighbours, which is what the pairing consumes.)
pub fn sort_scalars(input: &Vec<Scalar>) -> (out: Vec<Scalar>)
    ensures
        out@.len() == input@.len(),
        out@.to_multiset() == input@.to_multiset(),
        forall|a: int| 0 <= a < out@.len() - 1 ==> !r_lt(out@[a + 1], #[trigger] out@[a]),
{
    let mut out: Vec<Scalar> = Vec::new();
    let n = input.len();
    let mut i: usize = 0;
    proof {
        assert(input@.take(0int) =~= Seq::<Scalar>::empty());
    }
    while i < n
        invariant
            i <= n,
            n == input@.len(),
            out@.len() == i,
            out@.to_multiset() == input@.take(i as int).to_multiset(),
            forall|a: int| 0 <= a < out@.len() - 1 ==> !r_lt(out@[a + 1], #[trigger] out@[a]),
        decreases n - i,
    {
        let x = input[i];
        let m = out.len();
        let mut p: usize = 0;
        let mut found = false;
        while !found && p < m
            invariant
                p <= m,
                m == out@.len(),
                forall|q: int| 0 <= q < p ==> !r_lt(x, #[trigger] out@[q]),
                found ==> p < m && r_lt(x, out@[p as int]) && !r_lt(out@[p as int], x),
            decreases 2 * (m - p) + (if found {
                0int
            } else {
                1int
            }),
        {
            if rlt(x, out[p]) {
                found = true;
            } else {
                p += 1;
            }
        }
        let ghost out_before = out@;
        out.insert(p, x);
        proof {
            lemma_insert_to_multiset(out_before, p as int, x);
            out_before.insert_ensures(p as int, x);
            assert(input@.take(i as int + 1) =~= input@.take(i as int).push(input@[i as int]));
            input@.take(i as int).to_multiset_ensures();
            assert(out@.to_multiset() == input@.take(i as int + 1).to_multiset());
            assert forall|a: int| 0 <= a < out@.len() - 1 implies !r_lt(
                out@[a + 1],
                #[trigger] out@[a],
            ) by {
                if a + 1 < p {
                    assert(out@[a] == out_before[a] && out@[a + 1] == out_before[a + 1]);
                } else if a + 1 == p {
                    assert(out@[a] == out_before[a] && out@[a + 1] == x);
                } else if a == p {
                    assert(out@[a] == x && out@[a + 1] == out_before[a]);
                } else {
                    assert(out@[a] == out_before[a - 1] && out@[a + 1] == out_before[a]);
                }
            };
        }
        i += 1;
    }
    proof {
        assert(input@.take(n as int) =~= input@);
    }
    out
}

/// The accuracy, as executable code.
fn accuracy_value() -> (r: Scalar)
    ensures
        r == accuracy(),
{
    rdiv(rone(), rfrom_u32(1000000000))
}

/// The view put in ascending order.
pub open spec fn ordered_view(view: (Scalar, Scalar)) -> (Scalar, Scalar) {
    if r_lt(view.0, view.1) {
        view
    } else {
        (view.1, view.0)
    }
}

/// A zero recorded by the deflating search: the converged result of a capped
/// Newton run — at the detection accuracy, within the finder's ten-thousand
/// step cap — against the validity function deflated by some previously
/// recorded zeros.
pub open spec fn recorded_validity_zero<F: Fn(Scalar) -> Scalar>(
    energy: Scalar,
    mass: Scalar,
    f: F,
    z: Scalar,
) -> bool {
    exists|prefix: Seq<(i32, Scalar)>, g: Scalar|
        #[trigger] newton_found_within_rel(
            deflated_rel_of(validity_rel(energy, mass, f), prefix, accuracy()),
            accuracy(),
            g,
            z,
            10000,
        )
}

/// What the zero scan returns: at most one zero per seeding round, each one
/// recorded by the deflating search and lying strictly inside the view.
pub open spec fn found_zeros<F: Fn(Scalar) -> Scalar>(
    energy: Scalar,
    mass: Scalar,
    f: F,
    view: (Scalar, Scalar),
    zs: Seq<Scalar>,
) -> bool {
    zs.len() <= MAX_TURNING_POINTS && forall|i: int|
        0 <= i < zs.len() ==> r_lt(ordered_view(view).0, #[trigger] zs[i]) && r_lt(
            zs[i],
            ordered_view(view).1,
        ) && recorded_validity_zero(energy, mass, f, zs[i])
}

/// Scans the view for zeros of the validity function: repeatedly seeds the
/// deflating finder with the weighted-minimum heuristic, and keeps the zeros
/// recorded by the finder that lie strictly inside the view.
pub fn find_zeros<'a, F: Fn(Scalar) -> Scalar + Sync>(
    phase: &Phase<'a, F>,
    view: (Scalar, Scalar),
) -> (r: Vec<Scalar>)
    requires
        phase.wf(),
    ensures
        found_zeros(phase.energy, phase.mass, *phase.potential, view, r@),
{
    let energy = phase.energy;
    let mass = phase.mass;
    let pot = phase.potential;
    let ghost vrel = validity_rel(energy, mass, *pot);
    let valid = |x: Scalar| -> (v: Scalar)
        ensures
            validity_rel(energy, mass, *pot)(x, v),
        { validity_value(energy, mass, pot, x) };
    proof {
        assert(forall|t: Scalar| #[trigger] call_requires(valid, (t,)));
        assert(forall|t: Scalar, v: Scalar| #[trigger] call_ensures(valid, (t,), v) ==> vrel(t, v));
    }
    let acc = accuracy_value();
    let mut finder = NewtonsMethodFindNewZero::new(valid, acc, 10000);
    let mut round: usize = 0;
    while round < MAX_TURNING_POINTS
        invariant
            round <= MAX_TURNING_POINTS,
            energy == phase.energy,
            mass == phase.mass,
            pot == phase.potential,
            vrel == validity_rel(energy, mass, *pot),
            finder.precision == accuracy(),
            finder.max_iters == 10000,
            forall|t: Scalar| #[trigger] call_requires(finder.f, (t,)),
            forall|t: Scalar, v: Scalar| #[trigger]
                call_ensures(finder.f, (t,), v) ==> vrel(t, v),
            finder.previous_zeros@.len() <= round,
            forall|j: int|
                0 <= j < finder.previous_zeros@.len() ==> recorded_validity_zero(
                    energy,
                    mass,
                    *pot,
                    (#[trigger] finder.previous_zeros@[j]).1,
                ),
        decreases MAX_TURNING_POINTS - round,
    {
        let guess = {
            let finder_ref = &finder;
            let modified = |x: Scalar| -> (v: Scalar)
                { finder_ref.modified_func(x) };
            proof {
                assert(forall|t: Scalar| #[trigger] call_requires(modified, (t,)));
            }
            make_guess(&modified, view, 1000)
        };
        if let Some(g) = guess {
            let ghost pre = finder.previous_zeros@;
            let found = finder.next_zero(g);
            proof {
                if let Some(z) = found {
                    assert forall|t: Scalar, v: Scalar| #[trigger]
                        value_rel(finder.f)(t, v) implies vrel(t, v) by {
                        assert(call_ensures(finder.f, (t,), v));
                    };
                    lemma_deflated_rel_mono(value_rel(finder.f), vrel, pre, accuracy());
                    lemma_found_within_mono(
                        deflated_rel_of(value_rel(finder.f), pre, accuracy()),
                        deflated_rel_of(vrel, pre, accuracy()),
                        accuracy(),
                        g,
                        z,
                        10000,
                    );
                    assert(newton_found_within_rel(
                        deflated_rel_of(validity_rel(energy, mass, *pot), pre, accuracy()),
                        accuracy(),
                        g,
                        z,
                        10000,
                    ));
                    assert(recorded_validity_zero(energy, mass, *pot, z));
                    assert forall|j: int|
                        0 <= j < finder.previous_zeros@.len() implies recorded_validity_zero(
                        energy,
                        mass,
                        *pot,
                        (#[trigger] finder.previous_zeros@[j]).1,
                    ) by {
                        if j < pre.len() {
                            assert(finder.previous_zeros@[j] == pre[j]);
                        } else {
                            assert(finder.previous_zeros@[j].1 == z);
                        }
                    };
                }
            }
        }
        round += 1;
    }
    let (lo, hi) = if rlt(view.0, view.1) {
        view
    } else {
        (view.1, view.0)
    };
    let all = finder.get_previous_zeros();
    let mut out: Vec<Scalar> = Vec::new();
    let n = all.len();
    let mut i: usize = 0;
    while i < n
        invariant
            i <= n,
            n == all@.len(),
            n <= MAX_TURNING_POINTS,
            energy == phase.energy,
            mass == phase.mass,
            pot == phase.potential,
            lo == ordered_view(view).0,
            hi == ordered_view(view).1,
            out@.len() <= i,
            forall|j: int|
                0 <= j < n ==> recorded_validity_zero(energy, mass, *pot, #[trigger] all@[j]),
            forall|j: int|
                0 <= j < out@.len() ==> r_lt(ordered_view(view).0, #[trigger] out@[j]) && r_lt(
                    out@[j],
                    ordered_view(view).1,
                ) && recorded_validity_zero(energy, mass, *pot, out@[j]),
        decreases n - i,
    {
        let z = all[i];
        if rlt(lo, z) && rlt(z, hi) {
            out.push(z);
        }
        i += 1;
    }
    out
}

/// One grouped pair is valid when a validity-derivative estimate at its left
/// zero had positive sign, one at its right zero had negative sign, and the
/// turning point was reached by a converged Newton run on `U - E` seeded at
/// the pair's middle.
pub open spec fn valid_pair<F: Fn(Scalar) -> Scalar>(
    energy: Scalar,
    mass: Scalar,
    f: F,
    entry: ((Scalar, Scalar), Scalar),
) -> bool {
    (exists|d: Scalar|
        #[trigger] stencil_of(validity_rel(energy, mass, f), entry.0.0, d) && r_lt(
            r_zero(),
            r_signum(d),
        )) && (exists|d: Scalar|
        #[trigger] stencil_of(validity_rel(energy, mass, f), entry.0.1, d) && r_lt(
            r_signum(d),
            r_zero(),
        )) && newton_found_rel(
        shifted_potential_rel(energy, f),
        turning_precision(),
        r_div(r_add(entry.0.0, entry.0.1), r_from_u32(2)),
        entry.1,
    )
}

/// A boundary zero manufactured at the view's edge: found by the
/// bracket-then-refine search on the validity function, stepping outward by
/// the given signed step from some seed.
pub open spec fn edge_zero_found<F: Fn(Scalar) -> Scalar>(
    energy: Scalar,
    mass: Scalar,
    f: F,
    step: Scalar,
    z: Scalar,
) -> bool {
    exists|g: Scalar|
        #[trigger] rf_search_found_rel(validity_rel(energy, mass, f), accuracy(), g, step, z)
}

/// One classified boundary entry: the entry's sign value is the signum of a
/// stencil estimate of the validity derivative observed at the entry's
/// position.
pub open spec fn classified_entry<F: Fn(Scalar) -> Scalar>(
    energy: Scalar,
    mass: Scalar,
    f: F,
    entry: (Scalar, Scalar),
) -> bool {
    exists|d: Scalar|
        #[trigger] stencil_of(validity_rel(energy, mass, f), entry.1, d) && entry.0 == r_signum(d)
}

/// A classified boundary sequence: every entry classified by an observed
/// validity-derivative estimate.
pub open spec fn classified_boundaries<F: Fn(Scalar) -> Scalar>(
    energy: Scalar,
    mass: Scalar,
    f: F,
    entries: Seq<(Scalar, Scalar)>,
) -> bool {
    forall|j: int|
        0 <= j < entries.len() ==> classified_entry(energy, mass, f, #[trigger] entries[j])
}

/// The detection failed on an observed cause: a turning-point Newton run on
/// `U - E` that genuinely gave up, or an observed classification of the
/// boundary zeros with an odd count or a sign pattern that cannot be paired.
pub open spec fn detection_failure<F: Fn(Scalar) -> Scalar>(
    energy: Scalar,
    mass: Scalar,
    f: F,
    e: FatalError,
) -> bool {
    match e {
        FatalError::ZeroDerivative => exists|mid: Scalar|
            #[trigger] newton_gave_up_rel(
                shifted_potential_rel(energy, f),
                turning_precision(),
                mid,
                usize::MAX as nat,
            ),
        FatalError::OddBoundaryCount => exists|entries: Seq<(Scalar, Scalar)>|
            #![trigger entries.len()]
            classified_boundaries(energy, mass, f, entries) && (entries.len() % 2 == 1 || exists|
                k: int,
            |
                0 <= k && 2 * k + 1 < entries.len() && (!r_lt(r_zero(), (#[trigger] entries[2 * k]).0)
                    || !r_lt(entries[2 * k + 1].0, r_zero()))),
        FatalError::OutOfRange => false,
    }
}

/// How the grouped pairs stand to a classified boundary sequence: the entries
/// come in matched pairs, the `i`-th group bracketing the positions of
/// entries `2i` and `2i + 1`, whose observed signs are positive then
/// negative.
pub open spec fn paired_boundaries(
    entries: Seq<(Scalar, Scalar)>,
    ts: Seq<((Scalar, Scalar), Scalar)>,
) -> bool {
    entries.len() == 2 * ts.len() && forall|i: int|
        0 <= i < ts.len() ==> {
            &&& (#[trigger] ts[i]).0.0 == entries[2 * i].1
            &&& ts[i].0.1 == entries[2 * i + 1].1
            &&& r_lt(r_zero(), entries[2 * i].0)
            &&& r_lt(entries[2 * i + 1].0, r_zero())
        }
}

/// The observed shape behind a successful grouping: a classified boundary
/// sequence that the pairs consume two at a time in order, whose middle is
/// exactly the ascending rearrangement of the given zeros (no adjacent
/// inversion under the double comparison), with at most one manufactured
/// entry at each edge.
pub open spec fn grouping_outcome<F: Fn(Scalar) -> Scalar>(
    energy: Scalar,
    mass: Scalar,
    f: F,
    zeros: Seq<Scalar>,
    ts: Seq<((Scalar, Scalar), Scalar)>,
) -> bool {
    exists|entries: Seq<(Scalar, Scalar)>, sorted: Seq<Scalar>, lo: int|
        #![trigger paired_boundaries(entries, ts), sorted.to_multiset(), entries.subrange(
            lo,
            lo + sorted.len() as int,
        )]
        classified_boundaries(energy, mass, f, entries) && paired_boundaries(entries, ts)
            && sorted.len() == zeros.len() && sorted.to_multiset() == zeros.to_multiset() && (forall|
            a: int,
        |
            0 <= a < sorted.len() - 1 ==> !r_lt(sorted[a + 1], #[trigger] sorted[a])) && 0 <= lo
            <= 1 && lo + sorted.len() <= entries.len() && entries.len() - (lo + sorted.len()) <= 1
            && (forall|j: int| 0 <= j < sorted.len() ==> (#[trigger] entries[lo + j]).1 == sorted[j])
            && (lo == 1 ==> edge_zero_found(energy, mass, f, r_neg(r_sqrt(accuracy())), entries[0].1))
            && (lo + sorted.len() < entries.len() ==> edge_zero_found(
            energy,
            mass,
            f,
            r_sqrt(accuracy()),
            entries[entries.len() - 1].1,
        ))
}

/// One value of the potential shifted down by the energy.
pub(crate) fn shifted_value<F: Fn(Scalar) -> Scalar>(energy: Scalar, f: &F, x: Scalar) -> (v: Scalar)
    requires
        forall|t: Scalar| #[trigger] call_requires(*f, (t,)),
    ensures
        shifted_potential_rel(energy, *f)(x, v),
{
    let y = f(x);
    let v = rsub(y, energy);
    proof {
        assert(call_ensures(*f, (x,), y) && v == r_sub(y, energy));
        assert(shifted_potential_rel(energy, *f)(x, v));
    }
    v
}

/// Sorts the zeros, classifies each by the sign of a validity-derivative
/// estimate, manufactures a boundary zero outside the first or last one
/// where the sign pattern shows the allowed region leaving the view, and
/// pairs adjacent zeros; each pair's interior turning point is the Newton
/// zero of `U - E` near the pair's middle.  An odd boundary count or a
/// mismatched sign pattern is the fatal detection failure.
pub fn group_ts<'a, F: Fn(Scalar) -> Scalar>(
    zeros: &Vec<Scalar>,
    phase: &Phase<'a, F>,
) -> (r: Result<TGroup, FatalError>)
    requires
        phase.wf(),
    ensures
        match r {
            Ok(g) => (forall|i: int|
                0 <= i < g.ts@.len() ==> valid_pair(
                    phase.energy,
                    phase.mass,
                    *phase.potential,
                    #[trigger] g.ts@[i],
                )) && grouping_outcome(
                phase.energy,
                phase.mass,
                *phase.potential,
                zeros@,
                g.ts@,
            ),
            Err(e) => detection_failure(phase.energy, phase.mass, *phase.potential, e),
        },
{
    let energy = phase.energy;
    let mass = phase.mass;
    let pot = phase.potential;
    let ghost vrel = validity_rel(energy, mass, *pot);
    let valid = |x: Scalar| -> (v: Scalar)
        ensures
            validity_rel(energy, mass, *pot)(x, v),
        { validity_value(energy, mass, pot, x) };
    proof {
        assert(forall|t: Scalar, v: Scalar| #[trigger] call_ensures(valid, (t,), v) ==> vrel(t, v));
        assert(forall|t: Scalar| #[trigger] call_requires(valid, (t,)));
    }
    let sorted = sort_scalars(zeros);
    let ghost mut lo: int = 0;

    let mut derivs: Vec<(Scalar, Scalar)> = Vec::new();
    let ghost mut dwit: Seq<Scalar> = Seq::empty();
    let n = sorted.len();
    let mut i: usize = 0;
    while i < n
        invariant
            i <= n,
            n == sorted@.len(),
            forall|t: Scalar| #[trigger] call_requires(*pot, (t,)),
            forall|t: Scalar| #[trigger] call_requires(valid, (t,)),
            vrel == validity_rel(energy, mass, *pot),
            forall|t: Scalar, v: Scalar| #[trigger] call_ensures(valid, (t,), v) ==> vrel(t, v),
            derivs@.len() == i,
            dwit.len() == i,
            forall|j: int|
                0 <= j < i ==> stencil_of(vrel, derivs@[j].1, #[trigger] dwit[j]) && derivs@[j].0
                    == r_signum(dwit[j]),
            forall|j: int| 0 <= j < i ==> (#[trigger] derivs@[j]).1 == sorted@[j],
        decreases n - i,
    {
        let z = sorted[i];
        let d = derivative(&valid, z);
        proof {
            crate::derivative::lemma_stencil_mono(value_rel(valid), vrel, z, d);
        }
        derivs.push((rsignum(d), z));
        proof {
            dwit = dwit.push(d);
        }
        i += 1;
    }

    let acc = accuracy_value();
    let sqrt_acc = rsqrt(acc);

    if derivs.len() > 0 {
        let (d0, z0) = derivs[0];
        if rlt(d0, rzero()) {
            let mut guess = rsub(z0, sqrt_acc);
            let mut new_deriv = d0;
            let mut missing_t = z0;
            let mut fuel: usize = 0;
            while fuel < usize::MAX && rlt(new_deriv, rzero())
                invariant
                    forall|t: Scalar| #[trigger] call_requires(*pot, (t,)),
                    forall|t: Scalar| #[trigger] call_requires(valid, (t,)),
                    vrel == validity_rel(energy, mass, *pot),
                    forall|t: Scalar, v: Scalar| #[trigger]
                        call_ensures(valid, (t,), v) ==> vrel(t, v),
                    acc == accuracy(),
                    sqrt_acc == r_sqrt(accuracy()),
                    fuel == 0 ==> new_deriv == d0,
                    fuel >= 1 ==> edge_zero_found(
                        energy,
                        mass,
                        *pot,
                        r_neg(r_sqrt(accuracy())),
                        missing_t,
                    ),
                decreases usize::MAX - fuel,
            {
                let seed = guess;
                missing_t = regula_falsi_bisection(&valid, seed, rneg(sqrt_acc), acc);
                proof {
                    assert forall|t: Scalar, v: Scalar| #[trigger]
                        value_rel(valid)(t, v) implies vrel(t, v) by {
                        assert(call_ensures(valid, (t,), v));
                    };
                    lemma_rf_search_mono(
                        value_rel(valid),
                        vrel,
                        accuracy(),
                        seed,
                        r_neg(r_sqrt(accuracy())),
                        missing_t,
                    );
                    assert(edge_zero_found(
                        energy,
                        mass,
                        *pot,
                        r_neg(r_sqrt(accuracy())),
                        missing_t,
                    ));
                }
                new_deriv = rsignum(derivative(&valid, missing_t));
                guess = rsub(guess, sqrt_acc);
                fuel += 1;
            }
            proof {
                assert(fuel >= 1);
            }
            let di = derivative(&valid, missing_t);
            proof {
                crate::derivative::lemma_stencil_mono(value_rel(valid), vrel, missing_t, di);
            }
            let ghost derivs_before = derivs@;
            derivs.insert(0, (rsignum(di), missing_t));
            proof {
                dwit = dwit.insert(0, di);
                lo = 1;
                assert(forall|j: int|
                    1 <= j < derivs@.len() ==> #[trigger] derivs@[j] == derivs_before[j - 1]);
                assert(derivs@[0] == (r_signum(di), missing_t));
                assert(forall|j: int|
                    0 <= j < sorted@.len() ==> (#[trigger] derivs@[lo + j]).1 == sorted@[j]);
                assert(edge_zero_found(
                    energy,
                    mass,
                    *pot,
                    r_neg(r_sqrt(accuracy())),
                    derivs@[0].1,
                ));
            }
        }
    }

    let ghost mut hi_edge = false;
    if derivs.len() > 0 {
        let (dl, zl) = derivs[derivs.len() - 1];
        if rlt(rzero(), dl) {
            let mut guess = radd(zl, sqrt_acc);
            let mut new_deriv = dl;
            let mut missing_t = zl;
            let mut fuel: usize = 0;
            while fuel < usize::MAX && rlt(rzero(), new_deriv)
                invariant
                    forall|t: Scalar| #[trigger] call_requires(*pot, (t,)),
                    forall|t: Scalar| #[trigger] call_requires(valid, (t,)),
                    vrel == validity_rel(energy, mass, *pot),
                    forall|t: Scalar, v: Scalar| #[trigger]
                        call_ensures(valid, (t,), v) ==> vrel(t, v),
                    acc == accuracy(),
                    sqrt_acc == r_sqrt(accuracy()),
                    fuel == 0 ==> new_deriv == dl,
                    fuel >= 1 ==> edge_zero_found(energy, mass, *pot, r_sqrt(accuracy()), missing_t),
                decreases usize::MAX - fuel,
            {
                let seed = guess;
                missing_t = regula_falsi_bisection(&valid, seed, sqrt_acc, acc);
                proof {
                    assert forall|t: Scalar, v: Scalar| #[trigger]
                        value_rel(valid)(t, v) implies vrel(t, v) by {
                        assert(call_ensures(valid, (t,), v));
                    };
                    lemma_rf_search_mono(
                        value_rel(valid),
                        vrel,
                        accuracy(),
                        seed,
                        r_sqrt(accuracy()),
                        missing_t,
                    );
                    assert(edge_zero_found(energy, mass, *pot, r_sqrt(accuracy()), missing_t));
                }
                new_deriv = rsignum(derivative(&valid, missing_t));
                guess = radd(guess, sqrt_acc);
                fuel += 1;
            }
            proof {
                assert(fuel >= 1);
            }
            let di = derivative(&valid, missing_t);
            proof {
                crate::derivative::lemma_stencil_mono(value_rel(valid), vrel, missing_t, di);
            }
            derivs.push((rsignum(di), missing_t));
            proof {
                dwit = dwit.push(di);
                hi_edge = true;
                assert(derivs@[derivs@.len() - 1].1 == missing_t);
                assert(edge_zero_found(
                    energy,
                    mass,
                    *pot,
                    r_sqrt(accuracy()),
                    derivs@[derivs@.len() - 1].1,
                ));
            }
        }
    }

    if derivs.len() % 2 != 0 {
        proof {
            assert forall|j: int| 0 <= j < derivs@.len() implies classified_entry(
                energy,
                mass,
                *pot,
                #[trigger] derivs@[j],
            ) by {
                let wd = dwit[j];
                assert(stencil_of(validity_rel(energy, mass, *pot), derivs@[j].1, wd) && derivs@[j].0
                    == r_signum(wd));
            };
            assert(classified_boundaries(energy, mass, *pot, derivs@) && derivs@.len() % 2 == 1);
            assert(detection_failure(energy, mass, *pot, FatalError::OddBoundaryCount));
        }
        return Err(FatalError::OddBoundaryCount);
    }

    let ghost srel = shifted_potential_rel(energy, *pot);
    let shifted = |x: Scalar| -> (v: Scalar)
        ensures
            shifted_potential_rel(energy, *pot)(x, v),
        { shifted_value(energy, pot, x) };
    proof {
        assert(forall|t: Scalar, v: Scalar| #[trigger]
            call_ensures(shifted, (t,), v) ==> srel(t, v));
        assert(forall|t: Scalar| #[trigger] call_requires(shifted, (t,)));
    }

    let prec = rdiv(rone(), rfrom_u32(10000000));
    let mut groups = TGroup::new();
    let m = derivs.len();
    let mut i: usize = 0;
    while m - i > 1
        invariant
            m == derivs@.len(),
            m % 2 == 0,
            i <= m,
            i % 2 == 0,
            2 * groups.ts@.len() == i,
            energy == phase.energy,
            mass == phase.mass,
            pot == phase.potential,
            forall|t: Scalar| #[trigger] call_requires(*pot, (t,)),
            vrel == validity_rel(energy, mass, *pot),
            srel == shifted_potential_rel(energy, *pot),
            forall|t: Scalar, v: Scalar| #[trigger] call_ensures(shifted, (t,), v) ==> srel(t, v),
            forall|t: Scalar| #[trigger] call_requires(shifted, (t,)),
            prec == turning_precision(),
            dwit.len() == m,
            forall|j: int|
                0 <= j < m ==> stencil_of(vrel, derivs@[j].1, #[trigger] dwit[j]) && derivs@[j].0
                    == r_signum(dwit[j]),
            forall|k: int|
                0 <= k < groups.ts@.len() ==> valid_pair(
                    energy,
                    mass,
                    *pot,
                    #[trigger] groups.ts@[k],
                ),
            forall|k: int|
                0 <= k < groups.ts@.len() ==> {
                    &&& (#[trigger] groups.ts@[k]).0.0 == derivs@[2 * k].1
                    &&& groups.ts@[k].0.1 == derivs@[2 * k + 1].1
                    &&& r_lt(r_zero(), derivs@[2 * k].0)
                    &&& r_lt(derivs@[2 * k + 1].0, r_zero())
                },
        decreases m - i,
    {
        let (d1s, t1) = derivs[i];
        let (d2s, t2) = derivs[i + 1];
        if !rlt(rzero(), d1s) {
            proof {
                assert forall|j: int| 0 <= j < derivs@.len() implies classified_entry(
                    energy,
                    mass,
                    *pot,
                    #[trigger] derivs@[j],
                ) by {
                    let wd = dwit[j];
                    assert(stencil_of(validity_rel(energy, mass, *pot), derivs@[j].1, wd)
                        && derivs@[j].0 == r_signum(wd));
                };
                let k = i as int / 2;
                assert(2 * k == i as int);
                assert(!r_lt(r_zero(), derivs@[2 * k].0));
                assert(classified_boundaries(energy, mass, *pot, derivs@));
                assert(detection_failure(energy, mass, *pot, FatalError::OddBoundaryCount));
            }
            return Err(FatalError::OddBoundaryCount);
        }
        if !rlt(d2s, rzero()) {
            proof {
                assert forall|j: int| 0 <= j < derivs@.len() implies classified_entry(
                    energy,
                    mass,
                    *pot,
                    #[trigger] derivs@[j],
                ) by {
                    let wd = dwit[j];
                    assert(stencil_of(validity_rel(energy, mass, *pot), derivs@[j].1, wd)
                        && derivs@[j].0 == r_signum(wd));
                };
                let k = i as int / 2;
                assert(2 * k == i as int);
                assert(derivs@[2 * k] == (d1s, t1));
                assert(!r_lt(derivs@[2 * k + 1].0, r_zero()));
                assert(classified_boundaries(energy, mass, *pot, derivs@));
                assert(detection_failure(energy, mass, *pot, FatalError::OddBoundaryCount));
            }
            return Err(FatalError::OddBoundaryCount);
        }
        let mid = rdiv(radd(t1, t2), rfrom_u32(2));
        let turning_point = match newtons_method(&shifted, mid, prec) {
            Ok(t) => t,
            Err(e) => {
                proof {
                    lemma_gave_up_mono(value_rel(shifted), srel, prec, mid, usize::MAX as nat);
                    assert(newton_gave_up_rel(
                        shifted_potential_rel(energy, *pot),
                        turning_precision(),
                        mid,
                        usize::MAX as nat,
                    ));
                    assert(detection_failure(energy, mass, *pot, FatalError::ZeroDerivative));
                }
                return Err(e);
            },
        };
        proof {
            lemma_found_mono(value_rel(shifted), srel, prec, mid, turning_point);
            let gd1 = dwit[i as int];
            let gd2 = dwit[i as int + 1];
            assert(stencil_of(validity_rel(energy, mass, *pot), t1, gd1) && r_lt(
                r_zero(),
                r_signum(gd1),
            ));
            assert(stencil_of(validity_rel(energy, mass, *pot), t2, gd2) && r_lt(
                r_signum(gd2),
                r_zero(),
            ));
            assert(newton_found_rel(
                shifted_potential_rel(energy, *pot),
                turning_precision(),
                r_div(r_add(t1, t2), r_from_u32(2)),
                turning_point,
            ));
            let entry = ((t1, t2), turning_point);
            assert(entry.0.0 == t1 && entry.0.1 == t2 && entry.1 == turning_point);
            assert(valid_pair(energy, mass, *pot, entry));
            assert(derivs@[i as int] == (d1s, t1) && derivs@[i as int + 1] == (d2s, t2));
        }
        groups.add_ts(((t1, t2), turning_point));
        i += 2;
    }
    proof {
        assert(i == m) by {
            assert(m - i <= 1 && i <= m && i % 2 == 0 && m % 2 == 0);
        };
        assert(derivs@.len() == 2 * groups.ts@.len());
        assert(paired_boundaries(derivs@, groups.ts@));
        assert forall|j: int| 0 <= j < derivs@.len() implies classified_entry(
            energy,
            mass,
            *pot,
            #[trigger] derivs@[j],
        ) by {
            let wd = dwit[j];
            assert(stencil_of(validity_rel(energy, mass, *pot), derivs@[j].1, wd) && derivs@[j].0
                == r_signum(wd));
        };
        assert(classified_boundaries(energy, mass, *pot, derivs@));
        let subr = derivs@.subrange(lo, lo + sorted@.len() as int);
        assert(sorted@.to_multiset() == zeros@.to_multiset());
        assert(grouping_outcome(energy, mass, *pot, zeros@, groups.ts@));
    }
    Ok(groups)
}

/// Computes the ordered turning-point groups of a configuration over a view:
/// finds the validity function's zeros inside the view, then groups them.
pub fn calc_ts<'a, F: Fn(Scalar) -> Scalar + Sync>(
    phase: &Phase<'a, F>,
    view: (Scalar, Scalar),
) -> (r: Result<TGroup, FatalError>)
    requires
        phase.wf(),
    ensures
        match r {
            Ok(g) => (forall|i: int|
                0 <= i < g.ts@.len() ==> valid_pair(
                    phase.energy,
                    phase.mass,
                    *phase.potential,
                    #[trigger] g.ts@[i],
                )) && exists|zs: Seq<Scalar>|
                #[trigger] found_zeros(phase.energy, phase.mass, *phase.potential, view, zs)
                    && grouping_outcome(phase.energy, phase.mass, *phase.potential, zs, g.ts@),
            Err(e) => detection_failure(phase.energy, phase.mass, *phase.potential, e),
        },
{
    let zeros = find_zeros(phase, view);
    let r = group_ts(&zeros, phase);
    proof {
        if r is Ok {
            assert(found_zeros(phase.energy, phase.mass, *phase.potential, view, zeros@)
                && grouping_outcome(
                phase.energy,
                phase.mass,
                *phase.potential,
                zeros@,
                r->Ok_0.ts@,
            ));
        }
    }
    r
}

} // verus!
