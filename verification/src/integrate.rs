//! Chunked composite-trapezoidal integration of a sampled function.
//!
//! The point sequence is split into consecutive chunks; each chunk's local
//! trapezoidal sum is computed independently (in parallel), the chunk sums
//! are added in chunk order, and the cross-chunk boundary panels are added
//! afterwards, once each, in index order.  The contract pins the result to
//! that exact composition of double-precision steps, and the lemmas at the
//! bottom show that the scheme adds up exactly the panels of the plain
//! composite rule: in exact arithmetic the total does not depend on the
//! chunk size.

use vstd::prelude::*;

use rayon::prelude::ParallelIterator;
use rayon::prelude::ParallelSlice;

verus! {

use crate::scalar::{r_sub, r_div, r_from_u32, rsub, rdiv, rfrom_u32};
use crate::cplx::{Cplx, c_add, c_scale, c_zero, cadd, cscale, czero};
use crate::sample::SampledPoint;

/// The trapezoid panel spanned by two adjacent points:
/// `(q.x - p.x) / 2 * (p.y + q.y)`.
pub open spec fn panel(p: SampledPoint, q: SampledPoint) -> Cplx {
    c_scale(r_div(r_sub(q.x, p.x), r_from_u32(2)), c_add(p.y, q.y))
}

/// The panel spanned by two adjacent points, as executable code.
pub fn panel_between(p: SampledPoint, q: SampledPoint) -> (r: Cplx)
    ensures
        r == panel(p, q),
{
    cscale(rdiv(rsub(q.x, p.x), rfrom_u32(2)), cadd(p.y, q.y))
}

/// The left fold of the panels between consecutive points `lo .. hi`,
/// starting from complex zero.
pub open spec fn sum_panels(pts: Seq<SampledPoint>, lo: int, hi: int) -> Cplx
    decreases hi - lo,
{
    if hi - lo < 2 {
        c_zero()
    } else {
        c_add(sum_panels(pts, lo, hi - 1), panel(pts[hi - 2], pts[hi - 1]))
    }
}

/// How many chunks of size `c` cover `n` points (the last may be shorter).
pub open spec fn n_chunks(n: int, c: int) -> int {
    (n + c - 1) / c
}

/// The local trapezoidal sum of chunk `k`: the panels lying strictly inside
/// the chunk's run of points.
pub open spec fn chunk_sum_spec(pts: Seq<SampledPoint>, c: int, k: int) -> Cplx {
    sum_panels(pts, k * c, if k * c + c <= pts.len() { k * c + c } else { pts.len() as int })
}

/// The left fold of the first `k` chunk sums.
pub open spec fn chunks_fold(pts: Seq<SampledPoint>, c: int, k: int) -> Cplx
    decreases k,
{
    if k <= 0 {
        c_zero()
    } else {
        c_add(chunks_fold(pts, c, k - 1), chunk_sum_spec(pts, c, k - 1))
    }
}

/// All chunk sums, followed by the cross-chunk boundary panels with index
/// below `k`, added in index order.
pub open spec fn bounds_fold(pts: Seq<SampledPoint>, c: int, k: int) -> Cplx
    decreases k,
{
    if k <= 1 {
        chunks_fold(pts, c, n_chunks(pts.len() as int, c))
    } else {
        c_add(bounds_fold(pts, c, k - 1), panel(pts[(k - 1) * c - 1], pts[(k - 1) * c]))
    }
}

/// The chunked composite-trapezoidal value of a sampled sequence: zero for
/// fewer than two points, otherwise every chunk's local sum plus every
/// boundary panel, in the fixed order above.
pub open spec fn integrate_spec(pts: Seq<SampledPoint>, c: int) -> Cplx {
    if pts.len() < 2 {
        c_zero()
    } else {
        bounds_fold(pts, c, n_chunks(pts.len() as int, c))
    }
}

/// The local trapezoidal sum of one chunk of points.
pub fn chunk_sum(ch: &[SampledPoint]) -> (r: Cplx)
    ensures
        r == sum_panels(ch@, 0, ch@.len() as int),
{
    let n = ch.len();
    let mut acc = czero();
    if n < 2 {
        return acc;
    }
    let mut j: usize = 1;
    while j < n
        invariant
            1 <= j <= n,
            n == ch@.len(),
            acc == sum_panels(ch@, 0, j as int),
        decreases n - j,
    {
        acc = cadd(acc, panel_between(ch[j - 1], ch[j]));
        j += 1;
    }
    acc
}

/// Relies on rayon's `par_chunks`, `map` and `collect`: the slice is split
/// into consecutive chunks of `c` points (the last one shorter), each local
/// sum is computed by the verified `chunk_sum`, and `collect` keeps the
/// chunks' order.
#[verifier::external_body]
fn par_chunk_sums(pts: &Vec<SampledPoint>, c: usize) -> (r: Vec<Cplx>)
    requires
        1 <= c,
        2 <= pts@.len(),
    ensures
        r@.len() == n_chunks(pts@.len() as int, c as int),
        forall|k: int| 0 <= k < r@.len() ==> r@[k] == chunk_sum_spec(pts@, c as int, k),
{
    pts.par_chunks(c).map(|ch| chunk_sum(ch)).collect()
}

/// The composite trapezoidal integral of an ordered point sequence, computed
/// chunk by chunk: zero for fewer than two points.
pub fn integrate(points: &Vec<SampledPoint>, chunk_size: usize) -> (r: Cplx)
    requires
        1 <= chunk_size,
    ensures
        r == integrate_spec(points@, chunk_size as int),
{
    let n = points.len();
    if n < 2 {
        return czero();
    }
    let c = chunk_size;
    let sums = par_chunk_sums(points, c);
    let nc = sums.len();
    proof {
        lemma_chunk_bound(n as int, c as int);
    }
    let mut acc = czero();
    let mut k: usize = 0;
    while k < nc
        invariant
            k <= nc,
            nc == n_chunks(points@.len() as int, c as int),
            sums@.len() == nc,
            forall|j: int| 0 <= j < nc ==> sums@[j] == chunk_sum_spec(points@, c as int, j),
            acc == chunks_fold(points@, c as int, k as int),
        decreases nc - k,
    {
        acc = cadd(acc, sums[k]);
        k += 1;
    }
    let mut k: usize = 1;
    while k < nc
        invariant
            1 <= k <= nc || (nc <= 1 && k == 1),
            n == points@.len(),
            2 <= n <= usize::MAX,
            1 <= c,
            nc == n_chunks(n as int, c as int),
            (nc - 1) * c <= n - 1,
            acc == bounds_fold(points@, c as int, k as int),
        decreases nc - k,
    {
        proof {
            assert((k as int) * (c as int) <= (nc - 1) * (c as int) && 1 <= (k as int) * (
            c as int)) by (nonlinear_arith)
                requires
                    1 <= k as int <= nc - 1,
                    c >= 1,
            ;
            assert((k as int) * (c as int) <= n - 1);
        }
        acc = cadd(acc, panel_between(points[k * c - 1], points[k * c]));
        k += 1;
    }
    acc
}

/// The sum of the integers `s[lo], .., s[hi - 1]`.
pub open spec fn isum_range(s: Seq<int>, lo: int, hi: int) -> int
    decreases hi - lo,
{
    if lo >= hi {
        0
    } else {
        isum_range(s, lo, hi - 1) + s[hi - 1]
    }
}

/// The exact-arithmetic mirror of `chunk_sum_spec`, over the sequence of the
/// panel values: the panels lying strictly inside chunk `k`, with `s.len()`
/// panels standing between `s.len() + 1` points.
pub open spec fn ichunk_sum(s: Seq<int>, c: int, k: int) -> int {
    isum_range(
        s,
        k * c,
        if k * c + c - 1 <= s.len() {
            k * c + c - 1
        } else {
            s.len() as int
        },
    )
}

/// The exact-arithmetic mirror of `chunks_fold`: the first `k` chunk sums.
pub open spec fn ichunks_fold(s: Seq<int>, c: int, k: int) -> int
    decreases k,
{
    if k <= 0 {
        0
    } else {
        ichunks_fold(s, c, k - 1) + ichunk_sum(s, c, k - 1)
    }
}

/// The exact-arithmetic mirror of the boundary pass: the cross-chunk panels
/// with index below `k`.
pub open spec fn ibounds_sum(s: Seq<int>, c: int, k: int) -> int
    decreases k,
{
    if k <= 1 {
        0
    } else {
        ibounds_sum(s, c, k - 1) + s[(k - 1) * c - 1]
    }
}

/// The exact-arithmetic mirror of `integrate_spec` on the panel values:
/// every chunk's local sum plus every boundary panel.
pub open spec fn int_chunked_total(s: Seq<int>, c: int) -> int {
    ichunks_fold(s, c, n_chunks(s.len() as int + 1, c)) + ibounds_sum(s, c, n_chunks(s.len() as int + 1, c))
}

/// A range sum splits at any midpoint.
proof fn lemma_isum_split(s: Seq<int>, lo: int, mid: int, hi: int)
    requires
        lo <= mid <= hi,
    ensures
        isum_range(s, lo, hi) == isum_range(s, lo, mid) + isum_range(s, mid, hi),
    decreases hi - mid,
{
    if mid < hi {
        lemma_isum_split(s, lo, mid, hi - 1);
    }
}

/// After `k` chunks and their `k - 1` left boundary panels, the scheme has
/// summed exactly the panels below the `k`-th chunk border.
proof fn lemma_chunk_prefix(s: Seq<int>, c: int, k: int)
    requires
        1 <= c,
        1 <= k <= n_chunks(s.len() as int + 1, c),
    ensures
        ichunks_fold(s, c, k) + ibounds_sum(s, c, k) == isum_range(
            s,
            0,
            if k * c - 1 <= s.len() {
                k * c - 1
            } else {
                s.len() as int
            },
        ),
    decreases k,
{
    let m = s.len() as int;
    let nc = n_chunks(m + 1, c);
    if k == 1 {
        assert(ichunks_fold(s, c, 0) == 0);
        assert(ibounds_sum(s, c, 1) == 0);
        assert(ichunks_fold(s, c, 1) == ichunk_sum(s, c, 0));
    } else {
        lemma_chunk_prefix(s, c, k - 1);
        lemma_chunk_bound(m + 1, c);
        assert((k - 1) * c <= (nc - 1) * c && (k - 1) * c == k * c - c && 1 <= (k - 1) * c)
            by (nonlinear_arith)
            requires
                1 <= k - 1 <= nc - 1,
                1 <= c,
        ;
        let a = (k - 1) * c - 1;
        let e = if k * c - 1 <= m {
            k * c - 1
        } else {
            m
        };
        assert(a <= m - 1);
        assert(a + 1 <= e);
        lemma_isum_split(s, 0, a, e);
        lemma_isum_split(s, a, a + 1, e);
        assert(isum_range(s, a, a) == 0);
        assert(isum_range(s, a, a + 1) == isum_range(s, a, a) + s[a]);
        assert(ichunk_sum(s, c, k - 1) == isum_range(s, a + 1, e));
        assert(ichunks_fold(s, c, k) == ichunks_fold(s, c, k - 1) + ichunk_sum(s, c, k - 1));
        assert(ibounds_sum(s, c, k) == ibounds_sum(s, c, k - 1) + s[a]);
        assert(ichunks_fold(s, c, k - 1) + ibounds_sum(s, c, k - 1) == isum_range(s, 0, a));
    }
}

/// Chunk-size insensitivity in exact arithmetic: summing each chunk locally
/// and then adding the cross-chunk boundary panels yields the plain sum of
/// all the panels, whatever the chunk size.
pub proof fn lemma_chunked_total_is_flat(s: Seq<int>, c: int)
    requires
        1 <= c,
    ensures
        int_chunked_total(s, c) == isum_range(s, 0, s.len() as int),
{
    let m = s.len() as int;
    let nc = n_chunks(m + 1, c);
    lemma_chunk_bound(m + 1, c);
    lemma_chunk_prefix(s, c, nc);
    assert(nc * c - 1 >= m);
}

/// The chunked total is the same for any two chunk sizes: both equal the
/// plain sum of the panels.
pub proof fn lemma_chunk_size_invariant(s: Seq<int>, c1: int, c2: int)
    requires
        1 <= c1,
        1 <= c2,
    ensures
        int_chunked_total(s, c1) == int_chunked_total(s, c2),
{
    lemma_chunked_total_is_flat(s, c1);
    lemma_chunked_total_is_flat(s, c2);
}

/// With `nc` chunks of size `c` covering `n` points, the last chunk starts
/// at or before point `n - 1`, and the chunks together reach point `n`.
proof fn lemma_chunk_bound(n: int, c: int)
    requires
        1 <= c,
        1 <= n,
    ensures
        (n_chunks(n, c) - 1) * c <= n - 1,
        n_chunks(n, c) * c >= n,
        n_chunks(n, c) >= 1,
{
    let q = (n + c - 1) / c;
    vstd::arithmetic::div_mod::lemma_fundamental_div_mod(n + c - 1, c);
    vstd::arithmetic::div_mod::lemma_mod_bound(n + c - 1, c);
    assert(q * c == n + c - 1 - (n + c - 1) % c);
    assert((q - 1) * c == q * c - c) by (nonlinear_arith);
    assert(q >= 1) by (nonlinear_arith)
        requires
            q * c >= n,
            n >= 1,
            c >= 1,
    ;
}

} // verus!
