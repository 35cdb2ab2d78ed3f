//! Exact per-coordinate evaluation of bezier curves at the rational
//! parameters `i / n`, and the straightness-driven choice of `n`.
//!
//! A curve is flattened by sampling it at `n` evenly spaced parameters. The
//! sample count grows with the curve's second differences (how far the
//! control points bend it away from the chord) and shrinks as the tolerance
//! grows, so a large tolerance degenerates the curve toward the single
//! segment from start to end.

use vstd::prelude::*;
use vstd::arithmetic::div_mod::*;
use vstd::arithmetic::mul::*;

use crate::MAX_COORD;
use crate::arith::abs_val;
use crate::arith::isqrt64;
use crate::arith::lemma_square_le;
use crate::arith::sqrt_nat;
use crate::in_range;

verus! {

/// Coordinate of a quadratic bezier with weights `p0`, `c`, `p1` at
/// parameter `i / n`, rounded down.
pub open spec fn quad_at(p0: int, c: int, p1: int, i: int, n: int) -> int {
    ((n - i) * (n - i) * p0 + 2 * i * (n - i) * c + i * i * p1) / (n * n)
}

/// Coordinate of a cubic bezier with weights `p0`, `c1`, `c2`, `p1` at
/// parameter `i / n`, rounded down.
pub open spec fn cubic_at(p0: int, c1: int, c2: int, p1: int, i: int, n: int) -> int {
    ((n - i) * (n - i) * (n - i) * p0 + 3 * i * (n - i) * (n - i) * c1 + 3 * i * i * (n - i) * c2
        + i * i * i * p1) / (n * n * n)
}

/// Number of line segments used for a curve whose largest second difference
/// has magnitude `m`, at tolerance `tol`: the deviation of a uniform
/// subdivision shrinks quadratically in the segment count, so the count is
/// the square root of the deviation-to-tolerance ratio.
pub open spec fn seg_count(m: int, tol: int) -> int {
    sqrt_nat((m / 4 / tol) as nat) as int + 1
}

/// Executable form of `seg_count`.
pub fn seg_count_exec(m: u64, tol: i64) -> (n: u64)
    requires
        1 <= tol,
        m <= 12_000_000_000,
    ensures
        n as int == seg_count(m as int, tol as int),
        1 <= n <= 100_000,
{
    let q = m / 4 / (tol as u64);
    let r = isqrt64(q);
    proof {
        lemma_div_nonincreasing((m as int) / 4, tol as int);
        lemma_square_le(r as nat, 60_000);
    }
    r + 1
}

/// Magnitude of the second difference of three consecutive weights: how far
/// the middle one bends away from the straight line through the outer two.
pub fn second_diff(a: i64, b: i64, c: i64) -> (r: u64)
    requires
        in_range(a as int),
        in_range(b as int),
        in_range(c as int),
    ensures
        r as int == abs_val(a as int - 2 * (b as int) + c as int),
        r <= 4_000_000_000,
{
    let v = a - 2 * b + c;
    if v >= 0 {
        v as u64
    } else {
        (-v) as u64
    }
}

/// The quadratic evaluation is a convex combination of its weights, so it
/// stays within the band the weights come from.
pub proof fn lemma_quad_at_bounds(p0: int, c: int, p1: int, i: int, n: int)
    requires
        in_range(p0),
        in_range(c),
        in_range(p1),
        0 <= i <= n,
        1 <= n,
    ensures
        in_range(quad_at(p0, c, p1, i, n)),
{
    let mm = MAX_COORD as int;
    assert(1 <= n * n) by (nonlinear_arith)
        requires
            1 <= n;
    assert(n * n * (-mm) <= (n - i) * (n - i) * p0 + 2 * i * (n - i) * c + i * i * p1 && (n - i) * (
    n - i) * p0 + 2 * i * (n - i) * c + i * i * p1 <= n * n * mm) by (nonlinear_arith)
        requires
            0 <= i <= n,
            -mm <= p0 <= mm,
            -mm <= c <= mm,
            -mm <= p1 <= mm,
            0 < mm;
    let orig = (n - i) * (n - i) * p0 + 2 * i * (n - i) * c + i * i * p1;
    lemma_div_multiples_vanish(-mm, n * n);
    lemma_div_multiples_vanish(mm, n * n);
    lemma_div_is_ordered(n * n * (-mm), orig, n * n);
    lemma_div_is_ordered(orig, n * n * mm, n * n);
}

/// Ordered weights make the quadratic evaluation monotone in the parameter:
/// a curve whose control points do not back-track in a coordinate never
/// backs up in that coordinate between consecutive samples.
pub proof fn lemma_quad_at_monotone(p0: int, c: int, p1: int, i: int, n: int)
    requires
        p0 <= c <= p1,
        0 <= i,
        i + 1 <= n,
    ensures
        quad_at(p0, c, p1, i, n) <= quad_at(p0, c, p1, i + 1, n),
{
    let a = n - i;
    let b = n - (i + 1);
    let j = i + 1;
    assert(a * a * p0 + 2 * i * a * c + i * i * p1 <= b * b * p0 + 2 * j * b * c + j * j * p1) by (
    nonlinear_arith)
        requires
            b == a - 1,
            j == i + 1,
            1 <= a,
            0 <= i,
            p0 <= c <= p1;
    assert(1 <= n * n) by (nonlinear_arith)
        requires
            1 <= n;
    lemma_div_is_ordered(
        (n - i) * (n - i) * p0 + 2 * i * (n - i) * c + i * i * p1,
        (n - (i + 1)) * (n - (i + 1)) * p0 + 2 * (i + 1) * (n - (i + 1)) * c + (i + 1) * (i + 1)
            * p1,
        n * n,
    );
}

/// Executable form of `quad_at`. The computation shifts every coordinate up
/// by `MAX_COORD` so that it runs in unsigned arithmetic, and shifts the
/// quotient back down.
pub fn quad_coord(p0: i64, c: i64, p1: i64, i: u64, n: u64) -> (r: i64)
    requires
        in_range(p0 as int),
        in_range(c as int),
        in_range(p1 as int),
        1 <= n <= 100_000,
        i <= n,
    ensures
        r as int == quad_at(p0 as int, c as int, p1 as int, i as int, n as int),
        in_range(r as int),
{
    let ni = n - i;
    let s0 = (p0 + MAX_COORD) as u128;
    let sc = (c + MAX_COORD) as u128;
    let s1 = (p1 + MAX_COORD) as u128;
    let i1 = i as u128;
    let ni1 = ni as u128;
    let n1 = n as u128;
    proof {
        let nii = ni as int;
        let ii = i as int;
        let nn = n as int;
        let mm = MAX_COORD as int;
        assert(0 <= nii * nii <= 10_000_000_000 && 0 <= ii * ii <= 10_000_000_000 && 0 <= 2 * ii
            * nii <= 20_000_000_000 && 1 <= nn * nn <= 10_000_000_000) by (nonlinear_arith)
            requires
                0 <= nii <= 100_000,
                0 <= ii <= 100_000,
                1 <= nn <= 100_000;
        assert(nii * nii * (p0 as int + mm) <= 20_000_000_000_000_000_000 && 2 * ii * nii * (
        c as int + mm) <= 40_000_000_000_000_000_000 && ii * ii * (p1 as int + mm)
            <= 20_000_000_000_000_000_000) by (nonlinear_arith)
            requires
                0 <= nii * nii <= 10_000_000_000,
                0 <= ii * ii <= 10_000_000_000,
                0 <= 2 * ii * nii <= 20_000_000_000,
                0 <= p0 as int + mm <= 2_000_000_000,
                0 <= c as int + mm <= 2_000_000_000,
                0 <= p1 as int + mm <= 2_000_000_000;
    }
    let num = ni1 * ni1 * s0 + 2 * i1 * ni1 * sc + i1 * i1 * s1;
    let den = n1 * n1;
    let q = num / den;
    proof {
        let nii = ni as int;
        let ii = i as int;
        let nn = n as int;
        let mm = MAX_COORD as int;
        assert(nii * nii * (p0 as int + mm) + 2 * ii * nii * (c as int + mm) + ii * ii * (
        p1 as int + mm) == nii * nii * (p0 as int) + 2 * ii * nii * (c as int) + ii * ii * (
        p1 as int) + (nn * nn) * mm) by (nonlinear_arith)
            requires
                nii == nn - ii;
        assert(nn * nn * (-mm) <= nii * nii * (p0 as int) + 2 * ii * nii * (c as int) + ii * ii * (
        p1 as int) && nii * nii * (p0 as int) + 2 * ii * nii * (c as int) + ii * ii * (p1 as int)
            <= nn * nn * mm) by (nonlinear_arith)
            requires
                nii == nn - ii,
                0 <= ii <= nn,
                -mm <= p0 as int <= mm,
                -mm <= c as int <= mm,
                -mm <= p1 as int <= mm,
                0 < mm;
        let orig = nii * nii * (p0 as int) + 2 * ii * nii * (c as int) + ii * ii * (p1 as int);
        lemma_hoist_over_denominator(orig, mm, (nn * nn) as nat);
        lemma_div_multiples_vanish(-mm, nn * nn);
        lemma_div_multiples_vanish(mm, nn * nn);
        lemma_div_is_ordered(nn * nn * (-mm), orig, nn * nn);
        lemma_div_is_ordered(orig, nn * nn * mm, nn * nn);
    }
    (q as i64) - MAX_COORD
}

/// A non-negative weight keeps a bounded factor's product within the scaled
/// band.
proof fn lemma_mul_range(w: int, c: int, b: int) by (nonlinear_arith)
    requires
        0 <= w,
        -b <= c <= b,
    ensures
        w * (-b) <= w * c <= w * b,
{
}

/// Executable form of `cubic_at`, computed the same way as `quad_coord`.
pub fn cubic_coord(p0: i64, c1: i64, c2: i64, p1: i64, i: u64, n: u64) -> (r: i64)
    requires
        in_range(p0 as int),
        in_range(c1 as int),
        in_range(c2 as int),
        in_range(p1 as int),
        1 <= n <= 100_000,
        i <= n,
    ensures
        r as int == cubic_at(p0 as int, c1 as int, c2 as int, p1 as int, i as int, n as int),
        in_range(r as int),
{
    let ni = n - i;
    let s0 = (p0 + MAX_COORD) as u128;
    let sa = (c1 + MAX_COORD) as u128;
    let sb = (c2 + MAX_COORD) as u128;
    let s1 = (p1 + MAX_COORD) as u128;
    let i1 = i as u128;
    let ni1 = ni as u128;
    let n1 = n as u128;
    proof {
        let nii = ni as int;
        let ii = i as int;
        let nn = n as int;
        let mm = MAX_COORD as int;
        assert(0 <= nii * nii <= 10_000_000_000 && 0 <= nii * nii * nii
            <= 1_000_000_000_000_000 && 0 <= ii * ii <= 10_000_000_000 && 0 <= ii * ii * ii
            <= 1_000_000_000_000_000 && 0 <= 3 * ii <= 300_000 && 0 <= 3 * ii * nii
            <= 30_000_000_000 && 0 <= 3 * ii * nii * nii <= 3_000_000_000_000_000 && 0 <= 3 * ii
            * ii <= 30_000_000_000 && 0 <= 3 * ii * ii * nii <= 3_000_000_000_000_000 && 1 <= nn
            * nn <= 10_000_000_000 && 1 <= nn * nn * nn <= 1_000_000_000_000_000) by (
        nonlinear_arith)
            requires
                0 <= nii <= 100_000,
                0 <= ii <= 100_000,
                1 <= nn <= 100_000;
        assert(nii * nii * nii * (p0 as int + mm) <= 2_000_000_000_000_000_000_000_000 && 3 * ii
            * nii * nii * (c1 as int + mm) <= 6_000_000_000_000_000_000_000_000 && 3 * ii * ii
            * nii * (c2 as int + mm) <= 6_000_000_000_000_000_000_000_000 && ii * ii * ii * (
        p1 as int + mm) <= 2_000_000_000_000_000_000_000_000) by (nonlinear_arith)
            requires
                0 <= nii * nii * nii <= 1_000_000_000_000_000,
                0 <= ii * ii * ii <= 1_000_000_000_000_000,
                0 <= 3 * ii * nii * nii <= 3_000_000_000_000_000,
                0 <= 3 * ii * ii * nii <= 3_000_000_000_000_000,
                0 <= p0 as int + mm <= 2_000_000_000,
                0 <= c1 as int + mm <= 2_000_000_000,
                0 <= c2 as int + mm <= 2_000_000_000,
                0 <= p1 as int + mm <= 2_000_000_000;
    }
    let num = ni1 * ni1 * ni1 * s0 + 3 * i1 * ni1 * ni1 * sa + 3 * i1 * i1 * ni1 * sb + i1 * i1
        * i1 * s1;
    let den = n1 * n1 * n1;
    let q = num / den;
    proof {
        let nii = ni as int;
        let ii = i as int;
        let nn = n as int;
        let mm = MAX_COORD as int;
        assert(nii * nii * nii * (p0 as int + mm) + 3 * ii * nii * nii * (c1 as int + mm) + 3 * ii
            * ii * nii * (c2 as int + mm) + ii * ii * ii * (p1 as int + mm) == nii * nii * nii * (
        p0 as int) + 3 * ii * nii * nii * (c1 as int) + 3 * ii * ii * nii * (c2 as int) + ii * ii
            * ii * (p1 as int) + (nn * nn * nn) * mm) by (nonlinear_arith)
            requires
                nii == nn - ii;
        assert(nii * nii * nii + 3 * ii * nii * nii + 3 * ii * ii * nii + ii * ii * ii == nn * nn
            * nn) by (nonlinear_arith)
            requires
                nii == nn - ii;
        lemma_mul_range(nii * nii * nii, p0 as int, mm);
        lemma_mul_range(3 * ii * nii * nii, c1 as int, mm);
        lemma_mul_range(3 * ii * ii * nii, c2 as int, mm);
        lemma_mul_range(ii * ii * ii, p1 as int, mm);
        let orig = nii * nii * nii * (p0 as int) + 3 * ii * nii * nii * (c1 as int) + 3 * ii * ii
            * nii * (c2 as int) + ii * ii * ii * (p1 as int);
        assert(nn * nn * nn * (-mm) <= orig && orig <= nn * nn * nn * mm);
        lemma_hoist_over_denominator(orig, mm, (nn * nn * nn) as nat);
        lemma_div_multiples_vanish(-mm, nn * nn * nn);
        lemma_div_multiples_vanish(mm, nn * nn * nn);
        lemma_div_is_ordered(nn * nn * nn * (-mm), orig, nn * nn * nn);
        lemma_div_is_ordered(orig, nn * nn * nn * mm, nn * nn * nn);
    }
    (q as i64) - MAX_COORD
}



} // verus!
