//! Scalar arithmetic the geometry is built on: integer square roots and the
//! clamped per-coordinate step of the follower.

use vstd::prelude::*;
use vstd::arithmetic::div_mod::*;
use vstd::arithmetic::mul::*;

use crate::in_range;

verus! {

/// Magnitude of an integer.
pub open spec fn abs_val(a: int) -> int {
    if a >= 0 {
        a
    } else {
        -a
    }
}

/// The larger of two integers.
pub open spec fn max_val(a: int, b: int) -> int {
    if a >= b {
        a
    } else {
        b
    }
}

/// `r` is the integer square root of `n`: the largest integer whose square
/// does not exceed `n`.
pub open spec fn is_sqrt(n: nat, r: nat) -> bool {
    r * r <= n < (r + 1) * (r + 1)
}

/// The integer square root of `n`.
pub closed spec fn sqrt_nat(n: nat) -> nat {
    choose|r: nat| is_sqrt(n, r)
}

proof fn sqrt_witness(n: nat) -> (r: nat)
    ensures
        is_sqrt(n, r),
    decreases n,
{
    if n == 0 {
        assert(is_sqrt(0, 0)) by (nonlinear_arith);
        0
    } else {
        let r0 = sqrt_witness((n - 1) as nat);
        if (r0 + 1) * (r0 + 1) <= n {
            assert(is_sqrt(n, r0 + 1)) by (nonlinear_arith)
                requires
                    r0 * r0 <= n - 1 < (r0 + 1) * (r0 + 1),
                    (r0 + 1) * (r0 + 1) <= n;
            r0 + 1
        } else {
            r0
        }
    }
}

/// The integer square root is a square root.
pub proof fn lemma_sqrt_nat(n: nat)
    ensures
        is_sqrt(n, sqrt_nat(n)),
{
    let r = sqrt_witness(n);
    assert(exists|q: nat| is_sqrt(n, q));
}

/// At most one integer satisfies `is_sqrt` for a given `n`.
pub proof fn lemma_sqrt_unique(n: nat, a: nat, b: nat)
    requires
        is_sqrt(n, a),
        is_sqrt(n, b),
    ensures
        a == b,
{
    if a < b {
        lemma_mul_inequality(a as int + 1, b as int, b as int);
        lemma_mul_left_inequality(a as int + 1, a as int + 1, b as int);
        assert((a + 1) * (a + 1) <= b * b);
    }
    if b < a {
        lemma_mul_inequality(b as int + 1, a as int, a as int);
        lemma_mul_left_inequality(b as int + 1, b as int + 1, a as int);
        assert((b + 1) * (b + 1) <= a * a);
    }
}

/// Squaring is monotonic, so comparing squares decides a comparison with a
/// square root.
pub proof fn lemma_square_le(a: nat, b: nat)
    requires
        a * a <= b * b,
    ensures
        a <= b,
{
    if b < a {
        lemma_mul_inequality(b as int + 1, a as int, a as int);
        lemma_mul_left_inequality(b as int + 1, b as int + 1, a as int);
        assert((b + 1) * (b + 1) <= a * a);
        lemma_mul_inequality(b as int, b as int + 1, b as int + 1);
        assert(b * b < (b + 1) * (b + 1)) by (nonlinear_arith);
    }
}

/// Integer square root of a `u64`, by bisection.
pub fn isqrt64(n: u64) -> (r: u64)
    ensures
        is_sqrt(n as nat, r as nat),
        r as nat == sqrt_nat(n as nat),
{
    let mut lo: u64 = 0;
    let mut hi: u64 = 4_294_967_296;
    assert((n as nat) < (4_294_967_296 as nat) * (4_294_967_296 as nat)) by (nonlinear_arith)
        requires
            n <= u64::MAX;
    while lo + 1 < hi
        invariant
            lo < hi <= 4_294_967_296,
            (lo as nat) * (lo as nat) <= n as nat,
            (n as nat) < (hi as nat) * (hi as nat),
        decreases hi - lo,
    {
        let mid = lo + (hi - lo) / 2;
        proof {
            lemma_mul_upper_bound(mid as int, 4_294_967_296, mid as int, 4_294_967_296);
        }
        if (mid as u128) * (mid as u128) <= n as u128 {
            lo = mid;
        } else {
            hi = mid;
        }
    }
    proof {
        assert(hi == lo + 1);
        assert(is_sqrt(n as nat, lo as nat));
        lemma_sqrt_nat(n as nat);
        lemma_sqrt_unique(n as nat, lo as nat, sqrt_nat(n as nat));
    }
    lo
}

/// One coordinate of a straight move from `p` toward `t` by `step` out of the
/// full distance `d`: the coordinate gap is scaled by `step / d`, rounding
/// toward `p`.
pub open spec fn step_coord(p: int, t: int, step: int, d: int) -> int {
    if t >= p {
        p + (t - p) * step / d
    } else {
        p - (p - t) * step / d
    }
}

/// A non-negative gap scaled by `step / d` with `step <= d` stays between
/// zero and the gap.
pub proof fn lemma_scaled_gap_le(g: int, step: int, d: int)
    requires
        0 <= g,
        0 < d,
        0 <= step <= d,
    ensures
        0 <= g * step / d <= g,
{
    lemma_mul_inequality(step, d, g);
    lemma_mul_is_commutative(step, g);
    lemma_mul_is_commutative(d, g);
    lemma_div_is_ordered(g * step, g * d, d);
    lemma_div_by_multiple(g, d);
    lemma_mul_nonnegative(g, step);
    lemma_div_pos_is_pos(g * step, d);
}

/// The scaled gap never exceeds the gap itself, so the step stays between the
/// two coordinates.
pub proof fn lemma_step_coord_bounds(p: int, t: int, step: int, d: int)
    requires
        0 < d,
        0 <= step <= d,
    ensures
        p <= t ==> p <= step_coord(p, t, step, d) <= t,
        t <= p ==> t <= step_coord(p, t, step, d) <= p,
{
    if t >= p {
        lemma_scaled_gap_le(t - p, step, d);
    } else {
        lemma_scaled_gap_le(p - t, step, d);
    }
}

/// Executable form of `step_coord`.
pub fn step_coord_exec(p: i64, t: i64, step: i64, d: u64) -> (r: i64)
    requires
        in_range(p as int),
        in_range(t as int),
        0 < d,
        0 <= step,
        step as int <= d as int,
    ensures
        r as int == step_coord(p as int, t as int, step as int, d as int),
        in_range(r as int),
{
    proof {
        lemma_step_coord_bounds(p as int, t as int, step as int, d as int);
    }
    if t >= p {
        let diff = (t - p) as u64;
        proof {
            lemma_scaled_gap_le(diff as int, step as int, d as int);
            lemma_mul_upper_bound(diff as int, 2_000_000_000, step as int, 0xFFFF_FFFF_FFFF_FFFF);
        }
        let q = ((diff as u128) * (step as u128) / (d as u128)) as u64;
        p + q as i64
    } else {
        let diff = (p - t) as u64;
        proof {
            lemma_scaled_gap_le(diff as int, step as int, d as int);
            lemma_mul_upper_bound(diff as int, 2_000_000_000, step as int, 0xFFFF_FFFF_FFFF_FFFF);
        }
        let q = ((diff as u128) * (step as u128) / (d as u128)) as u64;
        p - q as i64
    }
}

} // verus!
