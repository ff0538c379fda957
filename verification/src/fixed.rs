//! Fixed-point scalar arithmetic.
//!
//! Every length, speed, force and duration in the simulation is an `i64`
//! count of thousandths of its base unit (world units for space, seconds
//! for time).  Working over integers keeps a tick a pure function of its
//! inputs, which the rest of the library relies on.

use vstd::prelude::*;

verus! {

use vstd::arithmetic::div_mod::{lemma_div_is_ordered, lemma_div_pos_is_pos, lemma_div_nonincreasing, lemma_div_of0};
use vstd::math::abs;

/// Fixed-point subdivisions per base unit.
pub const FX_ONE: i64 = 1000;

/// Every coordinate handled by the vector routines stays within this
/// magnitude, so that squares and products of coordinates fit in `i64`.
pub const FX_LIMIT: i64 = 2_000_000_000;

/// Truncating division (rounds toward zero), the rounding used by the
/// simulation.  Matches what the machine division below computes.
pub open spec fn div_t(a: int, b: int) -> int {
    if a >= 0 {
        a / b
    } else {
        -((-a) / b)
    }
}

/// Product of two fixed-point scalars, scaled back down.
pub open spec fn fx_mul_s(a: int, b: int) -> int {
    div_t(a * b, FX_ONE as int)
}

/// Clamping to a symmetric interval.
pub open spec fn clamp_s(x: int, limit: int) -> int {
    if x < -limit {
        -limit
    } else if x > limit {
        limit
    } else {
        x
    }
}

/// `min` over mathematical integers.
pub open spec fn min_s(a: int, b: int) -> int {
    if a <= b {
        a
    } else {
        b
    }
}

/// The magnitude of a truncating quotient never exceeds the magnitude
/// bound of the dividend divided by the divisor.
pub proof fn lemma_div_t_bound(a: int, b: int, m: int)
    requires
        b > 0,
        0 <= m,
        -m <= a <= m,
    ensures
        -(m / b) <= div_t(a, b) <= m / b,
        -m <= div_t(a, b) <= m,
{
    if a >= 0 {
        lemma_div_pos_is_pos(a, b);
        lemma_div_is_ordered(a, m, b);
        lemma_div_nonincreasing(m, b);
        lemma_div_pos_is_pos(m, b);
    } else {
        lemma_div_pos_is_pos(-a, b);
        lemma_div_is_ordered(-a, m, b);
        lemma_div_nonincreasing(m, b);
        lemma_div_pos_is_pos(m, b);
    }
}

/// Truncating division of a fixed-point scalar by a positive divisor.
pub fn div_trunc(a: i64, b: i64) -> (r: i64)
    requires
        b > 0,
    ensures
        r == div_t(a as int, b as int),
        -abs(a as int) <= r as int <= abs(a as int),
        a >= 0 ==> r >= 0,
{
    proof {
        lemma_div_t_bound(a as int, b as int, abs(a as int) as int);
        lemma_div_of0(b as int);
    }
    match a.checked_div(b) {
        Some(q) => q,
        None => {
            proof {
                assert(false);
            }
            0
        },
    }
}

/// Fixed-point multiplication, truncating toward zero.
pub fn fx_mul(a: i64, b: i64) -> (r: i64)
    requires
        -FX_LIMIT <= a <= FX_LIMIT,
        -FX_LIMIT <= b <= FX_LIMIT,
    ensures
        r == fx_mul_s(a as int, b as int),
{
    proof {
        assert(-4_000_000_000_000_000_000 <= (a as int) * (b as int)
            <= 4_000_000_000_000_000_000) by (nonlinear_arith)
            requires
                -2_000_000_000 <= a as int <= 2_000_000_000,
                -2_000_000_000 <= b as int <= 2_000_000_000,
        ;
    }
    let p: i64 = match a.checked_mul(b) {
        Some(p) => p,
        None => {
            proof {
                assert(false);
            }
            0
        },
    };
    div_trunc(p, FX_ONE)
}

/// Scaling by a factor of at most one (in fixed-point terms) never
/// grows a scalar's magnitude.
pub proof fn lemma_fx_mul_dt_bound(a: int, b: int, m: int)
    requires
        0 <= b <= FX_ONE as int,
        0 <= m,
        -m <= a <= m,
    ensures
        -m <= fx_mul_s(a, b) <= m,
{
    assert(-(m * FX_ONE as int) <= a * b <= m * FX_ONE as int) by (nonlinear_arith)
        requires
            0 <= b <= FX_ONE as int,
            -m <= a <= m,
            0 <= m,
    ;
    lemma_div_t_bound(a * b, FX_ONE as int, m * (FX_ONE as int));
    vstd::arithmetic::div_mod::lemma_div_multiples_vanish(m, FX_ONE as int);
}

/// Clamp a scalar into `[-limit, limit]`.
pub fn clamp(x: i64, limit: i64) -> (r: i64)
    requires
        limit >= 0,
    ensures
        r == clamp_s(x as int, limit as int),
{
    if x < -limit {
        -limit
    } else if x > limit {
        limit
    } else {
        x
    }
}

/// Integer square root, rounded down.
pub open spec fn sqrt_floor(n: nat) -> nat
    decreases n,
{
    if n == 0 {
        0
    } else {
        let r = sqrt_floor((n - 1) as nat);
        if (r + 1) * (r + 1) <= n {
            r + 1
        } else {
            r
        }
    }
}

/// `sqrt_floor` is the rounded-down square root.
pub proof fn lemma_sqrt_floor(n: nat)
    ensures
        sqrt_floor(n) * sqrt_floor(n) <= n,
        n < (sqrt_floor(n) + 1) * (sqrt_floor(n) + 1),
    decreases n,
{
    let s = sqrt_floor(n);
    if n == 0 {
        assert((s + 1) * (s + 1) > n) by (nonlinear_arith)
            requires
                s == 0,
                n == 0,
        ;
    } else {
        lemma_sqrt_floor((n - 1) as nat);
        let r = sqrt_floor((n - 1) as nat);
        if (r + 1) * (r + 1) <= n {
            assert(s == r + 1);
            assert((r + 2) * (r + 2) > (r + 1) * (r + 1)) by (nonlinear_arith)
                requires
                    r >= 0,
            ;
            assert((s + 1) * (s + 1) == (r + 2) * (r + 2));
        } else {
            assert(s == r);
        }
    }
}

/// Any `r` bracketing `n` between consecutive squares is the rounded-down
/// square root.
pub proof fn lemma_sqrt_unique(n: nat, r: nat)
    requires
        r * r <= n,
        n < (r + 1) * (r + 1),
    ensures
        r == sqrt_floor(n),
{
    lemma_sqrt_floor(n);
    let s = sqrt_floor(n);
    if r < s {
        vstd::arithmetic::mul::lemma_mul_upper_bound(r + 1 as int, s as int, r + 1 as int, s as int);
        assert((r + 1) * (r + 1) <= s * s);
    }
    if s < r {
        vstd::arithmetic::mul::lemma_mul_upper_bound(s + 1 as int, r as int, s + 1 as int, r as int);
        assert((s + 1) * (s + 1) <= r * r);
    }
}

/// The rounded-down square root is monotonic.
pub proof fn lemma_sqrt_monotone(a: nat, b: nat)
    requires
        a <= b,
    ensures
        sqrt_floor(a) <= sqrt_floor(b),
{
    lemma_sqrt_floor(a);
    lemma_sqrt_floor(b);
    let ra = sqrt_floor(a);
    let rb = sqrt_floor(b);
    if rb < ra {
        vstd::arithmetic::mul::lemma_mul_upper_bound(rb + 1 as int, ra as int, rb + 1 as int, ra as int);
        assert((rb + 1) * (rb + 1) <= ra * ra);
    }
}

/// Integer square root by bisection.
pub fn isqrt(n: u64) -> (r: u64)
    ensures
        r == sqrt_floor(n as nat),
        r < 0x1_0000_0000,
{
    let mut lo: u64 = 0;
    let mut hi: u64 = 0x1_0000_0000;
    while hi - lo > 1
        invariant
            lo < hi <= 0x1_0000_0000,
            (lo as int) * (lo as int) <= n as int,
            (n as int) < (hi as int) * (hi as int),
        decreases hi - lo,
    {
        let mid: u64 = lo + (hi - lo) / 2;
        assert(mid < 0x1_0000_0000);
        assert((mid as int) * (mid as int) < 0x1_0000_0000 * 0x1_0000_0000) by (nonlinear_arith)
            requires
                0 <= mid < 0x1_0000_0000,
        ;
        if mid * mid <= n {
            lo = mid;
        } else {
            hi = mid;
        }
    }
    proof {
        lemma_sqrt_unique(n as nat, lo as nat);
    }
    lo
}

} // verus!
