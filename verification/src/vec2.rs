//! Two-dimensional fixed-point vectors.
//!
//! `Vec2` is the executable type; its view `Vec2s` carries the same
//! coordinates as unbounded integers, and every contract in the crate is
//! stated over `Vec2s`.

use vstd::prelude::*;

verus! {

use crate::fixed::{FX_ONE, FX_LIMIT, div_t, fx_mul_s, clamp_s, sqrt_floor, div_trunc, fx_mul, clamp, isqrt, lemma_sqrt_unique, lemma_sqrt_monotone, lemma_div_t_bound};
use vstd::math::abs;

/// A position, velocity or force: fixed-point coordinates.
#[derive(Clone, Copy, Debug, PartialEq, Eq, Structural)]
pub struct Vec2 {
    pub x: i64,
    pub y: i64,
}

/// Mathematical model of a `Vec2`.
pub struct Vec2s {
    pub x: int,
    pub y: int,
}

impl View for Vec2 {
    type V = Vec2s;

    open spec fn view(&self) -> Vec2s {
        Vec2s { x: self.x as int, y: self.y as int }
    }
}

/// Both coordinates within `[-m, m]`.
pub open spec fn bounded(v: Vec2s, m: int) -> bool {
    -m <= v.x <= m && -m <= v.y <= m
}

pub open spec fn vadd(a: Vec2s, b: Vec2s) -> Vec2s {
    Vec2s { x: a.x + b.x, y: a.y + b.y }
}

pub open spec fn vsub(a: Vec2s, b: Vec2s) -> Vec2s {
    Vec2s { x: a.x - b.x, y: a.y - b.y }
}

/// Scaling by a plain integer factor.
pub open spec fn vscale(a: Vec2s, k: int) -> Vec2s {
    Vec2s { x: a.x * k, y: a.y * k }
}

/// Scaling by a fixed-point factor.
pub open spec fn vfx(a: Vec2s, k: int) -> Vec2s {
    Vec2s { x: fx_mul_s(a.x, k), y: fx_mul_s(a.y, k) }
}

pub open spec fn vclamp(a: Vec2s, limit: int) -> Vec2s {
    Vec2s { x: clamp_s(a.x, limit), y: clamp_s(a.y, limit) }
}

pub open spec fn norm_sq_s(a: Vec2s) -> int {
    a.x * a.x + a.y * a.y
}

pub open spec fn dist_sq_s(a: Vec2s, b: Vec2s) -> int {
    norm_sq_s(vsub(a, b))
}

/// Fixed-point magnitude, rounded down.
pub open spec fn mag_s(a: Vec2s) -> int {
    sqrt_floor(norm_sq_s(a) as nat) as int
}

/// The vector scaled so that its magnitude becomes (up to rounding)
/// `target`, keeping its direction.  Meaningful only when `a` is not the
/// zero vector.
pub open spec fn scale_to_s(a: Vec2s, target: int) -> Vec2s {
    let m = mag_s(a);
    Vec2s { x: div_t(a.x * target, m), y: div_t(a.y * target, m) }
}

/// Squares of bounded coordinates stay below `i64` overflow.
pub proof fn lemma_norm_sq_bound(a: Vec2s)
    requires
        bounded(a, FX_LIMIT as int),
    ensures
        0 <= norm_sq_s(a) <= 2 * (FX_LIMIT as int) * (FX_LIMIT as int),
        a.x * a.x <= (FX_LIMIT as int) * (FX_LIMIT as int),
        a.y * a.y <= (FX_LIMIT as int) * (FX_LIMIT as int),
        0 <= a.x * a.x,
        0 <= a.y * a.y,
{
    assert(0 <= a.x * a.x && a.x * a.x <= (FX_LIMIT as int) * (FX_LIMIT as int)) by (nonlinear_arith)
        requires
            -(FX_LIMIT as int) <= a.x <= FX_LIMIT as int,
    ;
    assert(0 <= a.y * a.y && a.y * a.y <= (FX_LIMIT as int) * (FX_LIMIT as int)) by (nonlinear_arith)
        requires
            -(FX_LIMIT as int) <= a.y <= FX_LIMIT as int,
    ;
}

/// A coordinate's magnitude never exceeds the vector's magnitude.
pub proof fn lemma_component_le_mag(a: Vec2s)
    requires
        bounded(a, FX_LIMIT as int),
    ensures
        abs(a.x) <= mag_s(a),
        abs(a.y) <= mag_s(a),
        0 <= mag_s(a),
{
    lemma_norm_sq_bound(a);
    let ax = abs(a.x);
    let ay = abs(a.y);
    assert(ax * ax == a.x * a.x && ax * ax < (ax + 1) * (ax + 1)) by (nonlinear_arith)
        requires
            ax == a.x || ax == -a.x,
            0 <= ax,
    ;
    assert(ay * ay == a.y * a.y && ay * ay < (ay + 1) * (ay + 1)) by (nonlinear_arith)
        requires
            ay == a.y || ay == -a.y,
            0 <= ay,
    ;
    lemma_sqrt_unique((a.x * a.x) as nat, ax);
    lemma_sqrt_unique((a.y * a.y) as nat, ay);
    lemma_sqrt_monotone((a.x * a.x) as nat, norm_sq_s(a) as nat);
    lemma_sqrt_monotone((a.y * a.y) as nat, norm_sq_s(a) as nat);
}

/// After `scale_to_s` both coordinates are bounded by the requested
/// magnitude.
pub proof fn lemma_scale_to_bounds(a: Vec2s, target: int)
    requires
        bounded(a, FX_LIMIT as int),
        norm_sq_s(a) > 0,
        0 <= target,
    ensures
        bounded(scale_to_s(a, target), target),
{
    lemma_component_le_mag(a);
    let m = mag_s(a);
    assert(m > 0) by {
        if m == 0 {
            assert(abs(a.x) == 0 && abs(a.y) == 0);
            assert(a.x == 0 && a.y == 0);
            assert(norm_sq_s(a) == 0) by (nonlinear_arith)
                requires
                    a.x == 0 && a.y == 0,
            ;
        }
    }
    assert(abs(a.x * target) <= m * target) by (nonlinear_arith)
        requires
            abs(a.x) <= m,
            0 <= target,
    ;
    assert(abs(a.y * target) <= m * target) by (nonlinear_arith)
        requires
            abs(a.y) <= m,
            0 <= target,
    ;
    lemma_div_t_bound(a.x * target, m, m * target);
    lemma_div_t_bound(a.y * target, m, m * target);
    assert((m * target) / m == target) by (nonlinear_arith)
        requires
            m > 0,
            0 <= target,
    ;
}

/// A vector whose squared magnitude is at most `c * c` has both
/// coordinates within `[-c, c]`.
pub proof fn lemma_component_bound_from_norm(a: Vec2s, c: int)
    requires
        norm_sq_s(a) <= c * c,
        0 <= c,
    ensures
        bounded(a, c),
{
    assert(-c <= a.x <= c && -c <= a.y <= c) by (nonlinear_arith)
        requires
            a.x * a.x + a.y * a.y <= c * c,
            0 <= c,
    ;
}

impl Vec2 {
    pub fn new(x: i64, y: i64) -> (r: Vec2)
        ensures
            r@ == (Vec2s { x: x as int, y: y as int }),
    {
        Vec2 { x, y }
    }

    pub fn zero() -> (r: Vec2)
        ensures
            r@ == (Vec2s { x: 0, y: 0 }),
    {
        Vec2 { x: 0, y: 0 }
    }

    pub fn plus(self, o: Vec2) -> (r: Vec2)
        requires
            i64::MIN <= self@.x + o@.x <= i64::MAX,
            i64::MIN <= self@.y + o@.y <= i64::MAX,
        ensures
            r@ == vadd(self@, o@),
    {
        Vec2 { x: self.x + o.x, y: self.y + o.y }
    }

    pub fn minus(self, o: Vec2) -> (r: Vec2)
        requires
            i64::MIN <= self@.x - o@.x <= i64::MAX,
            i64::MIN <= self@.y - o@.y <= i64::MAX,
        ensures
            r@ == vsub(self@, o@),
    {
        Vec2 { x: self.x - o.x, y: self.y - o.y }
    }

    /// Scale by a plain integer factor.
    pub fn scaled(self, k: i64) -> (r: Vec2)
        requires
            bounded(self@, FX_LIMIT as int),
            -FX_LIMIT <= k <= FX_LIMIT,
        ensures
            r@ == vscale(self@, k as int),
    {
        proof {
            assert(-4_000_000_000_000_000_000 <= self@.x * k <= 4_000_000_000_000_000_000
                && -4_000_000_000_000_000_000 <= self@.y * k
                <= 4_000_000_000_000_000_000) by (nonlinear_arith)
                requires
                    -2_000_000_000 <= self@.x <= 2_000_000_000,
                    -2_000_000_000 <= self@.y <= 2_000_000_000,
                    -2_000_000_000 <= k as int <= 2_000_000_000,
            ;
        }
        let x: i64 = match self.x.checked_mul(k) {
            Some(p) => p,
            None => {
                proof {
                    assert(false);
                }
                0
            },
        };
        let y: i64 = match self.y.checked_mul(k) {
            Some(p) => p,
            None => {
                proof {
                    assert(false);
                }
                0
            },
        };
        Vec2 { x, y }
    }

    /// Scale by a fixed-point factor.
    pub fn fx_scaled(self, k: i64) -> (r: Vec2)
        requires
            bounded(self@, FX_LIMIT as int),
            -FX_LIMIT <= k <= FX_LIMIT,
        ensures
            r@ == vfx(self@, k as int),
    {
        Vec2 { x: fx_mul(self.x, k), y: fx_mul(self.y, k) }
    }

    /// Clamp both coordinates into `[-limit, limit]`.
    pub fn clamped(self, limit: i64) -> (r: Vec2)
        requires
            limit >= 0,
        ensures
            r@ == vclamp(self@, limit as int),
    {
        Vec2 { x: clamp(self.x, limit), y: clamp(self.y, limit) }
    }

    /// Squared magnitude.
    pub fn norm_sq(self) -> (r: i64)
        requires
            bounded(self@, FX_LIMIT as int),
        ensures
            r == norm_sq_s(self@),
            r >= 0,
    {
        proof {
            lemma_norm_sq_bound(self@);
        }
        self.x * self.x + self.y * self.y
    }

    /// Squared distance to another point.
    pub fn dist_sq(self, o: Vec2) -> (r: i64)
        requires
            bounded(self@, 1_000_000_000),
            bounded(o@, 1_000_000_000),
        ensures
            r == dist_sq_s(self@, o@),
            r >= 0,
    {
        self.minus(o).norm_sq()
    }

    /// Fixed-point magnitude, rounded down.
    pub fn mag(self) -> (r: i64)
        requires
            bounded(self@, FX_LIMIT as int),
        ensures
            r == mag_s(self@),
            0 <= r < 0x1_0000_0000,
    {
        let n = self.norm_sq();
        let root = isqrt(n as u64);
        root as i64
    }

    /// Rescale to the requested magnitude, keeping the direction.
    pub fn scaled_to(self, target: i64) -> (r: Vec2)
        requires
            bounded(self@, FX_LIMIT as int),
            norm_sq_s(self@) > 0,
            0 <= target <= FX_LIMIT,
        ensures
            r@ == scale_to_s(self@, target as int),
            bounded(r@, target as int),
    {
        proof {
            lemma_component_le_mag(self@);
            lemma_scale_to_bounds(self@, target as int);
            assert(-4_000_000_000_000_000_000 <= self@.x * target <= 4_000_000_000_000_000_000
                && -4_000_000_000_000_000_000 <= self@.y * target
                <= 4_000_000_000_000_000_000) by (nonlinear_arith)
                requires
                    -2_000_000_000 <= self@.x <= 2_000_000_000,
                    -2_000_000_000 <= self@.y <= 2_000_000_000,
                    0 <= target as int <= 2_000_000_000,
            ;
        }
        let m = self.mag();
        assert(m > 0) by {
            if m == 0 {
                assert(abs(self@.x) == 0 && abs(self@.y) == 0);
                assert(norm_sq_s(self@) == 0) by (nonlinear_arith)
                    requires
                        self@.x == 0 && self@.y == 0,
                ;
            }
        }
        let px: i64 = match self.x.checked_mul(target) {
            Some(p) => p,
            None => {
                proof {
                    assert(false);
                }
                0
            },
        };
        let py: i64 = match self.y.checked_mul(target) {
            Some(p) => p,
            None => {
                proof {
                    assert(false);
                }
                0
            },
        };
        Vec2 { x: div_trunc(px, m), y: div_trunc(py, m) }
    }
}

} // verus!
