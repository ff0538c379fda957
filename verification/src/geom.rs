//! Static collision primitives: axis-aligned boxes and circles.
//!
//! Boxes stand for wall tiles and for the inflated bounds of a player;
//! circles stand for players and bullets.  All tests are exact integer
//! comparisons; the circle-against-box test projects the point of the
//! circle's surface nearest the box's centre and asks whether that point
//! lies inside the box, which avoids corner artifacts of naive
//! box-overlap tests.

use vstd::prelude::*;

verus! {

use crate::fixed::{FX_ONE, FX_LIMIT, div_t, min_s, div_trunc};
use crate::vec2::{Vec2, Vec2s, bounded, vadd, vsub, norm_sq_s, dist_sq_s, scale_to_s};
use vstd::math::abs;

/// Geometry works on coordinates within this bound; it leaves headroom
/// for sums and differences to stay within `FX_LIMIT`.
pub const GEOM_LIMIT: i64 = 1_000_000_000;

/// Largest radius or box size the geometry accepts.
pub const SIZE_LIMIT: i64 = 1_000_000;

/// An axis-aligned collision box, defined by two opposite corners.
#[derive(Clone, Copy, Debug, PartialEq, Eq, Structural)]
pub struct CSquare {
    pub top_left: Vec2,
    pub bottom_right: Vec2,
}

/// Mathematical model of a `CSquare`.
pub struct SquareS {
    pub top_left: Vec2s,
    pub bottom_right: Vec2s,
}

impl View for CSquare {
    type V = SquareS;

    open spec fn view(&self) -> SquareS {
        SquareS { top_left: self.top_left@, bottom_right: self.bottom_right@ }
    }
}

/// A collision circle: centre and radius.
#[derive(Clone, Copy, Debug, PartialEq, Eq, Structural)]
pub struct CCircle {
    center: Vec2,
    radius: i64,
}

/// Mathematical model of a `CCircle`.
pub struct CircleS {
    pub center: Vec2s,
    pub radius: int,
}

impl View for CCircle {
    type V = CircleS;

    closed spec fn view(&self) -> CircleS {
        CircleS { center: self.center@, radius: self.radius as int }
    }
}

/// A box whose corners are ordered and in range.
pub open spec fn square_wf(s: SquareS) -> bool {
    &&& bounded(s.top_left, GEOM_LIMIT as int)
    &&& bounded(s.bottom_right, GEOM_LIMIT as int)
    &&& s.top_left.x <= s.bottom_right.x
    &&& s.top_left.y <= s.bottom_right.y
}

/// A circle whose centre and radius are in range.
pub open spec fn circle_wf(c: CircleS) -> bool {
    &&& bounded(c.center, GEOM_LIMIT as int)
    &&& 0 <= c.radius <= SIZE_LIMIT as int
}

/// Strict overlap of two boxes (touching edges do not count).
pub open spec fn sq_intersects_s(a: SquareS, b: SquareS) -> bool {
    &&& a.top_left.x < b.bottom_right.x
    &&& a.bottom_right.x > b.top_left.x
    &&& a.top_left.y < b.bottom_right.y
    &&& a.bottom_right.y > b.top_left.y
}

/// A point strictly inside a box.
pub open spec fn sq_contains_s(s: SquareS, p: Vec2s) -> bool {
    &&& s.top_left.x < p.x
    &&& s.bottom_right.x > p.x
    &&& s.top_left.y < p.y
    &&& s.bottom_right.y > p.y
}

/// Overlap of two circles: centre distance below the sum of radii,
/// compared in squares.
pub open spec fn circles_intersect_s(a: CircleS, b: CircleS) -> bool {
    dist_sq_s(a.center, b.center) < (a.radius + b.radius) * (a.radius + b.radius)
}

/// The centre point of a box.
pub open spec fn square_center_s(s: SquareS) -> Vec2s {
    vadd(
        s.top_left,
        Vec2s {
            x: div_t(s.bottom_right.x - s.top_left.x, 2),
            y: div_t(s.bottom_right.y - s.top_left.y, 2),
        },
    )
}

/// The point of the circle's surface nearest the box's centre.  A circle
/// centred exactly on the box's centre has no direction to project
/// along; its surface point is taken straight to the right.
pub open spec fn outer_point_s(c: CircleS, s: SquareS) -> Vec2s {
    let d = vsub(c.center, square_center_s(s));
    if norm_sq_s(d) == 0 {
        vadd(c.center, Vec2s { x: c.radius, y: 0 })
    } else {
        vadd(c.center, scale_to_s(d, c.radius))
    }
}

/// Circle-against-box collision.
pub open spec fn circle_hits_square_s(c: CircleS, s: SquareS) -> bool {
    sq_contains_s(s, outer_point_s(c, s))
}

/// How deep two overlapping boxes penetrate: the smaller of the two
/// axis overlaps.
pub open spec fn overlap_depth_s(a: SquareS, b: SquareS) -> int {
    min_s(
        min_s(a.bottom_right.x, b.bottom_right.x) - if a.top_left.x >= b.top_left.x {
            a.top_left.x
        } else {
            b.top_left.x
        },
        min_s(a.bottom_right.y, b.bottom_right.y) - if a.top_left.y >= b.top_left.y {
            a.top_left.y
        } else {
            b.top_left.y
        },
    )
}

impl CSquare {
    /// A box from its top-left corner and side length.
    pub fn new(top_left: Vec2, size: i64) -> (r: CSquare)
        requires
            bounded(top_left@, GEOM_LIMIT as int),
            0 <= size <= SIZE_LIMIT,
        ensures
            r@.top_left == top_left@,
            r@.bottom_right == vadd(top_left@, Vec2s { x: size as int, y: size as int }),
    {
        CSquare { top_left, bottom_right: top_left.plus(Vec2::new(size, size)) }
    }

    /// A box from its centre and apothem (half side length).
    pub fn new_centered(center: Vec2, apothem: i64) -> (r: CSquare)
        requires
            bounded(center@, GEOM_LIMIT as int),
            0 <= apothem <= SIZE_LIMIT,
        ensures
            r@.top_left == vsub(center@, Vec2s { x: apothem as int, y: apothem as int }),
            r@.bottom_right == vadd(center@, Vec2s { x: apothem as int, y: apothem as int }),
    {
        let offset = Vec2::new(apothem, apothem);
        CSquare { top_left: center.minus(offset), bottom_right: center.plus(offset) }
    }

    /// Strict overlap with another box.
    pub fn intersects(&self, other: CSquare) -> (r: bool)
        ensures
            r == sq_intersects_s(self@, other@),
    {
        self.top_left.x < other.bottom_right.x && self.bottom_right.x > other.top_left.x
            && self.top_left.y < other.bottom_right.y && self.bottom_right.y > other.top_left.y
    }

    /// Whether a point lies strictly inside the box.
    pub fn contains(&self, p: Vec2) -> (r: bool)
        ensures
            r == sq_contains_s(self@, p@),
    {
        self.top_left.x < p.x && self.bottom_right.x > p.x && self.top_left.y < p.y
            && self.bottom_right.y > p.y
    }

    /// Penetration depth against another box.
    pub fn overlap_depth(&self, other: CSquare) -> (r: i64)
        requires
            square_wf(self@),
            square_wf(other@),
        ensures
            r == overlap_depth_s(self@, other@),
    {
        let ox_hi = if self.bottom_right.x <= other.bottom_right.x {
            self.bottom_right.x
        } else {
            other.bottom_right.x
        };
        let ox_lo = if self.top_left.x >= other.top_left.x {
            self.top_left.x
        } else {
            other.top_left.x
        };
        let oy_hi = if self.bottom_right.y <= other.bottom_right.y {
            self.bottom_right.y
        } else {
            other.bottom_right.y
        };
        let oy_lo = if self.top_left.y >= other.top_left.y {
            self.top_left.y
        } else {
            other.top_left.y
        };
        let ox = ox_hi - ox_lo;
        let oy = oy_hi - oy_lo;
        if ox <= oy {
            ox
        } else {
            oy
        }
    }
}

impl CCircle {
    pub fn new(center: Vec2, radius: i64) -> (r: CCircle)
        ensures
            r@.center == center@,
            r@.radius == radius as int,
    {
        CCircle { center, radius }
    }

    /// Overlap with another circle.
    pub fn intersects(self, other: Self) -> (r: bool)
        requires
            circle_wf(self@),
            circle_wf(other@),
        ensures
            r == circles_intersect_s(self@, other@),
    {
        let d = self.center.dist_sq(other.center);
        let rr = self.radius + other.radius;
        proof {
            assert(0 <= rr * rr <= 4_000_000_000_000) by (nonlinear_arith)
                requires
                    0 <= rr <= 2_000_000,
            ;
        }
        d < rr * rr
    }

    /// Collision with a box.
    pub fn intersects_square(self, s: &CSquare) -> (r: bool)
        requires
            circle_wf(self@),
            square_wf(s@),
        ensures
            r == circle_hits_square_s(self@, s@),
    {
        let half = Vec2::new(
            div_trunc(s.bottom_right.x - s.top_left.x, 2),
            div_trunc(s.bottom_right.y - s.top_left.y, 2),
        );
        let s_center = s.top_left.plus(half);
        proof {
            crate::fixed::lemma_div_t_bound(
                s@.bottom_right.x - s@.top_left.x,
                2,
                2 * GEOM_LIMIT as int,
            );
            crate::fixed::lemma_div_t_bound(
                s@.bottom_right.y - s@.top_left.y,
                2,
                2 * GEOM_LIMIT as int,
            );
        }
        let d = self.center.minus(s_center);
        let outer = if d.norm_sq() == 0 {
            self.center.plus(Vec2::new(self.radius, 0))
        } else {
            proof {
                crate::vec2::lemma_component_le_mag(d@);
                assert(abs(d@.x) * (self@.radius) <= i64::MAX && abs(d@.y) * (self@.radius)
                    <= i64::MAX) by (nonlinear_arith)
                    requires
                        0 <= abs(d@.x) <= FX_LIMIT as int,
                        0 <= abs(d@.y) <= FX_LIMIT as int,
                        0 <= self@.radius <= SIZE_LIMIT as int,
                ;
            }
            self.center.plus(d.scaled_to(self.radius))
        };
        s.contains(outer)
    }
}

} // verus!
