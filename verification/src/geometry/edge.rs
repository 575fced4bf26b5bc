//! Line segments between lattice points.

use vstd::prelude::*;
use crate::geometry::arith::{
    ceil_div,
    ceil_root,
    div_ceil_u128,
    floor_root,
    lemma_mul_bound,
    mul_i64,
};
use crate::geometry::geo_enums::Rounding;
use crate::geometry::aa_rectangle::AARectangle;
use crate::geometry::point::{root_of, sq_dist, Point};

verus! {

/// A closed line segment from `start` to `end`.
#[derive(Clone, Copy, Debug, PartialEq, Eq, Structural)]
pub struct Edge {
    pub start: Point,
    pub end: Point,
}

/// The cross product of the vectors `(ax, ay)` and `(bx, by)`.
pub open spec fn cross(ax: int, ay: int, bx: int, by: int) -> int {
    ax * by - ay * bx
}

/// The dot product of the vectors `(ax, ay)` and `(bx, by)`.
pub open spec fn dot(ax: int, ay: int, bx: int, by: int) -> int {
    ax * bx + ay * by
}

/// Lagrange's identity in the plane.
pub proof fn lemma_lagrange(dx: int, dy: int, wx: int, wy: int)
    ensures
        cross(dx, dy, wx, wy) * cross(dx, dy, wx, wy) + dot(wx, wy, dx, dy) * dot(wx, wy, dx, dy)
            == (wx * wx + wy * wy) * (dx * dx + dy * dy),
{
    let a = dx * wy;
    let b = dy * wx;
    let c = wx * dx;
    let d = wy * dy;
    assert(a * b == c * d) by (nonlinear_arith)
        requires
            a == dx * wy,
            b == dy * wx,
            c == wx * dx,
            d == wy * dy,
    ;
    assert((a - b) * (a - b) == a * a - 2 * (a * b) + b * b) by (nonlinear_arith);
    assert((c + d) * (c + d) == c * c + 2 * (c * d) + d * d) by (nonlinear_arith);
    assert(c * c == (wx * wx) * (dx * dx)) by (nonlinear_arith)
        requires
            c == wx * dx,
    ;
    assert(b * b == (wx * wx) * (dy * dy)) by (nonlinear_arith)
        requires
            b == dy * wx,
    ;
    assert(a * a == (wy * wy) * (dx * dx)) by (nonlinear_arith)
        requires
            a == dx * wy,
    ;
    assert(d * d == (wy * wy) * (dy * dy)) by (nonlinear_arith)
        requires
            d == wy * dy,
    ;
    let p = wx * wx;
    let q = wy * wy;
    let r = dx * dx;
    let t = dy * dy;
    assert((p + q) * (r + t) == p * r + p * t + q * r + q * t) by (nonlinear_arith);
}

/// A quotient is bounded by any number whose multiple bounds the dividend.
pub proof fn lemma_quotient_bound(num: int, den: int, w: int)
    by (nonlinear_arith)
    requires
        den > 0,
        0 <= num <= w * den,
    ensures
        0 <= num / den <= w,
        0 <= ceil_div(num, den) <= w,
{
}

impl Edge {
    /// Both ends are in range and differ.
    pub open spec fn wf(self) -> bool {
        self.start.in_range() && self.end.in_range() && self.start != self.end
    }

    /// The segment from `start` to `end`, unless the two coincide or one is
    /// out of range.
    pub fn new(start: Point, end: Point) -> (r: Option<Edge>)
        ensures
            r == if start.in_range() && end.in_range() && start != end {
                Some(Edge { start, end })
            } else {
                None::<Edge>
            },
    {
        if start.check_in_range() && end.check_in_range() && !(start.0 == end.0 && start.1
            == end.1) {
            Some(Edge { start, end })
        } else {
            None
        }
    }

    /// Numerator of the exact squared distance from `p` to the segment.
    pub open spec fn sq_distance_num(self, p: Point) -> int {
        let dx = self.end.0 - self.start.0;
        let dy = self.end.1 - self.start.1;
        let wx = p.0 - self.start.0;
        let wy = p.1 - self.start.1;
        let t = dot(wx, wy, dx, dy);
        if t <= 0 {
            sq_dist(p, self.start)
        } else if t >= dx * dx + dy * dy {
            sq_dist(p, self.end)
        } else {
            cross(dx, dy, wx, wy) * cross(dx, dy, wx, wy)
        }
    }

    /// Denominator of the exact squared distance from `p` to the segment.
    pub open spec fn sq_distance_den(self, p: Point) -> int {
        let dx = self.end.0 - self.start.0;
        let dy = self.end.1 - self.start.1;
        let wx = p.0 - self.start.0;
        let wy = p.1 - self.start.1;
        let t = dot(wx, wy, dx, dy);
        if t <= 0 || t >= dx * dx + dy * dy {
            1
        } else {
            dx * dx + dy * dy
        }
    }

    /// Euclidean distance from `p` to the nearest point of the segment,
    /// rounded to whole units.
    pub open spec fn spec_distance(self, p: Point, rounding: Rounding) -> int {
        match rounding {
            Rounding::Down => floor_root(self.sq_distance_num(p) / self.sq_distance_den(p)),
            Rounding::Up => ceil_root(ceil_div(self.sq_distance_num(p), self.sq_distance_den(p))),
        }
    }

    /// Euclidean distance from `p` to the nearest point of the segment,
    /// rounded as asked.
    pub fn distance(&self, p: &Point, rounding: Rounding) -> (d: i64)
        requires
            self.wf(),
            p.in_range(),
        ensures
            d == self.spec_distance(*p, rounding),
            0 <= d <= 0x1_0000_0000,
    {
        let dx: i64 = self.end.0 - self.start.0;
        let dy: i64 = self.end.1 - self.start.1;
        let wx: i64 = p.0 - self.start.0;
        let wy: i64 = p.1 - self.start.1;
        proof {
            lemma_mul_bound(wx as int, dx as int, 0x8000_0000, 0x8000_0000);
            lemma_mul_bound(wy as int, dy as int, 0x8000_0000, 0x8000_0000);
            lemma_mul_bound(dx as int, dx as int, 0x8000_0000, 0x8000_0000);
            lemma_mul_bound(dy as int, dy as int, 0x8000_0000, 0x8000_0000);
            lemma_mul_bound(wx as int, wx as int, 0x8000_0000, 0x8000_0000);
            lemma_mul_bound(wy as int, wy as int, 0x8000_0000, 0x8000_0000);
            lemma_mul_bound(dx as int, wy as int, 0x8000_0000, 0x8000_0000);
            lemma_mul_bound(dy as int, wx as int, 0x8000_0000, 0x8000_0000);
            assert(dx * dx >= 0 && dy * dy >= 0 && wx * wx >= 0 && wy * wy >= 0)
                by (nonlinear_arith);
        }
        let t: i128 = mul_i64(wx, dx) + mul_i64(wy, dy);
        let len2: i128 = mul_i64(dx, dx) + mul_i64(dy, dy);
        if t <= 0 {
            let sq: u64 = p.sq_distance(&self.start);
            proof {
                assert(ceil_div(sq as int, 1) == sq);
            }
            root_of(sq as u128, rounding)
        } else if t >= len2 {
            let sq: u64 = p.sq_distance(&self.end);
            proof {
                assert(ceil_div(sq as int, 1) == sq);
            }
            root_of(sq as u128, rounding)
        } else {
            let c: i128 = mul_i64(dx, wy) - mul_i64(dy, wx);
            proof {
                lemma_mul_bound(c as int, c as int, 0x8000_0000_0000_0000, 0x8000_0000_0000_0000);
                assert(c * c >= 0) by (nonlinear_arith);
                lemma_lagrange(dx as int, dy as int, wx as int, wy as int);
                assert(t * t >= 0) by (nonlinear_arith);
                lemma_quotient_bound(c * c, len2 as int, wx * wx + wy * wy);
            }
            let num: u128 = (c * c) as u128;
            let den: u128 = len2 as u128;
            match rounding {
                Rounding::Down => root_of(num / den, rounding),
                Rounding::Up => root_of(div_ceil_u128(num, den), rounding),
            }
        }
    }

    /// Whether the two segments meet in exactly one point. Parallel segments
    /// never do, even where they overlap.
    pub open spec fn spec_collides_with(self, other: Edge) -> bool {
        let d1x = self.end.0 - self.start.0;
        let d1y = self.end.1 - self.start.1;
        let d2x = other.end.0 - other.start.0;
        let d2y = other.end.1 - other.start.1;
        let ex = other.start.0 - self.start.0;
        let ey = other.start.1 - self.start.1;
        let denom = cross(d1x, d1y, d2x, d2y);
        let t = cross(ex, ey, d2x, d2y);
        let u = cross(ex, ey, d1x, d1y);
        if denom > 0 {
            0 <= t <= denom && 0 <= u <= denom
        } else if denom < 0 {
            denom <= t <= 0 && denom <= u <= 0
        } else {
            false
        }
    }

    /// Whether the two segments meet in exactly one point.
    pub fn collides_with(&self, other: &Edge) -> (r: bool)
        requires
            self.wf(),
            other.wf(),
        ensures
            r == self.spec_collides_with(*other),
    {
        let d1x: i64 = self.end.0 - self.start.0;
        let d1y: i64 = self.end.1 - self.start.1;
        let d2x: i64 = other.end.0 - other.start.0;
        let d2y: i64 = other.end.1 - other.start.1;
        let ex: i64 = other.start.0 - self.start.0;
        let ey: i64 = other.start.1 - self.start.1;
        proof {
            lemma_mul_bound(d1x as int, d2y as int, 0x8000_0000, 0x8000_0000);
            lemma_mul_bound(d1y as int, d2x as int, 0x8000_0000, 0x8000_0000);
            lemma_mul_bound(ex as int, d2y as int, 0x8000_0000, 0x8000_0000);
            lemma_mul_bound(ey as int, d2x as int, 0x8000_0000, 0x8000_0000);
            lemma_mul_bound(ex as int, d1y as int, 0x8000_0000, 0x8000_0000);
            lemma_mul_bound(ey as int, d1x as int, 0x8000_0000, 0x8000_0000);
        }
        let denom: i128 = mul_i64(d1x, d2y) - mul_i64(d1y, d2x);
        let t: i128 = mul_i64(ex, d2y) - mul_i64(ey, d2x);
        let u: i128 = mul_i64(ex, d1y) - mul_i64(ey, d1x);
        if denom > 0 {
            0 <= t && t <= denom && 0 <= u && u <= denom
        } else if denom < 0 {
            denom <= t && t <= 0 && denom <= u && u <= 0
        } else {
            false
        }
    }
}

/// The smaller of two coordinates.
pub open spec fn min_coord(a: i64, b: i64) -> i64 {
    if a <= b {
        a
    } else {
        b
    }
}

/// The larger of two coordinates.
pub open spec fn max_coord(a: i64, b: i64) -> i64 {
    if a >= b {
        a
    } else {
        b
    }
}

impl Edge {
    /// The smallest rectangle around the segment.
    pub open spec fn spec_bbox(self) -> AARectangle {
        AARectangle {
            x_min: min_coord(self.start.0, self.end.0),
            y_min: min_coord(self.start.1, self.end.1),
            x_max: max_coord(self.start.0, self.end.0),
            y_max: max_coord(self.start.1, self.end.1),
        }
    }

    pub fn bbox(&self) -> (r: AARectangle)
        ensures
            r == self.spec_bbox(),
            self.wf() ==> r.wf(),
    {
        AARectangle {
            x_min: if self.start.0 <= self.end.0 {
                self.start.0
            } else {
                self.end.0
            },
            y_min: if self.start.1 <= self.end.1 {
                self.start.1
            } else {
                self.end.1
            },
            x_max: if self.start.0 >= self.end.0 {
                self.start.0
            } else {
                self.end.0
            },
            y_max: if self.start.1 >= self.end.1 {
                self.start.1
            } else {
                self.end.1
            },
        }
    }
}

/// Of the point in which two lines meet, the coordinate along one axis,
/// scaled by the cross product of the directions, can be had from either
/// line. The directions are `(u1, v1)` and `(u2, v2)` and the offset between
/// the starts is `(e, g)`, each with the coordinate along the axis first.
pub proof fn lemma_meeting_point(a: int, c: int, u1: int, v1: int, u2: int, v2: int, e: int, g: int)
    requires
        e == c - a,
    ensures
        (u1 * v2 - v1 * u2) * a + (e * v2 - g * u2) * u1 == (u1 * v2 - v1 * u2) * c + (e * v1 - g
            * u1) * u2,
{
    let m1 = u1 * v2;
    let m2 = v1 * u2;
    let m3 = e * v2;
    let m4 = g * u2;
    let m5 = e * v1;
    let m6 = g * u1;
    assert(m1 * e == m3 * u1) by (nonlinear_arith)
        requires
            m1 == u1 * v2,
            m3 == e * v2,
    ;
    assert(m2 * e == m5 * u2) by (nonlinear_arith)
        requires
            m2 == v1 * u2,
            m5 == e * v1,
    ;
    assert(m4 * u1 == m6 * u2) by (nonlinear_arith)
        requires
            m4 == g * u2,
            m6 == g * u1,
    ;
    assert((m1 - m2) * c == (m1 - m2) * a + m1 * e - m2 * e) by (nonlinear_arith)
        requires
            e == c - a,
    ;
    assert((m3 - m4) * u1 == m3 * u1 - m4 * u1) by (nonlinear_arith);
    assert((m5 - m6) * u2 == m5 * u2 - m6 * u2) by (nonlinear_arith);
}

/// A value between two bounds, scaled, lies between the scaled bounds.
pub proof fn lemma_scaled_between(denom: int, t: int, a: int, d: int, lo: int, hi: int)
    by (nonlinear_arith)
    requires
        denom > 0,
        0 <= t <= denom,
        lo <= a <= hi,
        lo <= a + d <= hi,
    ensures
        denom * lo <= denom * a + t * d <= denom * hi,
{
}

/// Along one axis, two segments that meet have overlapping spans.
pub proof fn lemma_spans_overlap(
    ax: int,
    bx: int,
    cx: int,
    dx: int,
    denom: int,
    t: int,
    u: int,
)
    requires
        denom != 0,
        denom > 0 ==> 0 <= t <= denom && 0 <= u <= denom,
        denom < 0 ==> denom <= t <= 0 && denom <= u <= 0,
        denom * ax + t * (bx - ax) == denom * cx + u * (dx - cx),
    ensures
        (if ax <= bx {
            ax
        } else {
            bx
        }) <= (if cx >= dx {
            cx
        } else {
            dx
        }),
        (if cx <= dx {
            cx
        } else {
            dx
        }) <= (if ax >= bx {
            ax
        } else {
            bx
        }),
{
    let lo1 = if ax <= bx {
        ax
    } else {
        bx
    };
    let hi1 = if ax >= bx {
        ax
    } else {
        bx
    };
    let lo2 = if cx <= dx {
        cx
    } else {
        dx
    };
    let hi2 = if cx >= dx {
        cx
    } else {
        dx
    };
    let (n, tt, uu) = if denom > 0 {
        (denom, t, u)
    } else {
        (-denom, -t, -u)
    };
    assert(n * ax + tt * (bx - ax) == n * cx + uu * (dx - cx)) by (nonlinear_arith)
        requires
            denom * ax + t * (bx - ax) == denom * cx + u * (dx - cx),
            (n == denom && tt == t && uu == u) || (n == -denom && tt == -t && uu == -u),
    ;
    lemma_scaled_between(n, tt, ax, bx - ax, lo1, hi1);
    lemma_scaled_between(n, uu, cx, dx - cx, lo2, hi2);
    if lo1 > hi2 {
        assert(n * lo1 > n * hi2) by (nonlinear_arith)
            requires
                n > 0,
                lo1 > hi2,
        ;
    }
    if lo2 > hi1 {
        assert(n * lo2 > n * hi1) by (nonlinear_arith)
            requires
                n > 0,
                lo2 > hi1,
        ;
    }
}

/// Segments that meet have overlapping bounding boxes.
pub proof fn lemma_meeting_edges_overlap(e: Edge, f: Edge)
    requires
        e.spec_collides_with(f),
    ensures
        e.spec_bbox().spec_overlaps(f.spec_bbox()),
{
    let d1x = e.end.0 - e.start.0;
    let d1y = e.end.1 - e.start.1;
    let d2x = f.end.0 - f.start.0;
    let d2y = f.end.1 - f.start.1;
    let ex = f.start.0 - e.start.0;
    let ey = f.start.1 - e.start.1;
    let denom = cross(d1x, d1y, d2x, d2y);
    let t = cross(ex, ey, d2x, d2y);
    let u = cross(ex, ey, d1x, d1y);
    lemma_meeting_point(e.start.0 as int, f.start.0 as int, d1x, d1y, d2x, d2y, ex, ey);
    lemma_spans_overlap(
        e.start.0 as int,
        e.end.0 as int,
        f.start.0 as int,
        f.end.0 as int,
        denom,
        t,
        u,
    );
    lemma_meeting_point(e.start.1 as int, f.start.1 as int, d1y, d1x, d2y, d2x, ey, ex);
    assert(d1y * d2x - d1x * d2y == -denom);
    assert(ey * d2x - ex * d2y == -t);
    assert(ey * d1x - ex * d1y == -u);
    assert(denom * e.start.1 + t * d1y == denom * f.start.1 + u * d2y) by (nonlinear_arith)
        requires
            (-denom) * e.start.1 + (-t) * d1y == (-denom) * f.start.1 + (-u) * d2y,
    ;
    lemma_spans_overlap(
        e.start.1 as int,
        e.end.1 as int,
        f.start.1 as int,
        f.end.1 as int,
        denom,
        t,
        u,
    );
}

} // verus!
