//! The triangle inequality for rounded distances, and what follows from it
//! for the distance to a disk.

use vstd::prelude::*;
use crate::geometry::arith::{
    ceil_div,
    ceil_root,
    floor_root,
    lemma_ceil_root_exists,
    lemma_floor_root_exists,
    lemma_mul_bound,
    lemma_square_monotone,
    lemma_square_strict,
};
use crate::geometry::circle::Circle;
use crate::geometry::edge::{cross, dot, lemma_lagrange, lemma_quotient_bound, Edge};
use crate::geometry::geo_enums::Rounding;
use crate::geometry::point::{dist, sq_dist, Point};

verus! {

/// A squared distance is never negative.
pub proof fn lemma_sq_dist_nonneg(a: Point, b: Point)
    ensures
        sq_dist(a, b) >= 0,
{
    let dx = a.0 - b.0;
    let dy = a.1 - b.1;
    assert(dx * dx >= 0 && dy * dy >= 0) by (nonlinear_arith);
}

/// Squared distances do not depend on the order of the points.
pub proof fn lemma_sq_dist_symmetric(a: Point, b: Point)
    ensures
        sq_dist(a, b) == sq_dist(b, a),
{
    let dx = a.0 - b.0;
    let dy = a.1 - b.1;
    assert((-dx) * (-dx) == dx * dx) by (nonlinear_arith);
    assert((-dy) * (-dy) == dy * dy) by (nonlinear_arith);
}

/// The ceiling root of `n` is at most any natural number whose square is at
/// least `n`.
pub proof fn lemma_ceil_root_at_most(n: int, k: int)
    requires
        0 <= n <= k * k,
        0 <= k,
    ensures
        ceil_root(n) <= k,
{
    lemma_ceil_root_exists(n);
    let c = ceil_root(n);
    if c > k {
        lemma_square_monotone(k, c - 1);
    }
}

/// The floor root of `n` is at most any natural number whose square is at
/// least `n`.
pub proof fn lemma_floor_root_at_most(n: int, k: int)
    requires
        0 <= n <= k * k,
        0 <= k,
    ensures
        floor_root(n) <= k,
{
    lemma_floor_root_exists(n);
    let f = floor_root(n);
    if f > k {
        lemma_square_strict(k, f);
    }
}

/// The dot product of two vectors is at most the product of any bounds on
/// their lengths.
pub proof fn lemma_cauchy_schwarz(ux: int, uy: int, vx: int, vy: int, r1: int, r2: int)
    requires
        0 <= r1,
        0 <= r2,
        ux * ux + uy * uy <= r1 * r1,
        vx * vx + vy * vy <= r2 * r2,
    ensures
        dot(ux, uy, vx, vy) <= r1 * r2,
{
    let d = dot(ux, uy, vx, vy);
    let c = cross(vx, vy, ux, uy);
    let nu = ux * ux + uy * uy;
    let nv = vx * vx + vy * vy;
    assert(r1 * r2 >= 0) by (nonlinear_arith)
        requires
            0 <= r1,
            0 <= r2,
    ;
    if d > 0 {
        lemma_lagrange(vx, vy, ux, uy);
        assert(c * c >= 0) by (nonlinear_arith);
        assert(d * d <= nu * nv);
        assert(nu >= 0 && nv >= 0) by (nonlinear_arith)
            requires
                nu == ux * ux + uy * uy,
                nv == vx * vx + vy * vy,
        ;
        assert(nu * nv <= (r1 * r1) * (r2 * r2)) by (nonlinear_arith)
            requires
                0 <= nu <= r1 * r1,
                0 <= nv <= r2 * r2,
        ;
        assert((r1 * r1) * (r2 * r2) == (r1 * r2) * (r1 * r2)) by (nonlinear_arith);
        if d > r1 * r2 {
            lemma_square_strict(r1 * r2, d);
        }
    }
}

/// The triangle inequality, in squares: a point within `r1` of `b`, itself
/// within `r2` of `c`, is within `r1 + r2` of `c`.
pub proof fn lemma_triangle_sq(a: Point, b: Point, c: Point, r1: int, r2: int)
    requires
        0 <= r1,
        0 <= r2,
        sq_dist(a, b) <= r1 * r1,
        sq_dist(b, c) <= r2 * r2,
    ensures
        sq_dist(a, c) <= (r1 + r2) * (r1 + r2),
{
    let ux = a.0 - b.0;
    let uy = a.1 - b.1;
    let vx = b.0 - c.0;
    let vy = b.1 - c.1;
    lemma_cauchy_schwarz(ux, uy, vx, vy, r1, r2);
    let d = dot(ux, uy, vx, vy);
    assert((ux + vx) * (ux + vx) == ux * ux + 2 * (ux * vx) + vx * vx) by (nonlinear_arith);
    assert((uy + vy) * (uy + vy) == uy * uy + 2 * (uy * vy) + vy * vy) by (nonlinear_arith);
    assert((r1 + r2) * (r1 + r2) == r1 * r1 + 2 * (r1 * r2) + r2 * r2) by (nonlinear_arith);
    assert(a.0 - c.0 == ux + vx);
    assert(a.1 - c.1 == uy + vy);
}

/// The distance to a disk is never negative.
pub proof fn lemma_proximity_nonneg(pole: Circle, p: Point)
    requires
        pole.radius >= 0,
    ensures
        pole.spec_proximity(p) >= 0,
{
    lemma_sq_dist_nonneg(pole.center, p);
    lemma_ceil_root_exists(sq_dist(pole.center, p));
    let c = ceil_root(sq_dist(pole.center, p));
    if !pole.spec_collides_with(p) && c < pole.radius {
        lemma_square_monotone(c, pole.radius as int);
    }
}

/// The distance to a disk changes by no more than the distance moved,
/// rounded up.
pub proof fn lemma_proximity_lipschitz(pole: Circle, p: Point, q: Point)
    requires
        pole.radius >= 0,
    ensures
        pole.spec_proximity(p) <= pole.spec_proximity(q) + dist(p, q, Rounding::Up),
{
    let x = pole.center;
    lemma_sq_dist_nonneg(x, p);
    lemma_sq_dist_nonneg(x, q);
    lemma_sq_dist_nonneg(q, p);
    lemma_sq_dist_symmetric(q, p);
    lemma_ceil_root_exists(sq_dist(p, q));
    lemma_ceil_root_exists(sq_dist(x, q));
    lemma_ceil_root_exists(sq_dist(x, p));
    let d = ceil_root(sq_dist(p, q));
    lemma_proximity_nonneg(pole, q);
    if !pole.spec_collides_with(p) {
        if pole.spec_collides_with(q) {
            lemma_triangle_sq(x, q, p, pole.radius as int, d);
            lemma_ceil_root_at_most(sq_dist(x, p), pole.radius + d);
        } else {
            let cq = ceil_root(sq_dist(x, q));
            lemma_triangle_sq(x, q, p, cq, d);
            lemma_ceil_root_at_most(sq_dist(x, p), cq + d);
        }
    }
}

/// The triangle inequality for vectors, in squares.
pub proof fn lemma_triangle_vec(ux: int, uy: int, vx: int, vy: int, r1: int, r2: int)
    requires
        0 <= r1,
        0 <= r2,
        ux * ux + uy * uy <= r1 * r1,
        vx * vx + vy * vy <= r2 * r2,
    ensures
        (ux + vx) * (ux + vx) + (uy + vy) * (uy + vy) <= (r1 + r2) * (r1 + r2),
{
    lemma_cauchy_schwarz(ux, uy, vx, vy, r1, r2);
    assert((ux + vx) * (ux + vx) == ux * ux + 2 * (ux * vx) + vx * vx) by (nonlinear_arith);
    assert((uy + vy) * (uy + vy) == uy * uy + 2 * (uy * vy) + vy * vy) by (nonlinear_arith);
    assert((r1 + r2) * (r1 + r2) == r1 * r1 + 2 * (r1 * r2) + r2 * r2) by (nonlinear_arith);
}

/// The squared length of `len2 * w - s * d`, where `len2` is the squared
/// length of `d` and `t` the dot product of `w` and `d`.
pub proof fn lemma_combination_norm(
    wx: int,
    wy: int,
    dx: int,
    dy: int,
    s: int,
    len2: int,
    t: int,
    nw: int,
)
    requires
        len2 == dx * dx + dy * dy,
        t == wx * dx + wy * dy,
        nw == wx * wx + wy * wy,
    ensures
        (len2 * wx - s * dx) * (len2 * wx - s * dx) + (len2 * wy - s * dy) * (len2 * wy - s * dy)
            == len2 * (len2 * nw - 2 * (s * t) + s * s),
{
    let a = len2 * wx;
    let b = s * dx;
    let c = len2 * wy;
    let e = s * dy;
    assert((a - b) * (a - b) == a * a - 2 * (a * b) + b * b) by (nonlinear_arith);
    assert((c - e) * (c - e) == c * c - 2 * (c * e) + e * e) by (nonlinear_arith);
    assert(a * a == len2 * (len2 * (wx * wx))) by (nonlinear_arith)
        requires
            a == len2 * wx,
    ;
    assert(c * c == len2 * (len2 * (wy * wy))) by (nonlinear_arith)
        requires
            c == len2 * wy,
    ;
    assert(a * b == len2 * (s * (wx * dx))) by (nonlinear_arith)
        requires
            a == len2 * wx,
            b == s * dx,
    ;
    assert(c * e == len2 * (s * (wy * dy))) by (nonlinear_arith)
        requires
            c == len2 * wy,
            e == s * dy,
    ;
    assert(b * b == (s * s) * (dx * dx)) by (nonlinear_arith)
        requires
            b == s * dx,
    ;
    assert(e * e == (s * s) * (dy * dy)) by (nonlinear_arith)
        requires
            e == s * dy,
    ;
    assert(len2 * (len2 * (wx * wx)) + len2 * (len2 * (wy * wy)) == len2 * (len2 * nw))
        by (nonlinear_arith)
        requires
            nw == wx * wx + wy * wy,
    ;
    assert(len2 * (s * (wx * dx)) + len2 * (s * (wy * dy)) == len2 * (s * t)) by (nonlinear_arith)
        requires
            t == wx * dx + wy * dy,
    ;
    assert((s * s) * (dx * dx) + (s * s) * (dy * dy) == len2 * (s * s)) by (nonlinear_arith)
        requires
            len2 == dx * dx + dy * dy,
    ;
    assert(len2 * (len2 * nw - 2 * (s * t) + s * s) == len2 * (len2 * nw) - 2 * (len2 * (s * t))
        + len2 * (s * s)) by (nonlinear_arith);
}

/// The exact squared distance from a point to a segment is at most `bound`:
/// its numerator is at most `bound` times its denominator.
pub open spec fn edge_within(e: Edge, p: Point, bound: int) -> bool {
    e.sq_distance_num(p) <= bound * e.sq_distance_den(p)
}

/// A point is no farther from a segment than from a point of the segment's
/// line whose foot parameter `s` lies within the segment: the squared
/// distance to the segment, times the fourth power of the segment's length,
/// is at most the squared length of `len2 * (p - start) - s * d`, times the
/// squared length of the segment.
pub proof fn lemma_segment_nearest(e: Edge, p: Point, s: int, big: int)
    requires
        e.start != e.end,
        0 <= s <= (e.end.0 - e.start.0) * (e.end.0 - e.start.0) + (e.end.1 - e.start.1) * (e.end.1
            - e.start.1),
        0 <= big,
        ({
            let dx = e.end.0 - e.start.0;
            let dy = e.end.1 - e.start.1;
            let wx = p.0 - e.start.0;
            let wy = p.1 - e.start.1;
            let len2 = dx * dx + dy * dy;
            (len2 * wx - s * dx) * (len2 * wx - s * dx) + (len2 * wy - s * dy) * (len2 * wy - s
                * dy) <= (len2 * len2) * big
        }),
    ensures
        edge_within(e, p, big),
{
    let dx = e.end.0 - e.start.0;
    let dy = e.end.1 - e.start.1;
    let wx = p.0 - e.start.0;
    let wy = p.1 - e.start.1;
    let len2 = dx * dx + dy * dy;
    let t = dot(wx, wy, dx, dy);
    let nw = wx * wx + wy * wy;
    let c = cross(dx, dy, wx, wy);
    assert(len2 > 0) by (nonlinear_arith)
        requires
            len2 == dx * dx + dy * dy,
            dx != 0 || dy != 0,
    ;
    lemma_combination_norm(wx, wy, dx, dy, s, len2, t, nw);
    lemma_lagrange(dx, dy, wx, wy);
    let q = len2 * nw - 2 * (s * t) + s * s;
    assert(len2 * q <= (len2 * len2) * big);
    assert(q <= len2 * big) by (nonlinear_arith)
        requires
            len2 * q <= (len2 * len2) * big,
            len2 > 0,
    ;
    assert(c * c + t * t == nw * len2);
    assert(len2 * nw == nw * len2) by (nonlinear_arith);
    if t <= 0 {
        assert(s * t <= 0) by (nonlinear_arith)
            requires
                s >= 0,
                t <= 0,
        ;
        assert(s * s >= 0) by (nonlinear_arith);
        assert(len2 * nw <= len2 * big);
        assert(nw <= big) by (nonlinear_arith)
            requires
                len2 * nw <= len2 * big,
                len2 > 0,
        ;
        assert(sq_dist(p, e.start) == nw);
    } else if t >= len2 {
        let vx = p.0 - e.end.0;
        let vy = p.1 - e.end.1;
        let nv = vx * vx + vy * vy;
        assert(nv == nw - 2 * t + len2) by (nonlinear_arith)
            requires
                vx == wx - dx,
                vy == wy - dy,
                nv == vx * vx + vy * vy,
                nw == wx * wx + wy * wy,
                t == wx * dx + wy * dy,
                len2 == dx * dx + dy * dy,
        ;
        assert(len2 * nv <= q) by (nonlinear_arith)
            requires
                nv == nw - 2 * t + len2,
                q == len2 * nw - 2 * (s * t) + s * s,
                0 <= s <= len2,
                t >= len2,
                len2 > 0,
        {
            assert((len2 - s) * (t - len2) >= 0);
            assert((len2 - s) * (len2 - s) >= 0);
        }
        assert(nv <= big) by (nonlinear_arith)
            requires
                len2 * nv <= q,
                q <= len2 * big,
                len2 > 0,
        ;
        assert(sq_dist(p, e.end) == nv);
    } else {
        assert((t - s) * (t - s) >= 0) by (nonlinear_arith);
        assert(q == c * c + (t - s) * (t - s)) by (nonlinear_arith)
            requires
                q == len2 * nw - 2 * (s * t) + s * s,
                c * c + t * t == nw * len2,
                len2 * nw == nw * len2,
        ;
        assert(c * c <= big * len2) by (nonlinear_arith)
            requires
                q == c * c + (t - s) * (t - s),
                (t - s) * (t - s) >= 0,
                q <= len2 * big,
        ;
    }
}

/// A point within `r` of a point that is within `near` of a segment is
/// within `near + r` of the segment, all distances exact.
pub proof fn lemma_edge_reach(e: Edge, c: Point, p: Point, near: int, r: int)
    requires
        e.start != e.end,
        0 <= near,
        0 <= r,
        edge_within(e, c, near * near),
        sq_dist(p, c) <= r * r,
    ensures
        edge_within(e, p, (near + r) * (near + r)),
{
    let dx = e.end.0 - e.start.0;
    let dy = e.end.1 - e.start.1;
    let ux = c.0 - e.start.0;
    let uy = c.1 - e.start.1;
    let wx = p.0 - e.start.0;
    let wy = p.1 - e.start.1;
    let len2 = dx * dx + dy * dy;
    let tc = dot(ux, uy, dx, dy);
    let big = (near + r) * (near + r);
    assert(big >= 0) by (nonlinear_arith)
        requires
            big == (near + r) * (near + r),
    ;
    assert(len2 > 0) by (nonlinear_arith)
        requires
            len2 == dx * dx + dy * dy,
            dx != 0 || dy != 0,
    ;
    // the foot of `c` on the segment, as a parameter between 0 and `len2`
    let s = if tc <= 0 {
        0
    } else if tc >= len2 {
        len2
    } else {
        tc
    };
    // `len2 * (c - start) - s * d` is no longer than `len2 * near`
    let vx = len2 * ux - s * dx;
    let vy = len2 * uy - s * dy;
    let nu = ux * ux + uy * uy;
    lemma_combination_norm(ux, uy, dx, dy, s, len2, tc, nu);
    lemma_lagrange(dx, dy, ux, uy);
    let cc = cross(dx, dy, ux, uy);
    assert(cc * cc + tc * tc == nu * len2);
    assert(len2 * nu == nu * len2) by (nonlinear_arith);
    assert(vx * vx + vy * vy <= (len2 * near) * (len2 * near)) by {
        let qc = len2 * nu - 2 * (s * tc) + s * s;
        assert(vx * vx + vy * vy == len2 * qc);
        assert((len2 * near) * (len2 * near) == len2 * (len2 * (near * near))) by (nonlinear_arith);
        if tc <= 0 {
            assert(s * tc == 0 && s * s == 0);
            assert(sq_dist(c, e.start) == nu);
            assert(nu <= near * near);
            assert(nu >= 0) by (nonlinear_arith)
                requires
                    nu == ux * ux + uy * uy,
            ;
            assert(len2 * qc <= len2 * (len2 * (near * near))) by (nonlinear_arith)
                requires
                    qc == len2 * nu,
                    nu <= near * near,
                    len2 > 0,
                    nu >= 0,
            {
                assert(len2 * nu <= len2 * (near * near));
            }
        } else if tc >= len2 {
            let bx = c.0 - e.end.0;
            let by = c.1 - e.end.1;
            let nb = bx * bx + by * by;
            assert(sq_dist(c, e.end) == nb);
            assert(nb <= near * near);
            assert(nb >= 0) by (nonlinear_arith)
                requires
                    nb == bx * bx + by * by,
            ;
            assert(nb == nu - 2 * tc + len2) by (nonlinear_arith)
                requires
                    bx == ux - dx,
                    by == uy - dy,
                    nb == bx * bx + by * by,
                    nu == ux * ux + uy * uy,
                    tc == ux * dx + uy * dy,
                    len2 == dx * dx + dy * dy,
            ;
            assert(qc == len2 * nb) by (nonlinear_arith)
                requires
                    qc == len2 * nu - 2 * (s * tc) + s * s,
                    s == len2,
                    nb == nu - 2 * tc + len2,
            ;
            assert(len2 * qc <= len2 * (len2 * (near * near))) by (nonlinear_arith)
                requires
                    qc == len2 * nb,
                    0 <= nb <= near * near,
                    len2 > 0,
            {
                assert(len2 * nb <= len2 * (near * near));
            }
        } else {
            assert(cc * cc <= (near * near) * len2);
            assert(qc == cc * cc) by (nonlinear_arith)
                requires
                    qc == len2 * nu - 2 * (s * tc) + s * s,
                    s == tc,
                    cc * cc + tc * tc == nu * len2,
                    len2 * nu == nu * len2,
            ;
            assert(len2 * qc <= len2 * (len2 * (near * near))) by (nonlinear_arith)
                requires
                    qc <= (near * near) * len2,
                    len2 > 0,
            ;
        }
    }
    // `len2 * (p - c)` is no longer than `len2 * r`
    let px = len2 * (p.0 - c.0);
    let py = len2 * (p.1 - c.1);
    assert(px * px + py * py <= (len2 * r) * (len2 * r)) by (nonlinear_arith)
        requires
            px == len2 * (p.0 - c.0),
            py == len2 * (p.1 - c.1),
            (p.0 - c.0) * (p.0 - c.0) + (p.1 - c.1) * (p.1 - c.1) <= r * r,
            len2 > 0,
    {
        let a = (p.0 - c.0) * (p.0 - c.0) + (p.1 - c.1) * (p.1 - c.1);
        assert(px * px + py * py == (len2 * len2) * a);
        assert((len2 * r) * (len2 * r) == (len2 * len2) * (r * r));
        assert((len2 * len2) * a <= (len2 * len2) * (r * r));
    }
    assert(len2 * near >= 0 && len2 * r >= 0) by (nonlinear_arith)
        requires
            len2 > 0,
            near >= 0,
            r >= 0,
    ;
    lemma_triangle_vec(px, py, vx, vy, len2 * r, len2 * near);
    assert(px + vx == len2 * wx - s * dx) by (nonlinear_arith)
        requires
            px == len2 * (p.0 - c.0),
            vx == len2 * ux - s * dx,
            wx == (p.0 - c.0) + ux,
    ;
    assert(py + vy == len2 * wy - s * dy) by (nonlinear_arith)
        requires
            py == len2 * (p.1 - c.1),
            vy == len2 * uy - s * dy,
            wy == (p.1 - c.1) + uy,
    ;
    assert((len2 * r + len2 * near) * (len2 * r + len2 * near) == (len2 * len2) * big)
        by (nonlinear_arith)
        requires
            big == (near + r) * (near + r),
    ;
    lemma_segment_nearest(e, p, s, big);
}

/// The exact squared distance to a segment is a fraction of a natural
/// number by a positive one.
pub proof fn lemma_edge_measure(e: Edge, p: Point)
    requires
        e.start != e.end,
    ensures
        e.sq_distance_num(p) >= 0,
        e.sq_distance_den(p) > 0,
        ceil_div(e.sq_distance_num(p), e.sq_distance_den(p)) >= 0,
{
    let dx = e.end.0 - e.start.0;
    let dy = e.end.1 - e.start.1;
    let wx = p.0 - e.start.0;
    let wy = p.1 - e.start.1;
    let c = cross(dx, dy, wx, wy);
    assert(dx * dx + dy * dy > 0) by (nonlinear_arith)
        requires
            dx != 0 || dy != 0,
    ;
    assert(c * c >= 0) by (nonlinear_arith);
    lemma_sq_dist_nonneg(p, e.start);
    lemma_sq_dist_nonneg(p, e.end);
    let n = e.sq_distance_num(p);
    let m = e.sq_distance_den(p);
    assert(ceil_div(n, m) >= 0) by (nonlinear_arith)
        requires
            n >= 0,
            m > 0,
    ;
}

/// A fraction is at most any bound on its value rounded up.
pub proof fn lemma_within_of_ceil(n: int, m: int, bound: int)
    by (nonlinear_arith)
    requires
        n >= 0,
        m > 0,
        ceil_div(n, m) <= bound,
    ensures
        n <= bound * m,
{
}

/// The distance from a point in range to a segment, rounded up, fits in
/// thirty-three bits.
pub proof fn lemma_edge_distance_bounded(e: Edge, p: Point)
    requires
        e.wf(),
        p.in_range(),
    ensures
        0 <= e.spec_distance(p, Rounding::Up) <= 0x1_0000_0000,
{
    let dx = e.end.0 - e.start.0;
    let dy = e.end.1 - e.start.1;
    let wx = p.0 - e.start.0;
    let wy = p.1 - e.start.1;
    let len2 = dx * dx + dy * dy;
    let nw = wx * wx + wy * wy;
    let t = dot(wx, wy, dx, dy);
    let c = cross(dx, dy, wx, wy);
    lemma_edge_measure(e, p);
    let n = e.sq_distance_num(p);
    let m = e.sq_distance_den(p);
    lemma_mul_bound(wx, wx, 0x8000_0000, 0x8000_0000);
    lemma_mul_bound(wy, wy, 0x8000_0000, 0x8000_0000);
    let vx = p.0 - e.end.0;
    let vy = p.1 - e.end.1;
    lemma_mul_bound(vx, vx, 0x8000_0000, 0x8000_0000);
    lemma_mul_bound(vy, vy, 0x8000_0000, 0x8000_0000);
    let limit: int = 0x8000_0000_0000_0000;
    assert(0x8000_0000int * 0x8000_0000int == 0x4000_0000_0000_0000int);
    assert(ceil_div(n, m) <= limit) by {
        if t <= 0 {
            assert(n == nw && m == 1);
            assert(ceil_div(n, 1) == n);
        } else if t >= len2 {
            assert(n == vx * vx + vy * vy && m == 1);
            assert(ceil_div(n, 1) == n);
        } else {
            lemma_lagrange(dx, dy, wx, wy);
            assert(t * t >= 0) by (nonlinear_arith);
            assert(n == c * c && m == len2);
            assert(nw * len2 == nw * m);
            lemma_quotient_bound(n, m, nw);
        }
    }
    assert(0x1_0000_0000int * 0x1_0000_0000int >= limit);
    lemma_ceil_root_at_most(ceil_div(n, m), 0x1_0000_0000);
    lemma_ceil_root_exists(ceil_div(n, m));
}

} // verus!
