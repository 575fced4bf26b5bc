//! Closed vertex chains: the measurements of a polygon that depend on its
//! vertices alone.

use vstd::prelude::*;
use crate::geometry::aa_rectangle::AARectangle;
use crate::geometry::arith::{floor_div, floor_div_i128, lemma_mul_bound, mul_i64};
use crate::geometry::edge::{cross, Edge};
use crate::geometry::geo_enums::{GeoPosition, Rounding};
use crate::geometry::point::{Point, VERTEX_MAX};

verus! {

/// Largest number of vertices of a polygon.
pub const MAX_VERTICES: usize = 0xFFFF_FFFF;

/// What stands for "no distance yet" when the smallest of several is sought.
pub const DISTANCE_INF: i64 = i64::MAX;

/// The index that follows `i` on a cycle of `n` indices.
pub open spec fn next_index(n: int, i: int) -> int {
    if i + 1 >= n {
        0
    } else {
        i + 1
    }
}

/// The `i`-th edge of the closed chain through `points`.
pub open spec fn edge_at(points: Seq<Point>, i: int) -> Edge {
    Edge { start: points[i], end: points[next_index(points.len() as int, i)] }
}

/// At least three vertices, each within `VERTEX_MAX`, no two neighbours
/// equal.
pub open spec fn chain_ok(points: Seq<Point>) -> bool {
    &&& 3 <= points.len() <= MAX_VERTICES
    &&& forall|i: int| 0 <= i < points.len() ==> (#[trigger] points[i]).is_vertex()
    &&& forall|i: int| 0 <= i < points.len() ==> (#[trigger] edge_at(points, i)).wf()
}

/// The sum of the cross products of the first `k` edges' end points.
pub open spec fn shoelace(points: Seq<Point>, k: nat) -> int
    decreases k,
{
    if k == 0 {
        0
    } else {
        let e = edge_at(points, k - 1);
        shoelace(points, (k - 1) as nat) + cross(
            e.start.0 as int,
            e.start.1 as int,
            e.end.0 as int,
            e.end.1 as int,
        )
    }
}

/// Twice the signed area enclosed by the chain: positive when the vertices
/// run counter-clockwise.
pub open spec fn signed_double_area(points: Seq<Point>) -> int {
    shoelace(points, points.len())
}

/// The sum, over the first `k` edges, of the cross product of the edge's end
/// points times the sum of their `x` coordinates.
pub open spec fn centroid_sum_x(points: Seq<Point>, k: nat) -> int
    decreases k,
{
    if k == 0 {
        0
    } else {
        let e = edge_at(points, k - 1);
        centroid_sum_x(points, (k - 1) as nat) + (e.start.0 + e.end.0) * cross(
            e.start.0 as int,
            e.start.1 as int,
            e.end.0 as int,
            e.end.1 as int,
        )
    }
}

/// The sum, over the first `k` edges, of the cross product of the edge's end
/// points times the sum of their `y` coordinates.
pub open spec fn centroid_sum_y(points: Seq<Point>, k: nat) -> int
    decreases k,
{
    if k == 0 {
        0
    } else {
        let e = edge_at(points, k - 1);
        centroid_sum_y(points, (k - 1) as nat) + (e.start.1 + e.end.1) * cross(
            e.start.0 as int,
            e.start.1 as int,
            e.end.0 as int,
            e.end.1 as int,
        )
    }
}

/// The `x` coordinate of the centre of mass of the enclosed area, rounded
/// down.
pub open spec fn chain_centroid_x(points: Seq<Point>) -> int {
    floor_div(centroid_sum_x(points, points.len()), 3 * signed_double_area(points))
}

/// The `y` coordinate of the centre of mass of the enclosed area, rounded
/// down.
pub open spec fn chain_centroid_y(points: Seq<Point>) -> int {
    floor_div(centroid_sum_y(points, points.len()), 3 * signed_double_area(points))
}

/// Whether the ray from `p` in the direction of growing `x` crosses the
/// edge. An edge counts from its lower end (included) to its upper end
/// (excluded); a horizontal edge is never crossed.
pub open spec fn edge_crosses_ray(e: Edge, p: Point) -> bool {
    let s = cross(e.end.0 - e.start.0, e.end.1 - e.start.1, p.0 - e.start.0, p.1 - e.start.1);
    ||| (e.start.1 <= p.1 && p.1 < e.end.1 && s > 0)
    ||| (e.end.1 <= p.1 && p.1 < e.start.1 && s < 0)
}

/// How many of the first `k` edges the ray from `p` crosses.
pub open spec fn crossings(points: Seq<Point>, p: Point, k: nat) -> nat
    decreases k,
{
    if k == 0 {
        0
    } else {
        crossings(points, p, (k - 1) as nat) + if edge_crosses_ray(edge_at(points, k - 1), p) {
            1nat
        } else {
            0nat
        }
    }
}

/// Whether `p` lies inside the chain, by the parity of the crossings of its
/// ray.
pub open spec fn chain_contains(points: Seq<Point>, p: Point) -> bool {
    crossings(points, p, points.len()) % 2 == 1
}

/// The smaller of two integers.
pub open spec fn min_int(a: int, b: int) -> int {
    if a <= b {
        a
    } else {
        b
    }
}

/// The smallest rounded distance from `p` to one of the first `k` edges, or
/// `DISTANCE_INF` for `k == 0`.
pub open spec fn min_edge_distance(points: Seq<Point>, p: Point, rounding: Rounding, k: nat) -> int
    decreases k,
{
    if k == 0 {
        DISTANCE_INF as int
    } else {
        min_int(
            min_edge_distance(points, p, rounding, (k - 1) as nat),
            edge_at(points, k - 1).spec_distance(p, rounding),
        )
    }
}

/// The rounded distance from `p` to the nearest edge of the chain.
pub open spec fn chain_distance(points: Seq<Point>, p: Point, rounding: Rounding) -> int {
    min_edge_distance(points, p, rounding, points.len())
}

/// The side of the chain on which `p` lies.
pub open spec fn chain_position(points: Seq<Point>, p: Point) -> GeoPosition {
    if chain_contains(points, p) {
        GeoPosition::Interior
    } else {
        GeoPosition::Exterior
    }
}

/// `bbox` is the smallest rectangle around the first `k` points.
pub open spec fn is_bbox_of(points: Seq<Point>, k: int, bbox: AARectangle) -> bool {
    &&& forall|i: int| 0 <= i < k ==> bbox.spec_collides_with(#[trigger] points[i])
    &&& exists|i: int| 0 <= i < k && (#[trigger] points[i]).0 == bbox.x_min
    &&& exists|i: int| 0 <= i < k && (#[trigger] points[i]).0 == bbox.x_max
    &&& exists|i: int| 0 <= i < k && (#[trigger] points[i]).1 == bbox.y_min
    &&& exists|i: int| 0 <= i < k && (#[trigger] points[i]).1 == bbox.y_max
}

/// A set of points has one bounding box.
pub proof fn lemma_bbox_unique(points: Seq<Point>, a: AARectangle, b: AARectangle)
    requires
        is_bbox_of(points, points.len() as int, a),
        is_bbox_of(points, points.len() as int, b),
    ensures
        a == b,
{
}

/// The `i`-th edge of the chain.
pub fn edge_of(points: &Vec<Point>, i: usize) -> (e: Edge)
    requires
        i < points.len(),
    ensures
        e == edge_at(points@, i as int),
{
    let j: usize = if i + 1 >= points.len() {
        0
    } else {
        i + 1
    };
    Edge { start: points[i], end: points[j] }
}

/// Tells whether the chain can be the outline of a polygon.
pub fn check_chain(points: &Vec<Point>) -> (r: bool)
    ensures
        r == chain_ok(points@),
{
    let n: usize = points.len();
    if n < 3 || n > MAX_VERTICES {
        return false;
    }
    let mut i: usize = 0;
    while i < n
        invariant
            n == points.len(),
            3 <= n <= MAX_VERTICES,
            i <= n,
            forall|j: int| 0 <= j < i ==> (#[trigger] points@[j]).is_vertex(),
            forall|j: int| 0 <= j < i ==> points@[j] != points@[next_index(n as int, j)],
        decreases n - i,
    {
        let e: Edge = edge_of(points, i);
        if !e.start.check_is_vertex() || (e.start.0 == e.end.0 && e.start.1 == e.end.1) {
            proof {
                if !e.start.is_vertex() {
                    assert(!points@[i as int].is_vertex());
                } else {
                    assert(!edge_at(points@, i as int).wf());
                }
            }
            return false;
        }
        i += 1;
    }
    proof {
        assert forall|j: int| 0 <= j < points@.len() implies (#[trigger] edge_at(points@, j)).wf() by {
            let k = next_index(n as int, j);
            assert(points@[j].is_vertex());
            assert(points@[k].is_vertex());
        }
    }
    true
}

/// Twice the signed area enclosed by the chain.
pub fn compute_signed_double_area(points: &Vec<Point>) -> (a: i128)
    requires
        chain_ok(points@),
    ensures
        a == signed_double_area(points@),
        -(points@.len() * 0x800_0000_0000_0000) <= a <= points@.len() * 0x800_0000_0000_0000,
{
    let n: usize = points.len();
    let mut acc: i128 = 0;
    let mut i: usize = 0;
    while i < n
        invariant
            n == points.len(),
            chain_ok(points@),
            i <= n,
            acc == shoelace(points@, i as nat),
            -(i * 0x800_0000_0000_0000) <= acc <= i * 0x800_0000_0000_0000,
        decreases n - i,
    {
        let e: Edge = edge_of(points, i);
        proof {
            assert(edge_at(points@, i as int).wf());
            assert(points@[i as int].is_vertex());
            assert(points@[next_index(n as int, i as int)].is_vertex());
            lemma_mul_bound(e.start.0 as int, e.end.1 as int, 0x2000_0000, 0x2000_0000);
            lemma_mul_bound(e.start.1 as int, e.end.0 as int, 0x2000_0000, 0x2000_0000);
        }
        let c: i128 = mul_i64(e.start.0, e.end.1) - mul_i64(e.start.1, e.end.0);
        acc = acc + c;
        i += 1;
    }
    acc
}

/// The centre of mass of the enclosed area, each coordinate rounded down.
pub fn compute_centroid(points: &Vec<Point>, area2: i128) -> (c: (i128, i128))
    requires
        chain_ok(points@),
        area2 == signed_double_area(points@),
        area2 != 0,
        -(points@.len() * 0x800_0000_0000_0000) <= area2 <= points@.len() * 0x800_0000_0000_0000,
    ensures
        c.0 == chain_centroid_x(points@),
        c.1 == chain_centroid_y(points@),
{
    let n: usize = points.len();
    let mut sx: i128 = 0;
    let mut sy: i128 = 0;
    let mut i: usize = 0;
    while i < n
        invariant
            n == points.len(),
            chain_ok(points@),
            i <= n,
            sx == centroid_sum_x(points@, i as nat),
            sy == centroid_sum_y(points@, i as nat),
            -(i * 0x2000_0000_0000_0000_0000_0000) <= sx <= i * 0x2000_0000_0000_0000_0000_0000,
            -(i * 0x2000_0000_0000_0000_0000_0000) <= sy <= i * 0x2000_0000_0000_0000_0000_0000,
        decreases n - i,
    {
        let e: Edge = edge_of(points, i);
        proof {
            assert(edge_at(points@, i as int).wf());
            assert(points@[i as int].is_vertex());
            assert(points@[next_index(n as int, i as int)].is_vertex());
            lemma_mul_bound(e.start.0 as int, e.end.1 as int, 0x2000_0000, 0x2000_0000);
            lemma_mul_bound(e.start.1 as int, e.end.0 as int, 0x2000_0000, 0x2000_0000);
        }
        let c: i128 = mul_i64(e.start.0, e.end.1) - mul_i64(e.start.1, e.end.0);
        let wx: i128 = (e.start.0 + e.end.0) as i128;
        let wy: i128 = (e.start.1 + e.end.1) as i128;
        proof {
            lemma_mul_bound(wx as int, c as int, 0x4000_0000, 0x800_0000_0000_0000);
            lemma_mul_bound(wy as int, c as int, 0x4000_0000, 0x800_0000_0000_0000);
        }
        sx = sx + wx * c;
        sy = sy + wy * c;
        i += 1;
    }
    let ghost a = signed_double_area(points@);
    let den: i128 = 3 * area2;
    (floor_div_i128(sx, den), floor_div_i128(sy, den))
}

/// The bounding box of the chain's vertices.
pub fn compute_bbox(points: &Vec<Point>) -> (b: AARectangle)
    requires
        chain_ok(points@),
    ensures
        is_bbox_of(points@, points@.len() as int, b),
        b.wf(),
        Point(b.x_min, b.y_min).is_vertex(),
        Point(b.x_max, b.y_max).is_vertex(),
{
    let n: usize = points.len();
    let first: Point = points[0];
    assert(points@[0].is_vertex());
    let mut b: AARectangle = AARectangle { x_min: first.0, y_min: first.1, x_max: first.0, y_max: first.1 };
    let mut i: usize = 1;
    while i < n
        invariant
            n == points.len(),
            chain_ok(points@),
            1 <= i <= n,
            is_bbox_of(points@, i as int, b),
            Point(b.x_min, b.y_min).is_vertex(),
            Point(b.x_max, b.y_max).is_vertex(),
            b.x_min <= b.x_max,
            b.y_min <= b.y_max,
        decreases n - i,
    {
        let p: Point = points[i];
        assert(points@[i as int].is_vertex());
        let ghost old_b = b;
        let ghost wx0 = choose|j: int| 0 <= j < i && (#[trigger] points@[j]).0 == old_b.x_min;
        let ghost wx1 = choose|j: int| 0 <= j < i && (#[trigger] points@[j]).0 == old_b.x_max;
        let ghost wy0 = choose|j: int| 0 <= j < i && (#[trigger] points@[j]).1 == old_b.y_min;
        let ghost wy1 = choose|j: int| 0 <= j < i && (#[trigger] points@[j]).1 == old_b.y_max;
        if p.0 < b.x_min {
            b.x_min = p.0;
        }
        if p.0 > b.x_max {
            b.x_max = p.0;
        }
        if p.1 < b.y_min {
            b.y_min = p.1;
        }
        if p.1 > b.y_max {
            b.y_max = p.1;
        }
        proof {
            let k = i as int;
            assert forall|j: int| 0 <= j < k + 1 implies b.spec_collides_with(
                #[trigger] points@[j],
            ) by {
                if j < k {
                    assert(old_b.spec_collides_with(points@[j]));
                }
            }
            let ix0 = if points@[k].0 == b.x_min { k } else { wx0 };
            let ix1 = if points@[k].0 == b.x_max { k } else { wx1 };
            let iy0 = if points@[k].1 == b.y_min { k } else { wy0 };
            let iy1 = if points@[k].1 == b.y_max { k } else { wy1 };
            assert(0 <= ix0 < k + 1 && points@[ix0].0 == b.x_min);
            assert(0 <= ix1 < k + 1 && points@[ix1].0 == b.x_max);
            assert(0 <= iy0 < k + 1 && points@[iy0].1 == b.y_min);
            assert(0 <= iy1 < k + 1 && points@[iy1].1 == b.y_max);
        }
        i += 1;
    }
    b
}

/// Whether `p` lies inside the chain.
pub fn compute_contains(points: &Vec<Point>, p: &Point) -> (r: bool)
    requires
        chain_ok(points@),
        p.in_range(),
    ensures
        r == chain_contains(points@, *p),
{
    let n: usize = points.len();
    let mut odd: bool = false;
    let mut i: usize = 0;
    while i < n
        invariant
            n == points.len(),
            chain_ok(points@),
            p.in_range(),
            i <= n,
            odd == (crossings(points@, *p, i as nat) % 2 == 1),
        decreases n - i,
    {
        let e: Edge = edge_of(points, i);
        proof {
            assert(edge_at(points@, i as int).wf());
        }
        let up: bool = e.start.1 <= p.1 && p.1 < e.end.1;
        let down: bool = e.end.1 <= p.1 && p.1 < e.start.1;
        if up || down {
            let dx: i64 = e.end.0 - e.start.0;
            let dy: i64 = e.end.1 - e.start.1;
            let wx: i64 = p.0 - e.start.0;
            let wy: i64 = p.1 - e.start.1;
            proof {
                lemma_mul_bound(dx as int, wy as int, 0x8000_0000, 0x8000_0000);
                lemma_mul_bound(dy as int, wx as int, 0x8000_0000, 0x8000_0000);
            }
            let s: i128 = mul_i64(dx, wy) - mul_i64(dy, wx);
            if (up && s > 0) || (down && s < 0) {
                odd = !odd;
            }
        }
        i += 1;
    }
    odd
}

/// The rounded distance from `p` to the nearest edge of the chain.
pub fn compute_distance(points: &Vec<Point>, p: &Point, rounding: Rounding) -> (d: i64)
    requires
        chain_ok(points@),
        p.in_range(),
    ensures
        d == chain_distance(points@, *p, rounding),
        0 <= d <= 0x1_0000_0000,
{
    let n: usize = points.len();
    let mut best: i64 = DISTANCE_INF;
    let mut i: usize = 0;
    while i < n
        invariant
            n == points.len(),
            chain_ok(points@),
            p.in_range(),
            i <= n,
            best == min_edge_distance(points@, *p, rounding, i as nat),
            0 <= best,
            i > 0 ==> best <= 0x1_0000_0000,
        decreases n - i,
    {
        let e: Edge = edge_of(points, i);
        proof {
            assert(edge_at(points@, i as int).wf());
        }
        let d: i64 = e.distance(p, rounding);
        if d < best {
            best = d;
        }
        i += 1;
    }
    best
}

} // verus!
