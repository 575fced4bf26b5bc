//! Whether two outlines meet.

use vstd::prelude::*;
use crate::geometry::outline::{chain_contains, edge_at};
use crate::geometry::point::Point;

verus! {

/// Whether an edge of `a` meets an edge of `b`.
pub open spec fn edges_meet(a: Seq<Point>, b: Seq<Point>) -> bool {
    exists|i: int, j: int|
        0 <= i < a.len() && 0 <= j < b.len() && (#[trigger] edge_at(a, i)).spec_collides_with(
            #[trigger] edge_at(b, j),
        )
}

/// Whether the two outlines, taken as the polygons they enclose, share a
/// point: an edge of one meets an edge of the other, or the first vertex of
/// one lies inside the other.
pub open spec fn shapes_overlap(a: Seq<Point>, b: Seq<Point>) -> bool {
    edges_meet(a, b) || chain_contains(b, a[0]) || chain_contains(a, b[0])
}

/// Whether the polygon of outline `a` has a point on or outside the outline
/// `container`: an edge of one meets an edge of the other, or the first
/// vertex of `a` does not lie inside `container`.
pub open spec fn shape_leaves(a: Seq<Point>, container: Seq<Point>) -> bool {
    edges_meet(a, container) || !chain_contains(container, a[0])
}

} // verus!
