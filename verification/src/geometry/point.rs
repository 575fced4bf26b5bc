//! Lattice points.

use vstd::prelude::*;
use crate::geometry::arith::{lemma_mul_bound, sqrt_ceil, sqrt_floor, square_i64};
use crate::geometry::geo_enums::{rounded_root, Rounding};

verus! {

/// Largest absolute value of a coordinate that the arithmetic accepts.
pub const COORD_MAX: i64 = 1_073_741_824;

/// Largest absolute value of a coordinate of a shape's vertex. Boxes and
/// centres derived from shapes within this bound stay within `COORD_MAX`.
pub const VERTEX_MAX: i64 = 536_870_912;

/// A point of the lattice.
#[derive(Clone, Copy, Debug, PartialEq, Eq, Structural, Hash)]
pub struct Point(pub i64, pub i64);

/// Squared Euclidean distance between two points.
pub open spec fn sq_dist(a: Point, b: Point) -> int {
    (a.0 - b.0) * (a.0 - b.0) + (a.1 - b.1) * (a.1 - b.1)
}

/// Euclidean distance between two points, rounded to whole units.
pub open spec fn dist(a: Point, b: Point, rounding: Rounding) -> int {
    rounded_root(sq_dist(a, b), rounding)
}

impl Point {
    /// Both coordinates are within `COORD_MAX` of the origin.
    pub open spec fn in_range(self) -> bool {
        -COORD_MAX <= self.0 <= COORD_MAX && -COORD_MAX <= self.1 <= COORD_MAX
    }

    /// Both coordinates are within `VERTEX_MAX` of the origin.
    pub open spec fn is_vertex(self) -> bool {
        -VERTEX_MAX <= self.0 <= VERTEX_MAX && -VERTEX_MAX <= self.1 <= VERTEX_MAX
    }

    /// Tells whether the point can be used in distance computations.
    pub fn check_in_range(&self) -> (r: bool)
        ensures
            r == self.in_range(),
    {
        -COORD_MAX <= self.0 && self.0 <= COORD_MAX && -COORD_MAX <= self.1 && self.1
            <= COORD_MAX
    }

    /// Tells whether the point can be a vertex of a shape.
    pub fn check_is_vertex(&self) -> (r: bool)
        ensures
            r == self.is_vertex(),
    {
        -VERTEX_MAX <= self.0 && self.0 <= VERTEX_MAX && -VERTEX_MAX <= self.1 && self.1
            <= VERTEX_MAX
    }

    /// Squared Euclidean distance to `other`.
    pub fn sq_distance(&self, other: &Point) -> (d: u64)
        requires
            self.in_range(),
            other.in_range(),
        ensures
            d == sq_dist(*self, *other),
            d <= 0x8000_0000_0000_0000,
    {
        let dx: i64 = self.0 - other.0;
        let dy: i64 = self.1 - other.1;
        let sx: u128 = square_i64(dx);
        let sy: u128 = square_i64(dy);
        proof {
            lemma_mul_bound(dx as int, dx as int, 0x8000_0000, 0x8000_0000);
            lemma_mul_bound(dy as int, dy as int, 0x8000_0000, 0x8000_0000);
        }
        (sx + sy) as u64
    }

    /// Euclidean distance to `other`, rounded as asked.
    pub fn distance(&self, other: &Point, rounding: Rounding) -> (d: i64)
        requires
            self.in_range(),
            other.in_range(),
        ensures
            d == dist(*self, *other, rounding),
            0 <= d <= 0x1_0000_0000,
    {
        let sq: u64 = self.sq_distance(other);
        root_of(sq as u128, rounding)
    }
}

/// The root of a squared length no larger than 2^64, rounded as asked.
pub fn root_of(sq: u128, rounding: Rounding) -> (d: i64)
    requires
        sq <= 0x1_0000_0000_0000_0000,
    ensures
        d == rounded_root(sq as int, rounding),
        0 <= d <= 0x1_0000_0000,
        rounding == Rounding::Down ==> crate::geometry::arith::is_floor_root(sq as int, d as int),
        rounding == Rounding::Up ==> crate::geometry::arith::is_ceil_root(sq as int, d as int),
{
    match rounding {
        Rounding::Down => {
            let r: u64 = sqrt_floor(sq);
            proof {
                if r > 0x1_0000_0000 {
                    crate::geometry::arith::lemma_square_monotone(0x1_0000_0001, r as int);
                }
            }
            r as i64
        },
        Rounding::Up => {
            let r: u128 = sqrt_ceil(sq);
            proof {
                if r > 0x1_0000_0000 {
                    crate::geometry::arith::lemma_square_monotone(0x1_0000_0000, r as int - 1);
                }
            }
            r as i64
        },
    }
}

} // verus!
