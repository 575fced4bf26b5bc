//! Disks around lattice points.

use vstd::prelude::*;
use crate::geometry::arith::lemma_mul_bound;
use crate::geometry::geo_enums::{rounded_root, GeoPosition, Rounding};
use crate::geometry::point::{root_of, sq_dist, Point};

verus! {

/// Largest radius of a circle.
pub const RADIUS_MAX: i64 = 0x2_0000_0000;

/// The closed disk of the given radius around `center`.
#[derive(Clone, Copy, Debug, PartialEq, Eq, Structural)]
pub struct Circle {
    pub center: Point,
    pub radius: i64,
}

impl Circle {
    /// The centre is in range and the radius is between zero and `RADIUS_MAX`.
    pub open spec fn wf(self) -> bool {
        self.center.in_range() && 0 <= self.radius <= RADIUS_MAX
    }

    /// The disk of the given radius around `center`, unless the centre is out of
    /// range or the radius is negative or above `RADIUS_MAX`.
    pub fn new(center: Point, radius: i64) -> (r: Option<Circle>)
        ensures
            r == if (Circle { center, radius }).wf() {
                Some(Circle { center, radius })
            } else {
                None::<Circle>
            },
    {
        if center.check_in_range() && 0 <= radius && radius <= RADIUS_MAX {
            Some(Circle { center, radius })
        } else {
            None
        }
    }

    /// Whether `p` lies in the closed disk.
    pub open spec fn spec_collides_with(self, p: Point) -> bool {
        sq_dist(self.center, p) <= self.radius * self.radius
    }

    pub fn collides_with(&self, p: &Point) -> (r: bool)
        requires
            self.wf(),
            p.in_range(),
        ensures
            r == self.spec_collides_with(*p),
    {
        let sq: u64 = self.center.sq_distance(p);
        proof {
            lemma_mul_bound(self.radius as int, self.radius as int, 0x2_0000_0000, 0x2_0000_0000);
        }
        let r2: u128 = (self.radius as u128) * (self.radius as u128);
        (sq as u128) <= r2
    }

    /// The side of the circle on which `p` lies; the circle itself counts as
    /// interior.
    pub open spec fn spec_position(self, p: Point) -> GeoPosition {
        if self.spec_collides_with(p) {
            GeoPosition::Interior
        } else {
            GeoPosition::Exterior
        }
    }

    /// The distance from `p` to the circle, rounded to whole units: the
    /// rounding applies to the Euclidean length between `p` and the nearest
    /// point of the circle.
    pub open spec fn spec_border_distance(self, p: Point, rounding: Rounding) -> int {
        if self.spec_collides_with(p) {
            match rounding {
                Rounding::Down => self.radius - rounded_root(sq_dist(self.center, p), Rounding::Up),
                Rounding::Up => self.radius - rounded_root(
                    sq_dist(self.center, p),
                    Rounding::Down,
                ),
            }
        } else {
            rounded_root(sq_dist(self.center, p), rounding) - self.radius
        }
    }

    /// On which side of the circle `p` lies, and how far from it.
    pub fn distance_from_border(&self, p: &Point, rounding: Rounding) -> (r: (GeoPosition, i64))
        requires
            self.wf(),
            p.in_range(),
        ensures
            r.0 == self.spec_position(*p),
            r.1 == self.spec_border_distance(*p, rounding),
            0 <= r.1 <= 0x2_0000_0000,
            r.0 == GeoPosition::Exterior ==> r.1 <= 0x1_0000_0000,
    {
        let sq: u64 = self.center.sq_distance(p);
        proof {
            lemma_mul_bound(self.radius as int, self.radius as int, 0x2_0000_0000, 0x2_0000_0000);
        }
        let r2: u128 = (self.radius as u128) * (self.radius as u128);
        if (sq as u128) <= r2 {
            let opposite: Rounding = match rounding {
                Rounding::Down => Rounding::Up,
                Rounding::Up => Rounding::Down,
            };
            let d: i64 = root_of(sq as u128, opposite);
            proof {
                if d > self.radius {
                    match opposite {
                        Rounding::Down => {
                            crate::geometry::arith::lemma_square_strict(
                                self.radius as int,
                                d as int,
                            );
                        },
                        Rounding::Up => {
                            crate::geometry::arith::lemma_square_monotone(
                                self.radius as int,
                                d as int - 1,
                            );
                        },
                    }
                }
            }
            (GeoPosition::Interior, self.radius - d)
        } else {
            let d: i64 = root_of(sq as u128, rounding);
            proof {
                if d < self.radius {
                    match rounding {
                        Rounding::Down => {
                            crate::geometry::arith::lemma_square_monotone(
                                d as int + 1,
                                self.radius as int,
                            );
                        },
                        Rounding::Up => {
                            crate::geometry::arith::lemma_square_strict(
                                d as int,
                                self.radius as int,
                            );
                        },
                    }
                }
            }
            (GeoPosition::Exterior, d - self.radius)
        }
    }

    /// The distance from `p` to the disk: zero inside it, else the distance to
    /// the circle rounded up.
    pub open spec fn spec_proximity(self, p: Point) -> int {
        if self.spec_collides_with(p) {
            0
        } else {
            rounded_root(sq_dist(self.center, p), Rounding::Up) - self.radius
        }
    }

    pub fn proximity(&self, p: &Point) -> (d: i64)
        requires
            self.wf(),
            p.in_range(),
        ensures
            d == self.spec_proximity(*p),
            0 <= d <= 0x1_0000_0000,
    {
        let r: (GeoPosition, i64) = self.distance_from_border(p, Rounding::Up);
        match r.0 {
            GeoPosition::Interior => 0,
            GeoPosition::Exterior => r.1,
        }
    }
}

} // verus!
