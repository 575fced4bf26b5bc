//! Axis-aligned rectangles.

use vstd::prelude::*;
use crate::geometry::arith::{ceil_root, lemma_mul_bound, square_i64};
use crate::geometry::geo_enums::Rounding;
use crate::geometry::point::{root_of, Point, COORD_MAX};

verus! {

/// The closed rectangle `[x_min, x_max] x [y_min, y_max]`.
#[derive(Clone, Copy, Debug, PartialEq, Eq, Structural)]
pub struct AARectangle {
    pub x_min: i64,
    pub y_min: i64,
    pub x_max: i64,
    pub y_max: i64,
}

impl AARectangle {
    /// The corners are in range and ordered.
    pub open spec fn wf(self) -> bool {
        &&& -COORD_MAX <= self.x_min <= self.x_max <= COORD_MAX
        &&& -COORD_MAX <= self.y_min <= self.y_max <= COORD_MAX
    }

    /// The rectangle with the given bounds, unless they are out of range or
    /// out of order.
    pub fn new(x_min: i64, y_min: i64, x_max: i64, y_max: i64) -> (r: Option<AARectangle>)
        ensures
            r == if (AARectangle { x_min, y_min, x_max, y_max }).wf() {
                Some(AARectangle { x_min, y_min, x_max, y_max })
            } else {
                None::<AARectangle>
            },
    {
        if -COORD_MAX <= x_min && x_min <= x_max && x_max <= COORD_MAX && -COORD_MAX <= y_min
            && y_min <= y_max && y_max <= COORD_MAX {
            Some(AARectangle { x_min, y_min, x_max, y_max })
        } else {
            None
        }
    }

    pub open spec fn spec_width(self) -> int {
        self.x_max - self.x_min
    }

    pub open spec fn spec_height(self) -> int {
        self.y_max - self.y_min
    }

    pub fn width(&self) -> (w: i64)
        requires
            self.wf(),
        ensures
            w == self.spec_width(),
            0 <= w <= 2 * COORD_MAX,
    {
        self.x_max - self.x_min
    }

    pub fn height(&self) -> (h: i64)
        requires
            self.wf(),
        ensures
            h == self.spec_height(),
            0 <= h <= 2 * COORD_MAX,
    {
        self.y_max - self.y_min
    }

    /// The area, in square units.
    pub open spec fn spec_area(self) -> int {
        self.spec_width() * self.spec_height()
    }

    pub fn area(&self) -> (a: u64)
        requires
            self.wf(),
        ensures
            a == self.spec_area(),
            a <= 0x4000_0000_0000_0000,
    {
        let w: i64 = self.width();
        let h: i64 = self.height();
        proof {
            lemma_mul_bound(w as int, h as int, 0x8000_0000, 0x8000_0000);
            assert(w * h >= 0) by (nonlinear_arith)
                requires
                    w >= 0,
                    h >= 0,
            ;
        }
        (w * h) as u64
    }

    /// The lattice point at the middle of the rectangle, rounded towards the
    /// lower left corner.
    pub open spec fn spec_centroid(self) -> Point {
        Point(
            (self.x_min + (self.x_max - self.x_min) / 2) as i64,
            (self.y_min + (self.y_max - self.y_min) / 2) as i64,
        )
    }

    pub fn centroid(&self) -> (c: Point)
        requires
            self.wf(),
        ensures
            c == self.spec_centroid(),
            c.in_range(),
            self.spec_collides_with(c),
    {
        Point(self.x_min + (self.x_max - self.x_min) / 2, self.y_min + (self.y_max - self.y_min) / 2)
    }

    /// The squared distance from the centroid to the farthest corner.
    pub open spec fn spec_sq_radius(self) -> int {
        let hw = self.spec_width() - self.spec_width() / 2;
        let hh = self.spec_height() - self.spec_height() / 2;
        hw * hw + hh * hh
    }

    /// The distance from the centroid to the farthest corner, rounded up: no
    /// point of the rectangle is farther from the centroid.
    pub open spec fn spec_radius(self) -> int {
        ceil_root(self.spec_sq_radius())
    }

    pub fn radius(&self) -> (r: i64)
        requires
            self.wf(),
        ensures
            r == self.spec_radius(),
            0 <= r <= 0x1_0000_0000,
    {
        let w: i64 = self.width();
        let h: i64 = self.height();
        let hw: i64 = w - w / 2;
        let hh: i64 = h - h / 2;
        proof {
            lemma_mul_bound(hw as int, hw as int, 0x8000_0000, 0x8000_0000);
            lemma_mul_bound(hh as int, hh as int, 0x8000_0000, 0x8000_0000);
        }
        let sq: u128 = square_i64(hw) + square_i64(hh);
        root_of(sq, Rounding::Up)
    }

    /// The squared length of the diagonal.
    pub open spec fn spec_sq_diameter(self) -> int {
        self.spec_width() * self.spec_width() + self.spec_height() * self.spec_height()
    }

    /// The length of the diagonal, rounded as asked.
    pub fn diameter(&self, rounding: Rounding) -> (d: i64)
        requires
            self.wf(),
        ensures
            d == crate::geometry::geo_enums::rounded_root(self.spec_sq_diameter(), rounding),
            0 <= d <= 0x1_0000_0000,
    {
        let w: i64 = self.width();
        let h: i64 = self.height();
        proof {
            lemma_mul_bound(w as int, w as int, 0x8000_0000, 0x8000_0000);
            lemma_mul_bound(h as int, h as int, 0x8000_0000, 0x8000_0000);
        }
        let sq: u128 = square_i64(w) + square_i64(h);
        root_of(sq, rounding)
    }

    /// Whether `p` lies in the closed rectangle.
    pub open spec fn spec_collides_with(self, p: Point) -> bool {
        self.x_min <= p.0 <= self.x_max && self.y_min <= p.1 <= self.y_max
    }

    pub fn collides_with(&self, p: &Point) -> (r: bool)
        ensures
            r == self.spec_collides_with(*p),
    {
        self.x_min <= p.0 && p.0 <= self.x_max && self.y_min <= p.1 && p.1 <= self.y_max
    }

    /// Whether the two closed rectangles share a point.
    pub open spec fn spec_overlaps(self, other: AARectangle) -> bool {
        self.x_min <= other.x_max && other.x_min <= self.x_max && self.y_min <= other.y_max
            && other.y_min <= self.y_max
    }

    pub fn overlaps(&self, other: &AARectangle) -> (r: bool)
        ensures
            r == self.spec_overlaps(*other),
    {
        self.x_min <= other.x_max && other.x_min <= self.x_max && self.y_min <= other.y_max
            && other.y_min <= self.y_max
    }

    /// Whether `other` lies within this rectangle.
    pub open spec fn spec_contains(self, other: AARectangle) -> bool {
        self.x_min <= other.x_min && other.x_max <= self.x_max && self.y_min <= other.y_min
            && other.y_max <= self.y_max
    }

    pub fn contains(&self, other: &AARectangle) -> (r: bool)
        ensures
            r == self.spec_contains(*other),
    {
        self.x_min <= other.x_min && other.x_max <= self.x_max && self.y_min <= other.y_min
            && other.y_max <= self.y_max
    }

    /// The four parts into which the centroid's axes cut the rectangle, in the
    /// order of the Cartesian quadrants around the centroid.
    pub open spec fn spec_quadrants(self) -> Seq<AARectangle> {
        let c = self.spec_centroid();
        seq![
            AARectangle { x_min: c.0, y_min: c.1, x_max: self.x_max, y_max: self.y_max },
            AARectangle { x_min: self.x_min, y_min: c.1, x_max: c.0, y_max: self.y_max },
            AARectangle { x_min: self.x_min, y_min: self.y_min, x_max: c.0, y_max: c.1 },
            AARectangle { x_min: c.0, y_min: self.y_min, x_max: self.x_max, y_max: c.1 },
        ]
    }

    pub fn quadrants(&self) -> (q: [AARectangle; 4])
        requires
            self.wf(),
        ensures
            q@ == self.spec_quadrants(),
            forall|i: int| 0 <= i < 4 ==> (#[trigger] q@[i]).wf() && self.spec_contains(q@[i]),
    {
        let c: Point = self.centroid();
        let q: [AARectangle; 4] = [
            AARectangle { x_min: c.0, y_min: c.1, x_max: self.x_max, y_max: self.y_max },
            AARectangle { x_min: self.x_min, y_min: c.1, x_max: c.0, y_max: self.y_max },
            AARectangle { x_min: self.x_min, y_min: self.y_min, x_max: c.0, y_max: c.1 },
            AARectangle { x_min: c.0, y_min: self.y_min, x_max: self.x_max, y_max: c.1 },
        ];
        assert(q@ =~= self.spec_quadrants());
        q
    }

    /// The smallest square around the rectangle that shares its middle, up to
    /// one unit of rounding.
    pub open spec fn spec_inflate_to_square(self) -> AARectangle {
        let w = self.spec_width();
        let h = self.spec_height();
        if h < w {
            let d = (w - h) / 2;
            AARectangle {
                x_min: self.x_min,
                y_min: (self.y_min - d) as i64,
                x_max: self.x_max,
                y_max: (self.y_min - d + w) as i64,
            }
        } else {
            let d = (h - w) / 2;
            AARectangle {
                x_min: (self.x_min - d) as i64,
                y_min: self.y_min,
                x_max: (self.x_min - d + h) as i64,
                y_max: self.y_max,
            }
        }
    }

    pub fn inflate_to_square(&self) -> (r: AARectangle)
        requires
            self.wf(),
            Point(self.x_min, self.y_min).is_vertex(),
            Point(self.x_max, self.y_max).is_vertex(),
        ensures
            r == self.spec_inflate_to_square(),
            r.wf(),
            r.spec_contains(*self),
            r.spec_width() == r.spec_height(),
    {
        let w: i64 = self.width();
        let h: i64 = self.height();
        if h < w {
            let d: i64 = (w - h) / 2;
            AARectangle {
                x_min: self.x_min,
                y_min: self.y_min - d,
                x_max: self.x_max,
                y_max: self.y_min - d + w,
            }
        } else {
            let d: i64 = (h - w) / 2;
            AARectangle {
                x_min: self.x_min - d,
                y_min: self.y_min,
                x_max: self.x_min - d + h,
                y_max: self.y_max,
            }
        }
    }
}

} // verus!
