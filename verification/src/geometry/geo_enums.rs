//! Small enumerations shared by the geometric primitives.

use vstd::prelude::*;
use crate::geometry::transformation::Rotation;

verus! {

/// Which side of a shape's border a point lies on.
#[derive(Clone, Copy, Debug, PartialEq, Eq, Structural)]
pub enum GeoPosition {
    Exterior,
    Interior,
}

impl GeoPosition {
    /// The opposite side.
    pub fn inverse(&self) -> (r: GeoPosition)
        ensures
            r == self.spec_inverse(),
    {
        match self {
            GeoPosition::Exterior => GeoPosition::Interior,
            GeoPosition::Interior => GeoPosition::Exterior,
        }
    }

    pub open spec fn spec_inverse(self) -> GeoPosition {
        match self {
            GeoPosition::Exterior => GeoPosition::Interior,
            GeoPosition::Interior => GeoPosition::Exterior,
        }
    }
}

/// The rotations under which an item may be placed.
#[derive(Debug)]
pub enum AllowedRotation {
    /// Only as given.
    NoRotation,
    /// Under any rotation.
    Continuous,
    /// Under one of the listed rotations.
    Discrete(Vec<Rotation>),
}

/// The rotations under which an item may be placed, as mathematical values.
pub enum AllowedRotationView {
    NoRotation,
    Continuous,
    Discrete(Seq<Rotation>),
}

impl View for AllowedRotation {
    type V = AllowedRotationView;

    open spec fn view(&self) -> AllowedRotationView {
        match self {
            AllowedRotation::NoRotation => AllowedRotationView::NoRotation,
            AllowedRotation::Continuous => AllowedRotationView::Continuous,
            AllowedRotation::Discrete(v) => AllowedRotationView::Discrete(v@),
        }
    }
}

impl AllowedRotation {
    /// A copy of the value.
    pub fn clone_rotation(&self) -> (r: AllowedRotation)
        ensures
            r@ == self@,
    {
        match self {
            AllowedRotation::NoRotation => AllowedRotation::NoRotation,
            AllowedRotation::Continuous => AllowedRotation::Continuous,
            AllowedRotation::Discrete(v) => {
                let mut w: Vec<Rotation> = Vec::new();
                let mut i: usize = 0;
                while i < v.len()
                    invariant
                        i <= v.len(),
                        w@ == v@.subrange(0, i as int),
                    decreases v.len() - i,
                {
                    w.push(v[i]);
                    assert(w@ =~= v@.subrange(0, i as int + 1));
                    i += 1;
                }
                assert(w@ =~= v@);
                AllowedRotation::Discrete(w)
            },
        }
    }
}

/// The direction in which a Euclidean length is rounded to a whole number
/// of units.
#[derive(Clone, Copy, Debug, PartialEq, Eq, Structural)]
pub enum Rounding {
    /// The largest integer not above the length.
    Down,
    /// The smallest integer not below the length.
    Up,
}

/// The root of `n`, rounded as asked.
pub open spec fn rounded_root(n: int, rounding: Rounding) -> int {
    match rounding {
        Rounding::Down => crate::geometry::arith::floor_root(n),
        Rounding::Up => crate::geometry::arith::ceil_root(n),
    }
}

} // verus!
