//! A solution as it is exchanged.

use vstd::prelude::*;
use crate::entities::layout::Usage;
use crate::geometry::point::Point;
use crate::geometry::transformation::Rotation;

verus! {

/// A solution: its layouts, the share of the bins' area in use, and the
/// time it took.
#[derive(Debug)]
pub struct JsonSolution {
    pub usage: Usage,
    pub run_time_sec: u64,
    pub layouts: Vec<JsonLayout>,
}

/// A layout: a container and the items placed in it.
#[derive(Debug)]
pub struct JsonLayout {
    pub container: JsonContainer,
    pub placed_items: Vec<JsonPlacedItem>,
    pub statistics: JsonLayoutStats,
}

/// The container of a layout.
#[derive(Clone, Copy, Debug, PartialEq, Eq, Structural)]
pub enum JsonContainer {
    /// A copy of the bin at position `index` of the instance.
    Bin { index: usize },
    /// A strip of the given measures.
    Strip { width: i64, height: i64 },
}

/// An item placed in a layout.
#[derive(Clone, Copy, Debug, PartialEq, Eq, Structural)]
pub struct JsonPlacedItem {
    /// The position of the item in the instance.
    pub index: usize,
    /// The motion that takes the item's shape, as the instance gives it, to
    /// its place in the container, as the instance gives it.
    pub transformation: JsonTransformation,
}

/// A motion: a rotation and the translation that follows it.
#[derive(Clone, Copy, Debug, PartialEq, Eq, Structural)]
pub struct JsonTransformation {
    pub rotation: Rotation,
    pub translation: Point,
}

/// What is measured of a layout.
#[derive(Clone, Copy, Debug, PartialEq, Eq, Structural)]
pub struct JsonLayoutStats {
    pub usage: Usage,
}

} // verus!
