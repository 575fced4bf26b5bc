//! An instance as it is exchanged. Lengths are whole numbers of the
//! caller's unit.

use vstd::prelude::*;
use crate::geometry::transformation::Rotation;

verus! {

/// An instance: items, and either bins or a strip.
#[derive(Debug)]
pub struct JsonInstance {
    pub name: String,
    pub items: Vec<JsonItem>,
    pub bins: Option<Vec<JsonBin>>,
    pub strip: Option<JsonStrip>,
}

/// An item with its demand.
#[derive(Debug)]
pub struct JsonItem {
    /// How many copies are to be placed.
    pub demand: u64,
    /// The name of a drawing of the item, if there is one.
    pub dxf: Option<String>,
    pub value: Option<u64>,
    pub base_quality: Option<usize>,
    /// The rotations under which the item may be placed; none given means
    /// any.
    pub allowed_orientations: Option<Vec<Rotation>>,
    pub shape: Option<JsonShape>,
}

/// A bin with its stock.
#[derive(Debug)]
pub struct JsonBin {
    pub cost: u64,
    /// How many copies are in stock; none given means no limit.
    pub stock: Option<u64>,
    pub shape: Option<JsonShape>,
    pub zones: Vec<JsonQualityZone>,
}

/// A strip of fixed height.
#[derive(Clone, Copy, Debug, PartialEq, Eq, Structural)]
pub struct JsonStrip {
    pub height: i64,
}

/// A shape in one of the forms in which it can be given.
#[derive(Debug)]
pub enum JsonShape {
    /// The rectangle of the given measures with its lower left corner at the
    /// origin.
    Rectangle { width: i64, height: i64 },
    SimplePolygon(JsonSimplePoly),
    Polygon(JsonPoly),
    MultiPolygon(Vec<JsonPoly>),
}

/// A polygon by its vertices; the first may be repeated at the end.
#[derive(Debug)]
pub struct JsonSimplePoly(pub Vec<(i64, i64)>);

/// A polygon with holes.
#[derive(Debug)]
pub struct JsonPoly {
    pub outer: JsonSimplePoly,
    pub inner: Vec<JsonSimplePoly>,
}

/// A zone of inferior quality.
#[derive(Debug)]
pub struct JsonQualityZone {
    pub quality: usize,
    pub shape: JsonShape,
}

} // verus!
