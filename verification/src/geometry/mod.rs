//! Lattice primitives: points, edges, rectangles, circles and polygons.

pub mod aa_rectangle;
pub mod arith;
pub mod circle;
pub mod edge;
pub mod fail_fast;
pub mod geo_enums;
pub mod metric;
pub mod outline;
pub mod overlap;
pub mod point;
pub mod simple_polygon;
pub mod transformation;
