//! The quadtree: for each square of a hierarchy over the bin's bounding box,
//! the edges of the hazards that can reach into it.

pub mod qt_hazard;
pub mod qt_node;
