//! Collision detection and placement core for two-dimensional irregular
//! bin and strip packing, on an integer lattice.
//!
//! All coordinates are whole numbers of a length unit that the caller
//! chooses; areas, distances and usages are exact integers or integer
//! bounds of the Euclidean quantities they stand for.

pub mod collision_detection;
pub mod entities;
pub mod geometry;
pub mod io;
pub mod util;
