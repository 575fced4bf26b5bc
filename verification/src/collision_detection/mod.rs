//! Hazards and the indices that answer whether a shape meets one.

pub mod cd_engine;
pub mod hazard;
pub mod hazard_filters;
pub mod hpg;
pub mod quadtree;
