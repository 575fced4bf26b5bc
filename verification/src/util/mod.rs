//! Configuration of the collision detection engine, and small tools.

pub mod config;
pub mod sums;
