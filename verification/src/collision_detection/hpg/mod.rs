//! The hazard proximity grid: for each cell of a coarse grid, how far the
//! nearest hazard is.

pub mod hazard_proximity_grid;
pub mod hpg_cell;
