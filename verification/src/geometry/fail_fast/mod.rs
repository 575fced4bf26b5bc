//! Disk surrogates of polygons, for cheap conservative collision tests.

pub mod poi;
pub mod sp_surrogate;
