//! Problems: instances in a state that can be changed and restored.

pub mod bin_packing;
pub mod counting;
pub mod problem;
pub mod strip_packing;
