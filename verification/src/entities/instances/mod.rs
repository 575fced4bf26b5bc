//! Instances: the items to place and the containers to place them in.

pub mod bin_packing;
pub mod instance;
pub mod strip_packing;
