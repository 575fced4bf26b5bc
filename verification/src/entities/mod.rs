//! Items, bins, layouts, problems and solutions.

pub mod bin;
pub mod instances;
pub mod item;
pub mod layout;
pub mod placed_item;
pub mod placing_option;
pub mod problems;
pub mod quality_zone;
pub mod solution;
