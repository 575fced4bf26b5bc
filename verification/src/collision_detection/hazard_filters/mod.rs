//! Filters that tell which hazards matter for a query.

pub mod combo_haz_filter;
pub mod hazard_filter;
pub mod qz_haz_filter;
