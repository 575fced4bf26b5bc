//! Instances and solutions as they are exchanged, and how they are turned
//! into the library's own.

pub mod json_instance;
pub mod json_solution;
pub mod parser;
pub mod svg_data_export;
pub mod web;
