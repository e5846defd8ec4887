//! Storage: catalog entries for tables and rules, and write results.

pub mod catalog;
pub mod write_path;
