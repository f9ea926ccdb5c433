//! Verified core of a source-safety reporting tool.
//!
//! The library measures how much unchecked code a set of source files
//! contains, flags functions that look like easy refactoring targets, and
//! compares two such measurements.  Everything here is pure: parsing a file
//! into the syntax-tree model, walking directories and rendering coloured
//! output live outside the library and hand it plain values.

pub mod baseline;
pub mod bool_candidates;
pub mod collect;
pub mod decimal;
pub mod render;
pub mod report;
pub mod safe_candidates;
pub mod samples;
pub mod stats;
pub mod strorder;
pub mod syntax;

pub use stats::CodeStats;
