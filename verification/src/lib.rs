//! Incremental one-way directory mirror engine.
//!
//! The library models filesystem paths as byte strings and verifies the
//! decision logic of the mirror: source-to-target path remapping, exclusion
//! filtering, change detection, directory materialization planning,
//! per-volume bookkeeping, run statistics and the final summary. All
//! filesystem access is left to the surrounding program, which feeds the
//! engine plain values and carries out the planned actions.

pub mod change;
pub mod config;
pub mod dirs;
pub mod exclude;
pub mod names;
pub mod paths;
pub mod sort;
pub mod stats;
pub mod summary;
pub mod tally;
