//! Segmented, multi-context memory model for an execution-trace generator.
//!
//! The library keeps the memory image that a program sees while it runs and
//! produces, for every access, a record whose sorting key orders the access
//! log the way a memory-consistency argument needs it.

pub mod config;
pub mod memory;
pub mod ordering;
pub mod state;
