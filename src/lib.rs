//! Process-memory inspection logic: a registry of attached targets with
//! stable handles, a classifier over memory-region descriptors, a compiler
//! for wildcard byte patterns and a scanner that finds every match.

pub mod error;
pub mod pattern;
pub mod region;
pub mod scan;
pub mod registry;
pub mod memio;
pub mod buffer;
