//! Tracks tagged source-code annotations (TODO, FIXME, ...) and how the set of
//! annotations changes over time: between two git references, or under live
//! file-system mutation through an incremental in-memory index.
//!
//! The heart of the crate is the annotation identity — file, tag and
//! normalised message, never the line number — together with the snapshot
//! diff algorithm built on it and the per-file index that keeps the diff
//! computation correct under live edits.

pub mod strings;
pub mod model;
pub mod pattern;
pub mod scanner;
pub mod config;
pub mod diff;
pub mod watch;
pub mod brief;
pub mod check;
pub mod report;
pub mod markdown;
pub mod sarif;
