//! Resolve a process name to its pid over a snapshot of the process table.
//!
//! A snapshot is enumerated by one of three strategies (a process pseudo-filesystem, a
//! kernel table query, or a listing tool's output), then reduced by the matcher to the one
//! process that carries the name, or to the reason there is none.
pub mod error;
pub mod kinfo;
pub mod listing;
pub mod matcher;
pub mod process;
pub mod procfs;
pub mod text;
