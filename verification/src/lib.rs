//! Core logic of TreeSnapshots: a tool that records a file system tree with
//! `tree` and keeps the resulting plain-text snapshots.
//!
//! The library holds the decisions and text processing of the tool; the
//! process launching, file access and user interface stay with the
//! executable that drives it.

pub mod text;
pub mod size;
pub mod order;
pub mod types;
pub mod drives;
pub mod clock;
pub mod paths;
pub mod scan;
pub mod system;
pub mod logs;
pub mod install;
pub mod cli;
pub mod desktop;

pub use size::format_bytes;
