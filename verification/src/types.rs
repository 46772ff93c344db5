//! The records the library hands to its front ends.

use vstd::prelude::*;

verus! {

/// The operating system family the tool runs on, which decides the drive
/// names, the scan scope and the package manager.
#[derive(Clone, Copy, Debug, PartialEq, Eq, Structural)]
pub enum Platform {
    MacOs,
    Linux,
    Other,
}

/// A drive or mount point that can be scanned.
#[derive(Clone, Debug)]
pub struct Drive {
    pub path: String,
    pub label: String,
}

/// What a running scan reports while it goes.
#[derive(Clone, Debug)]
pub struct ScanProgress {
    pub lines: u64,
    pub size_bytes: u64,
    pub elapsed_secs: u64,
    pub recent_entry: String,
}

/// The outcome of a finished scan.
#[derive(Clone, Debug)]
pub struct ScanResult {
    pub file_path: String,
    pub total_lines: u64,
    pub total_size_bytes: u64,
    pub duration_secs: u64,
    pub skipped_dirs: u64,
}

/// A description of the machine, for display.
#[derive(Clone, Debug)]
pub struct SystemInfo {
    pub os_label: String,
    pub hostname: String,
    pub username: String,
}

/// A saved snapshot file.
#[derive(Clone, Debug)]
pub struct SnapshotLog {
    pub filename: String,
    pub file_path: String,
    pub size_bytes: u64,
    pub modified_at: String,
}

/// The path and label of a drive, as text.
pub open spec fn drive_text(d: Drive) -> (Seq<char>, Seq<char>) {
    (d.path@, d.label@)
}

/// The paths and labels of a list of drives.
pub open spec fn drives_text(ds: Seq<Drive>) -> Seq<(Seq<char>, Seq<char>)> {
    ds.map_values(|d: Drive| drive_text(d))
}

} // verus!
