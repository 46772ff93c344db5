//! The standalone desktop front end: its own progress records, which
//! carry no recent entry and no count of skipped directories, its plain
//! scan, and the actions of its menu bar.

use vstd::prelude::*;
use crate::install::{install_args_with, install_plan, plan_text, PackageTools};
use crate::paths::{build_output_path as build_path, drive_name, home_choice, opt_text, snapshot_path};
use crate::clock::{clock_error_text, is_day_stamp};
use crate::text::{chars_of, same_chars, strings_text, utf8_len};
use crate::types::Platform;

pub use crate::types::{Drive, SnapshotLog, SystemInfo};

verus! {

/// What a running scan reports while it goes.
#[derive(Clone, Debug)]
pub struct ScanProgress {
    pub lines: u64,
    pub size_bytes: u64,
    pub elapsed_secs: u64,
}

/// The outcome of a finished scan.
#[derive(Clone, Debug)]
pub struct ScanResult {
    pub file_path: String,
    pub total_lines: u64,
    pub total_size_bytes: u64,
    pub duration_secs: u64,
}

/// The arguments of the plain `tree` scan of `target_path`.
pub fn scan_command_args(target_path: &str) -> (args: Vec<String>)
    ensures
        strings_text(args@) == seq!["-apu"@, "-h"@, target_path@],
{
    let mut args: Vec<String> = Vec::new();
    args.push("-apu".to_owned());
    args.push("-h".to_owned());
    args.push(target_path.to_owned());
    assert(strings_text(args@) =~= seq!["-apu"@, "-h"@, target_path@]);
    args
}

/// Progress is reported at most every this many milliseconds.
pub const PROGRESS_INTERVAL_MS: u128 = 100;

/// Whether progress is due, `elapsed_ms` milliseconds after the last
/// report.
pub fn should_emit_progress(elapsed_ms: u128) -> (due: bool)
    ensures
        due == (elapsed_ms >= PROGRESS_INTERVAL_MS),
{
    elapsed_ms >= PROGRESS_INTERVAL_MS
}

/// The counters of a running plain scan: every line is kept.
pub struct ScanCounter {
    pub lines: u64,
    pub size_bytes: u64,
}

impl ScanCounter {
    pub fn new() -> (c: ScanCounter)
        ensures
            c.lines == 0 && c.size_bytes == 0,
    {
        ScanCounter { lines: 0, size_bytes: 0 }
    }

    /// Counts a line of `tree` output with its line feed; the counts must
    /// not overflow.
    pub fn record_line(&mut self, line: &str)
        requires
            old(self).lines < u64::MAX,
            old(self).size_bytes + utf8_len(line@) + 1 <= u64::MAX,
        ensures
            final(self).lines == old(self).lines + 1,
            final(self).size_bytes == old(self).size_bytes + utf8_len(line@) + 1,
    {
        proof {
            crate::text::lemma_utf8_len(line@);
        }
        let len = line.as_bytes().len() as u64;
        self.lines = self.lines + 1;
        self.size_bytes = self.size_bytes + len + 1;
    }

    /// What the scan reports after `elapsed_secs` seconds.
    pub fn progress(&self, elapsed_secs: u64) -> (p: ScanProgress)
        ensures
            p.lines == self.lines,
            p.size_bytes == self.size_bytes,
            p.elapsed_secs == elapsed_secs,
    {
        ScanProgress { lines: self.lines, size_bytes: self.size_bytes, elapsed_secs }
    }

    /// The result of the finished scan, saved to `file_path`.
    pub fn finish(&self, file_path: String, duration_secs: u64) -> (r: ScanResult)
        ensures
            r.file_path@ == file_path@,
            r.total_lines == self.lines,
            r.total_size_bytes == self.size_bytes,
            r.duration_secs == duration_secs,
    {
        ScanResult {
            file_path,
            total_lines: self.lines,
            total_size_bytes: self.size_bytes,
            duration_secs,
        }
    }
}

/// The desktop front end's message when Homebrew is missing on macOS.
pub open spec fn missing_brew_message() -> Seq<char> {
    "Homebrew is not installed. Visit https://brew.sh to install it, then run: brew install tree"@
}

/// The command that installs `tree` on this machine, or why there is none.
pub fn get_install_args(platform: Platform, is_wsl: bool, tools: PackageTools) -> (r: Result<
    Vec<String>,
    String,
>)
    ensures
        plan_text(r) == install_plan(platform, is_wsl, tools, missing_brew_message()),
{
    install_args_with(
        platform,
        is_wsl,
        tools,
        "Homebrew is not installed. Visit https://brew.sh to install it, then run: brew install tree",
    )
}

/// The file a scan of `target_path` is saved to, in the `HOME` directory;
/// the clock error when the system clock gives no date.
pub fn build_output_path(platform: Platform, target_path: &str, home: &Option<String>) -> (r:
    Result<String, String>)
    ensures
        match home {
            None => r matches Err(m) && m@ == "HOME environment variable not set"@,
            Some(h) => match r {
                Ok(p) => exists|date: Seq<char>|
                    is_day_stamp(date) && p@ == snapshot_path(
                        h@,
                        date,
                        drive_name(platform, target_path@),
                    ),
                Err(m) => m@ == clock_error_text(),
            },
        },
{
    let r = build_path(platform, target_path, &None, &None, home);
    assert(home_choice(None, None, opt_text(*home)) == match home {
        Some(h) => Ok::<Seq<char>, Seq<char>>(h@),
        None => Err("HOME environment variable not set"@),
    });
    r
}

/// What a menu bar item does.
#[derive(Clone, Debug)]
pub enum MenuAction {
    /// Open this address in the browser.
    OpenUrl(String),
    /// Send this event to the window.
    Emit(String),
    /// Nothing (items the system handles).
    Nothing,
}

/// The action of the menu bar item with identifier `id`.
pub open spec fn menu_action_of(id: Seq<char>) -> (Option<Seq<char>>, Option<Seq<char>>) {
    if id == "app_github"@ {
        (Some("https://github.com/leejongyoung/TreeSnapshots"@), None)
    } else if id == "app_releases"@ {
        (Some("https://github.com/leejongyoung/TreeSnapshots/releases"@), None)
    } else if id == "app_updates"@ {
        (Some("https://github.com/leejongyoung/TreeSnapshots/releases/latest"@), None)
    } else if id == "app_install_tools"@ {
        (None, Some("open-install-dialog"@))
    } else if id == "app_licenses"@ {
        (None, Some("open-licenses"@))
    } else if id == "help_issues"@ {
        (Some("https://github.com/leejongyoung/TreeSnapshots/issues"@), None)
    } else {
        (None, None)
    }
}

/// The address opened and the event sent by a menu action.
pub open spec fn action_text(a: MenuAction) -> (Option<Seq<char>>, Option<Seq<char>>) {
    match a {
        MenuAction::OpenUrl(u) => (Some(u@), None),
        MenuAction::Emit(e) => (None, Some(e@)),
        MenuAction::Nothing => (None, None),
    }
}

/// What the menu bar item with identifier `id` does.
pub fn menu_action(id: &str) -> (a: MenuAction)
    ensures
        action_text(a) == menu_action_of(id@),
{
    let t = chars_of(id);
    if same_chars(&t, &chars_of("app_github")) {
        MenuAction::OpenUrl("https://github.com/leejongyoung/TreeSnapshots".to_owned())
    } else if same_chars(&t, &chars_of("app_releases")) {
        MenuAction::OpenUrl("https://github.com/leejongyoung/TreeSnapshots/releases".to_owned())
    } else if same_chars(&t, &chars_of("app_updates")) {
        MenuAction::OpenUrl(
            "https://github.com/leejongyoung/TreeSnapshots/releases/latest".to_owned(),
        )
    } else if same_chars(&t, &chars_of("app_install_tools")) {
        MenuAction::Emit("open-install-dialog".to_owned())
    } else if same_chars(&t, &chars_of("app_licenses")) {
        MenuAction::Emit("open-licenses".to_owned())
    } else if same_chars(&t, &chars_of("help_issues")) {
        MenuAction::OpenUrl("https://github.com/leejongyoung/TreeSnapshots/issues".to_owned())
    } else {
        MenuAction::Nothing
    }
}

} // verus!
