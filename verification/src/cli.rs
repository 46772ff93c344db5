//! Choices and texts of the interactive command-line front end.

use vstd::prelude::*;
use crate::scan::{is_wsl_drive, is_wsl_drive_path, scan_scope};
use crate::text::{chars_of, push_all, same_chars, string_chars, string_from_chars, strings_text};
use crate::types::{Drive, Platform};
use vstd::utf8::{encode_utf8, is_char_boundary};

verus! {

/// The menu entry that starts a new snapshot.
pub const NEW_SNAPSHOT: &'static str = "+ New Snapshot";

/// The menu entry that quits.
pub const QUIT: &'static str = "q  Quit";

/// The entries of the snapshot menu: a new snapshot, the saved ones, quit.
pub fn snapshot_menu_options(labels: &Vec<String>) -> (options: Vec<String>)
    ensures
        strings_text(options@) == seq![NEW_SNAPSHOT@] + strings_text(labels@) + seq![QUIT@],
{
    let mut options: Vec<String> = Vec::new();
    options.push(NEW_SNAPSHOT.to_owned());
    let mut k: usize = 0;
    while k < labels.len()
        invariant
            k <= labels@.len(),
            strings_text(options@) =~= seq![NEW_SNAPSHOT@] + strings_text(labels@).take(k as int),
        decreases labels.len() - k,
    {
        let ghost prev = options@;
        options.push(labels[k].clone());
        assert(strings_text(options@) =~= strings_text(prev).push(labels@[k as int]@));
        assert(strings_text(labels@).take(k + 1) =~= strings_text(labels@).take(k as int).push(
            labels@[k as int]@,
        ));
        k = k + 1;
    }
    assert(strings_text(labels@).take(labels@.len() as int) =~= strings_text(labels@));
    let ghost prev = options@;
    options.push(QUIT.to_owned());
    assert(strings_text(options@) =~= strings_text(prev).push(QUIT@));
    options
}

/// What a choice in the snapshot menu asks for.
#[derive(Clone, Copy, Debug, PartialEq, Eq, Structural)]
pub enum SnapshotChoice {
    NewSnapshot,
    Quit,
    /// The saved snapshot at this position of the list.
    Open(usize),
    /// A text that is no entry of the menu.
    NotListed,
}

/// The first position of `s` in `labels`.
pub open spec fn first_position(labels: Seq<Seq<char>>, s: Seq<char>) -> Option<int>
    decreases labels.len(),
{
    if labels.len() == 0 {
        None
    } else if labels[0] == s {
        Some(0)
    } else {
        match first_position(labels.drop_first(), s) {
            Some(i) => Some(i + 1),
            None => None,
        }
    }
}

/// The meaning of a choice among the snapshot menu entries.
pub open spec fn snapshot_choice(choice: Seq<char>, labels: Seq<Seq<char>>) -> SnapshotChoice {
    if choice == NEW_SNAPSHOT@ {
        SnapshotChoice::NewSnapshot
    } else if choice == QUIT@ {
        SnapshotChoice::Quit
    } else {
        match first_position(labels, choice) {
            Some(i) => SnapshotChoice::Open(i as usize),
            None => SnapshotChoice::NotListed,
        }
    }
}

/// Finds the position of `s` among `labels`.
pub fn position_of(labels: &Vec<String>, s: &str) -> (r: Option<usize>)
    ensures
        match first_position(strings_text(labels@), s@) {
            Some(i) => r == Some(i as usize),
            None => r is None,
        },
{
    let ghost ls = strings_text(labels@);
    let target = chars_of(s);
    let mut k: usize = 0;
    assert(ls.skip(0) =~= ls);
    while k < labels.len()
        invariant
            k <= labels@.len() == ls.len(),
            ls == strings_text(labels@),
            target@ == s@,
            first_position(ls, s@) == match first_position(ls.skip(k as int), s@) {
                Some(i) => Some(i + k),
                None => None,
            },
        decreases labels.len() - k,
    {
        assert(ls.skip(k as int).drop_first() =~= ls.skip(k + 1));
        assert(ls.skip(k as int)[0] == labels@[k as int]@);
        if same_chars(&string_chars(&labels[k]), &target) {
            return Some(k);
        }
        k = k + 1;
    }
    None
}

/// What the choice `choice` in the snapshot menu with the saved snapshots
/// `labels` asks for.
pub fn classify_snapshot_choice(choice: &str, labels: &Vec<String>) -> (c: SnapshotChoice)
    ensures
        c == snapshot_choice(choice@, strings_text(labels@)),
{
    let t = chars_of(choice);
    if same_chars(&t, &chars_of(NEW_SNAPSHOT)) {
        SnapshotChoice::NewSnapshot
    } else if same_chars(&t, &chars_of(QUIT)) {
        SnapshotChoice::Quit
    } else {
        match position_of(labels, choice) {
            Some(i) => SnapshotChoice::Open(i),
            None => SnapshotChoice::NotListed,
        }
    }
}

/// The entries of the drive menu: the drive labels, then quit.
pub fn drive_menu_options(drives: &Vec<Drive>) -> (options: Vec<String>)
    ensures
        options@.len() == drives@.len() + 1,
        forall|k: int| 0 <= k < drives@.len() ==> (#[trigger] options@[k])@ == drives@[k].label@,
        options@[drives@.len() as int]@ == QUIT@,
{
    let mut options: Vec<String> = Vec::new();
    let mut k: usize = 0;
    while k < drives.len()
        invariant
            k <= drives@.len(),
            options@.len() == k,
            forall|a: int| 0 <= a < k ==> (#[trigger] options@[a])@ == drives@[a].label@,
        decreases drives.len() - k,
    {
        options.push(drives[k].label.clone());
        k = k + 1;
    }
    options.push(QUIT.to_owned());
    options
}

/// The first drive whose label is `label`.
pub fn find_drive(drives: &Vec<Drive>, label: &str) -> (r: Option<usize>)
    ensures
        match r {
            Some(i) => i < drives@.len() && drives@[i as int].label@ == label@ && forall|k: int|
                0 <= k < i ==> drives@[k].label@ != label@,
            None => forall|k: int| 0 <= k < drives@.len() ==> drives@[k].label@ != label@,
        },
{
    let target = chars_of(label);
    let mut k: usize = 0;
    while k < drives.len()
        invariant
            k <= drives@.len(),
            target@ == label@,
            forall|a: int| 0 <= a < k ==> drives@[a].label@ != label@,
        decreases drives.len() - k,
    {
        if same_chars(&string_chars(&drives[k].label), &target) {
            return Some(k);
        }
        k = k + 1;
    }
    None
}

/// The paths a scan without super-user rights is limited to, when it is
/// limited: the user folders of the root file system, or of a Windows
/// drive.
pub open spec fn scope_hint(platform: Platform, path: Seq<char>) -> Option<Seq<char>> {
    if path == "/"@ {
        Some(
            match platform {
                Platform::MacOs => "/Applications  /opt  ~/"@,
                Platform::Linux => "/home  /opt  /usr/local"@,
                Platform::Other => ""@,
            },
        )
    } else if is_wsl_drive_path(path) {
        Some("Users  Program Files  Program Files (x86)"@)
    } else {
        None
    }
}

/// The paths a scan of `path` without super-user rights covers, when it
/// does not cover all of `path`.
pub fn scan_scope_hint(platform: Platform, path: &str) -> (hint: Option<String>)
    ensures
        match scope_hint(platform, path@) {
            Some(h) => hint matches Some(s) && s@ == h,
            None => hint is None,
        },
{
    if same_chars(&chars_of(path), &chars_of("/")) {
        Some(
            match platform {
                Platform::MacOs => "/Applications  /opt  ~/".to_owned(),
                Platform::Linux => "/home  /opt  /usr/local".to_owned(),
                Platform::Other => "".to_owned(),
            },
        )
    } else if is_wsl_drive(path) {
        Some("Users  Program Files  Program Files (x86)".to_owned())
    } else {
        None
    }
}

/// How the recent entry is shown while scanning: entries longer than 60
/// bytes are cut to their last 59 bytes, after an ellipsis.
pub open spec fn shows_recent(entry: Seq<char>, shown: Seq<char>) -> bool {
    let bytes = encode_utf8(entry);
    if bytes.len() > 60 {
        encode_utf8(shown) == encode_utf8("…"@) + bytes.subrange(bytes.len() - 59, bytes.len() as int)
    } else {
        shown == entry
    }
}

/// The recent entry as the progress line shows it. The cut must fall on a
/// character boundary.
pub fn truncate_recent_entry(entry: &str) -> (shown: String)
    requires
        encode_utf8(entry@).len() > 60 ==> is_char_boundary(
            encode_utf8(entry@),
            encode_utf8(entry@).len() - 59,
        ),
    ensures
        shows_recent(entry@, shown@),
{
    let n = entry.as_bytes().len();
    if n > 60 {
        let (_, tail) = entry.split_at(n - 59);
        let mut out = chars_of("…");
        push_all(&mut out, &chars_of(tail));
        proof {
            crate::text::lemma_encode_concat("…"@, tail@);
        }
        string_from_chars(out)
    } else {
        entry.to_owned()
    }
}

/// The warning that a scan without super-user rights is limited appears
/// exactly when the scan replaces the chosen path by user folders: on
/// Linux for every path, on macOS for every path but the WSL-shaped ones
/// (which only Linux scans as Windows drives).
pub proof fn lemma_hint_matches_scan_scope(platform: Platform, path: Seq<char>, home: Option<Seq<char>>)
    requires
        platform == Platform::Linux || (platform == Platform::MacOs && !is_wsl_drive_path(path)),
    ensures
        scope_hint(platform, path) is Some <==> scan_scope(platform, path, false, home).1.len() > 0,
{
}

} // verus!
