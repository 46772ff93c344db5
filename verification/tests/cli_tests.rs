use treesnap_core::cli::{
    classify_snapshot_choice, drive_menu_options, find_drive, scan_scope_hint,
    snapshot_menu_options, truncate_recent_entry, SnapshotChoice, NEW_SNAPSHOT, QUIT,
};
use treesnap_core::types::{Drive, Platform};

fn strings(xs: &[&str]) -> Vec<String> {
    xs.iter().map(|s| s.to_string()).collect()
}

#[test]
fn snapshot_menu() {
    let labels = strings(&["a  1 B  —", "b  2 B  —"]);
    assert_eq!(snapshot_menu_options(&labels), strings(&["+ New Snapshot", "a  1 B  —", "b  2 B  —", "q  Quit"]));
    assert_eq!(classify_snapshot_choice(NEW_SNAPSHOT, &labels), SnapshotChoice::NewSnapshot);
    assert_eq!(classify_snapshot_choice(QUIT, &labels), SnapshotChoice::Quit);
    assert_eq!(classify_snapshot_choice("b  2 B  —", &labels), SnapshotChoice::Open(1));
    assert_eq!(classify_snapshot_choice("c", &labels), SnapshotChoice::NotListed);
    let dup = strings(&["x", "x"]);
    assert_eq!(classify_snapshot_choice("x", &dup), SnapshotChoice::Open(0));
}

#[test]
fn drive_menu() {
    let drives = vec![
        Drive { path: "/".to_string(), label: "Root Filesystem (/)".to_string() },
        Drive { path: "/mnt/c".to_string(), label: "Windows Drive (C:)".to_string() },
    ];
    assert_eq!(drive_menu_options(&drives), strings(&["Root Filesystem (/)", "Windows Drive (C:)", "q  Quit"]));
    assert_eq!(find_drive(&drives, "Windows Drive (C:)"), Some(1));
    assert_eq!(find_drive(&drives, "q  Quit"), None);
}

#[test]
fn scope_hints() {
    assert_eq!(scan_scope_hint(Platform::MacOs, "/"), Some("/Applications  /opt  ~/".to_string()));
    assert_eq!(scan_scope_hint(Platform::Linux, "/"), Some("/home  /opt  /usr/local".to_string()));
    assert_eq!(scan_scope_hint(Platform::Other, "/"), Some(String::new()));
    assert_eq!(scan_scope_hint(Platform::Linux, "/mnt/d"), Some("Users  Program Files  Program Files (x86)".to_string()));
    assert_eq!(scan_scope_hint(Platform::Linux, "/mnt/data"), None);
}

#[test]
fn recent_entry_truncation() {
    let short = "a".repeat(60);
    assert_eq!(truncate_recent_entry(&short), short);
    let long = format!("{}{}", "x".repeat(10), "y".repeat(59));
    let shown = truncate_recent_entry(&long);
    assert_eq!(shown, format!("…{}", "y".repeat(59)));
    let accented = format!("{}{}", "é".repeat(40), "z".repeat(1));
    let expected = format!("…{}", &accented[accented.len() - 59..]);
    assert_eq!(truncate_recent_entry(&accented), expected);
}
