use treesnap_core::logs::{
    get_snapshot_logs, is_snapshot_file, snapshot_dir, snapshot_log, snapshot_menu_label,
    FileStamp, SnapshotEntry,
};
use treesnap_core::types::SnapshotLog;

#[test]
fn snapshot_folder() {
    assert_eq!(snapshot_dir(&Some("/home/ann".to_string())), "/home/ann/TreeSnapshots/snapshots");
    assert_eq!(snapshot_dir(&None), "/tmp/TreeSnapshots/snapshots");
}

#[test]
fn snapshot_file_names() {
    let yes = |s: &str| is_snapshot_file(&s.as_bytes().to_vec());
    assert!(yes("snapshot_20240101_Linux_Root.txt"));
    assert!(yes("a.txt"));
    assert!(yes("..txt"));
    assert!(yes("a.b.txt"));
    assert!(!yes(".txt"));
    assert!(!yes("a.txt.bak"));
    assert!(!yes("a.TXT"));
    assert!(!yes("txt"));
    assert!(!yes(".."));
    assert!(!yes(""));
    for name in ["a.txt", "..txt", ".txt", "a.", "..", "x.tx", "b.txt.txt"] {
        let expected = std::path::Path::new("/d").join(name).extension().and_then(|e| e.to_str()) == Some("txt");
        assert_eq!(yes(name), expected, "{}", name);
    }
}

fn stamp(size: u64, modified: Option<(i64, u32)>) -> FileStamp {
    FileStamp { size_bytes: size, modified }
}

#[test]
fn one_log_record() {
    let log = snapshot_log(&Some("snapshot_1.txt".to_string()), &"/d/snapshot_1.txt".to_string(), stamp(10, None)).unwrap();
    assert_eq!(log.filename, "snapshot_1.txt");
    assert_eq!(log.file_path, "/d/snapshot_1.txt");
    assert_eq!(log.size_bytes, 10);
    assert_eq!(log.modified_at, "—");
    let log = snapshot_log(&None, &"/d/x.txt".to_string(), stamp(1, Some((1_700_000_000, 0)))).unwrap();
    assert_eq!(log.filename, "?");
    let expected = chrono::DateTime::from_timestamp(1_700_000_000, 0)
        .unwrap()
        .with_timezone(&chrono::Local)
        .format("%Y-%m-%d %H:%M")
        .to_string();
    assert_eq!(log.modified_at, expected);
    assert_eq!(log.modified_at.len(), 16);
    assert!(snapshot_log(&None, &"/d/x.txt".to_string(), stamp(1, Some((i64::MAX, 0)))).is_none());
}

fn entry(name: &str, st: Option<FileStamp>) -> SnapshotEntry {
    SnapshotEntry {
        name_bytes: name.as_bytes().to_vec(),
        name: Some(name.to_string()),
        path: format!("/home/ann/TreeSnapshots/snapshots/{}", name),
        stamp: st,
    }
}

#[test]
fn logs_newest_first() {
    let entries = vec![
        entry("snapshot_20240101_Linux_Root.txt", Some(stamp(1, None))),
        entry("notes.md", Some(stamp(2, None))),
        entry("snapshot_20240315_Windows_C.txt", Some(stamp(3, None))),
        entry("snapshot_20231224_data.txt", None),
        entry("snapshot_20240315_Linux_Root.txt", Some(stamp(4, None))),
    ];
    let logs = get_snapshot_logs(&entries).unwrap();
    let names: Vec<&str> = logs.iter().map(|l| l.filename.as_str()).collect();
    assert_eq!(
        names,
        vec![
            "snapshot_20240315_Windows_C.txt",
            "snapshot_20240315_Linux_Root.txt",
            "snapshot_20240101_Linux_Root.txt",
        ]
    );
    let sizes: Vec<u64> = logs.iter().map(|l| l.size_bytes).collect();
    assert_eq!(sizes, vec![3, 4, 1]);
}

#[test]
fn equal_names_keep_folder_order() {
    let mut a = entry("x.txt", Some(stamp(1, None)));
    a.name = None;
    let mut b = entry("y.txt", Some(stamp(2, None)));
    b.name = None;
    let c = entry("z.txt", Some(stamp(3, None)));
    let logs = get_snapshot_logs(&vec![a, b, c]).unwrap();
    let got: Vec<(String, u64)> = logs.iter().map(|l| (l.filename.clone(), l.size_bytes)).collect();
    assert_eq!(got, vec![("z.txt".to_string(), 3), ("?".to_string(), 1), ("?".to_string(), 2)]);
}

#[test]
fn unrepresentable_time_gives_nothing() {
    let entries = vec![entry("a.txt", Some(stamp(1, Some((i64::MIN, 0)))))];
    assert!(get_snapshot_logs(&entries).is_none());
    let entries = vec![entry("a.md", Some(stamp(1, Some((i64::MIN, 0)))))];
    assert_eq!(get_snapshot_logs(&entries).unwrap().len(), 0);
}

#[test]
fn menu_label() {
    let log = SnapshotLog {
        filename: "snapshot_20240101_Linux_Root.txt".to_string(),
        file_path: "/x".to_string(),
        size_bytes: 1536,
        modified_at: "2024-01-01 10:00".to_string(),
    };
    assert_eq!(snapshot_menu_label(&log), "snapshot_20240101_Linux_Root.txt  1.5 KB  2024-01-01 10:00");
}

#[test]
fn shown_times_follow_chrono_range() {
    let shown = |secs: i64, nanos: u32| {
        snapshot_log(&None, &"/d/x.txt".to_string(), stamp(1, Some((secs, nanos)))).is_some()
    };
    assert!(shown(8_210_266_876_799, 0));
    assert!(!shown(8_210_266_876_800, 0));
    assert!(shown(-8_334_601_228_800, 0));
    assert!(!shown(-8_334_601_228_801, 0));
    assert!(shown(59, 1_500_000_000));
    assert!(!shown(58, 1_500_000_000));
    assert!(!shown(59, 2_000_000_000));
    assert!(shown(0, 999_999_999));
    for (secs, nanos) in [(8_210_266_876_799i64, 0u32), (8_210_266_876_800, 0), (-8_334_601_228_801, 0), (58, 1_500_000_000)] {
        assert_eq!(shown(secs, nanos), chrono::DateTime::from_timestamp(secs, nanos).is_some());
    }
}
