use treesnap_core::cli::scan_scope_hint;
use treesnap_core::drives::windows_drive_list;
use treesnap_core::format_bytes;
use treesnap_core::logs::{get_snapshot_logs, is_snapshot_file, snapshot_dir, FileStamp, SnapshotEntry};
use treesnap_core::order::{compare_bytes, sorted_order};
use treesnap_core::paths::build_output_path;
use treesnap_core::scan::{is_wsl_drive, scan_command_args, ScanTally};
use treesnap_core::types::Platform;

#[test]
fn saved_snapshot_lands_in_listed_folder() {
    let home = Some("/home/ann".to_string());
    for target in ["/", "/mnt/c", "/mnt/cd", "/mnt/x/", "/media/My Disk"] {
        let path = build_output_path(Platform::Linux, target, &None, &None, &home).unwrap();
        let dir = snapshot_dir(&home);
        assert!(path.starts_with(&format!("{}/", dir)));
        let name = &path[dir.len() + 1..];
        assert!(!name.contains('/'));
        assert!(is_snapshot_file(&name.as_bytes().to_vec()), "{}", name);
    }
}

#[test]
fn offered_windows_drives_scan_as_windows_drives() {
    let names: Vec<String> = ["c", "e", "x1"].iter().map(|s| s.to_string()).collect();
    for d in windows_drive_list(&names) {
        assert!(is_wsl_drive(&d.path));
        let args = scan_command_args(Platform::Linux, &d.path, false, &None);
        assert_eq!(args.last().unwrap(), &format!("{}/Program Files (x86)", d.path));
    }
}

#[test]
fn hint_agrees_with_scan_scope() {
    for target in ["/", "/mnt/c", "/mnt/data", "/home"] {
        for platform in [Platform::Linux, Platform::MacOs] {
            if platform == Platform::MacOs && is_wsl_drive(target) {
                continue;
            }
            let args = scan_command_args(platform, target, false, &None);
            let limited = args.len() > 4;
            assert_eq!(scan_scope_hint(platform, target).is_some(), limited, "{:?} {}", platform, target);
        }
    }
}

#[test]
fn every_line_is_counted_once() {
    let lines = ["a", "[error opening dir]", "b", "c [error opening dir] d", ""];
    let mut t = ScanTally::new();
    for l in lines {
        t.record_line(l);
    }
    assert_eq!(t.lines + t.skipped_dirs, lines.len() as u64);
}

#[test]
fn byte_order_and_stable_sort() {
    assert!(compare_bytes(&b"abc".to_vec(), &b"abd".to_vec()) < 0);
    assert!(compare_bytes(&b"ab".to_vec(), &b"abc".to_vec()) < 0);
    assert_eq!(compare_bytes(&b"ab".to_vec(), &b"ab".to_vec()), 0);
    assert!(compare_bytes(&vec![0xff], &b"z".to_vec()) > 0);
    let keys: Vec<Vec<u8>> = ["b", "a", "c", "a", "b"].iter().map(|s| s.as_bytes().to_vec()).collect();
    assert_eq!(sorted_order(&keys, false), vec![1, 3, 0, 4, 2]);
    assert_eq!(sorted_order(&keys, true), vec![2, 0, 4, 1, 3]);
    assert_eq!(sorted_order(&vec![], true), Vec::<usize>::new());
}

/// The unit rank and the number shown before the unit.
fn shown(bytes: u64) -> (usize, f64) {
    let text = format_bytes(bytes);
    let (number, unit) = text.split_once(' ').unwrap();
    let rank = ["B", "KB", "MB", "GB"].iter().position(|u| *u == unit).unwrap();
    (rank, number.parse::<f64>().unwrap())
}

#[test]
fn larger_counts_never_show_smaller() {
    let mut samples: Vec<u64> = Vec::new();
    for base in [0u64, 1 << 10, 1 << 20, 1 << 30, 1 << 40, 1 << 53, 1 << 60, u64::MAX - 4096] {
        for d in 0..200u64 {
            samples.push(base.saturating_add(d * 37));
            samples.push(base.saturating_sub(d * 53));
        }
    }
    samples.sort();
    for w in samples.windows(2) {
        let (ra, na) = shown(w[0]);
        let (rb, nb) = shown(w[1]);
        assert!(ra <= rb, "{} {}", w[0], w[1]);
        if ra == rb {
            assert!(na <= nb, "{} {}", w[0], w[1]);
        }
    }
}

fn listed(name: &str, size: u64) -> SnapshotEntry {
    SnapshotEntry {
        name_bytes: name.as_bytes().to_vec(),
        name: Some(name.to_string()),
        path: format!("/home/ann/TreeSnapshots/snapshots/{}", name),
        stamp: Some(FileStamp { size_bytes: size, modified: Some((1_700_000_000, 0)) }),
    }
}

fn keys(logs: &[treesnap_core::types::SnapshotLog]) -> Vec<(String, String, u64)> {
    logs.iter().map(|l| (l.filename.clone(), l.file_path.clone(), l.size_bytes)).collect()
}

#[test]
fn deleting_removes_exactly_its_record() {
    let entries = vec![
        listed("snapshot_20240101_Linux_Root.txt", 10),
        listed("readme.md", 1),
        listed("snapshot_20240301_c.txt", 30),
        listed("snapshot_20240201_data.txt", 20),
    ];
    let before = get_snapshot_logs(&entries).unwrap();
    for i in 0..entries.len() {
        let mut rest = entries.clone();
        let gone = rest.remove(i);
        let after = get_snapshot_logs(&rest).unwrap();
        let mut expected = keys(&before);
        expected.retain(|k| k.1 != gone.path);
        assert_eq!(keys(&after), expected);
    }
}

#[test]
fn new_snapshot_is_listed_once_with_scan_size() {
    let lines = ["/", "├── [drwxr-xr-x root]  bin", "[error opening dir]", "└── [x]  é"];
    let mut t = ScanTally::new();
    let mut written: Vec<u8> = Vec::new();
    for l in lines {
        if t.record_line(l) {
            written.extend_from_slice(l.as_bytes());
            written.push(b'\n');
        }
    }
    assert_eq!(t.size_bytes, written.len() as u64);
    let home = Some("/home/ann".to_string());
    let path = build_output_path(Platform::Linux, "/", &None, &None, &home).unwrap();
    let name = path.rsplit('/').next().unwrap().to_string();
    let mut entries = vec![listed("snapshot_20200101_x.txt", 5), listed("notes.txt", 9)];
    entries.push(SnapshotEntry {
        name_bytes: name.as_bytes().to_vec(),
        name: Some(name.clone()),
        path: path.clone(),
        stamp: Some(FileStamp { size_bytes: written.len() as u64, modified: None }),
    });
    let logs = get_snapshot_logs(&entries).unwrap();
    let hits: Vec<_> = logs.iter().filter(|l| l.file_path == path).collect();
    assert_eq!(hits.len(), 1);
    assert_eq!(hits[0].size_bytes, t.size_bytes);
}

#[test]
fn progress_reports_never_decrease() {
    let lines = ["/", "├── [d]  a", "[error opening dir]", "│   └── [f]  bé", "", "└── [d]  c"];
    let mut t = ScanTally::new();
    let mut reports = vec![t.progress(0)];
    for (k, l) in lines.iter().enumerate() {
        t.record_line(l);
        reports.push(t.progress(k as u64));
    }
    let done = t.finish("/tmp/x.txt".to_string(), 9);
    for w in reports.windows(2) {
        assert!(w[0].lines <= w[1].lines);
        assert!(w[0].size_bytes <= w[1].size_bytes);
    }
    for p in &reports {
        assert!(p.lines <= done.total_lines && p.size_bytes <= done.total_size_bytes);
    }
    assert_eq!(t.skipped_dirs, 1);
}
