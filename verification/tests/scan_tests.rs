use treesnap_core::scan::{
    entry_name_of, is_wsl_drive, scan_command_args, ScanTally, CACHE_EXCLUDE, CLOUD_EXCLUDE,
};
use treesnap_core::types::Platform;

const USER: &str = "CloudStorage|Google Drive|Google Drive (My Drive)|Google Drive (Shared drives)|Dropbox|OneDrive|OneDrive - Personal|Box Sync|Box Drive|iCloud Drive|Mobile Documents|MEGA|pCloud Drive|Tresorit|Sync|Amazon Drive|Amazon Photos|Creative Cloud Files|Nextcloud|ownCloud|Seafile|Insync|SynologyDrive|Synology Drive|Qsync|QNAP Qsync|WD Sync|WD Drive|ShareFile|Egnyte Drive|.m2|.gradle|.npm|node_modules|.cargo|.cache|.nvm|.pyenv|.venv|__pycache__|.rbenv|.rvm|.local";

fn args(platform: Platform, target: &str, root: bool, home: Option<&str>) -> Vec<String> {
    scan_command_args(platform, target, root, &home.map(|h| h.to_string()))
}

#[test]
fn exclusion_lists() {
    assert_eq!(format!("{}|{}", CLOUD_EXCLUDE, CACHE_EXCLUDE), USER);
}

#[test]
fn wsl_drive_paths() {
    assert!(is_wsl_drive("/mnt/c"));
    assert!(is_wsl_drive("/mnt/z"));
    assert!(!is_wsl_drive("/mnt/C"));
    assert!(!is_wsl_drive("/mnt/cd"));
    assert!(!is_wsl_drive("/mnt/"));
    assert!(!is_wsl_drive("/mnt/é"));
    assert!(!is_wsl_drive("/media/c"));
}

#[test]
fn linux_root_scans() {
    assert_eq!(
        args(Platform::Linux, "/", true, None),
        vec!["-apu", "-h", "-x", "-I", "proc|sys|dev|run|tmp|lost+found", "/"]
    );
    assert_eq!(
        args(Platform::Linux, "/", false, Some("/home/ann")),
        vec!["-apu", "-h", "-x", "-I", USER, "/home", "/opt", "/usr/local"]
    );
}

#[test]
fn wsl_drive_scans() {
    assert_eq!(
        args(Platform::Linux, "/mnt/c", true, None),
        vec![
            "-apu",
            "-h",
            "-x",
            "-I",
            "Windows|$Recycle.Bin|System Volume Information|Recovery|$WinREAgent",
            "/mnt/c"
        ]
    );
    assert_eq!(
        args(Platform::Linux, "/mnt/c", false, None),
        vec![
            "-apu",
            "-h",
            "-x",
            "-I",
            USER,
            "/mnt/c/Users",
            "/mnt/c/Program Files",
            "/mnt/c/Program Files (x86)"
        ]
    );
}

#[test]
fn macos_root_scans() {
    assert_eq!(
        args(Platform::MacOs, "/", true, None),
        vec![
            "-apu",
            "-h",
            "-x",
            "-I",
            ".vol|.nofollow|.resolve|.file|System|cores|.Spotlight-V100|.fseventsd|.DocumentRevisions-V100|.MobileBackups|run|folders|vm",
            "/"
        ]
    );
    assert_eq!(
        args(Platform::MacOs, "/", false, Some("/Users/ann")),
        vec!["-apu", "-h", "-x", "-I", USER, "/Applications", "/opt", "/Users/ann"]
    );
    assert_eq!(
        args(Platform::MacOs, "/", false, None),
        vec!["-apu", "-h", "-x", "-I", USER, "/Applications", "/opt", "/Users/Shared"]
    );
}

#[test]
fn other_targets_scan_as_given() {
    assert_eq!(args(Platform::Linux, "/mnt/data", false, None), vec!["-apu", "-h", "-x", "/mnt/data"]);
    assert_eq!(args(Platform::MacOs, "/mnt/c", false, None), vec!["-apu", "-h", "-x", "/mnt/c"]);
    assert_eq!(args(Platform::Other, "/", true, None), vec!["-apu", "-h", "-x", "/"]);
}

fn entry(line: &str) -> String {
    entry_name_of(&line.chars().collect()).into_iter().collect()
}

#[test]
fn entry_names() {
    assert_eq!(entry("├── [drwxr-xr-x user  group]  dirname"), "dirname");
    assert_eq!(entry("│   └── [-rw-r--r-- root root 1.2K]  a b.txt  "), "a b.txt");
    assert_eq!(entry("  plain line  "), "plain line");
    assert_eq!(entry("[x] [y]   "), "[x] [y]");
    assert_eq!(entry("   "), "");
}

#[test]
fn tally_counts_lines_and_skips_unreadable_dirs() {
    let mut t = ScanTally::new();
    assert!(t.record_line("/"));
    assert!(t.record_line("├── [drwxr-xr-x root root 4.0K]  etc"));
    assert!(!t.record_line("├── [drwx------ root root 4.0K]  secret  [error opening dir]"));
    assert!(t.record_line("└── [-rw-r--r-- root root  12]  é"));
    assert!(t.record_line(""));
    assert_eq!(t.lines, 4);
    assert_eq!(t.skipped_dirs, 1);
    let expected: u64 = ["/", "├── [drwxr-xr-x root root 4.0K]  etc", "└── [-rw-r--r-- root root  12]  é", ""]
        .iter()
        .map(|l| l.len() as u64 + 1)
        .sum();
    assert_eq!(t.size_bytes, expected);
    assert_eq!(t.recent_entry, "é");
    let p = t.progress(7);
    assert_eq!((p.lines, p.size_bytes, p.elapsed_secs, p.recent_entry.as_str()), (4, expected, 7, "é"));
    let r = t.finish("/tmp/out.txt".to_string(), 9);
    assert_eq!(r.file_path, "/tmp/out.txt");
    assert_eq!((r.total_lines, r.total_size_bytes, r.duration_secs, r.skipped_dirs), (4, expected, 9, 1));
}

#[test]
fn tally_counters_wrap() {
    let mut t = ScanTally::new();
    t.lines = u64::MAX;
    t.size_bytes = u64::MAX - 1;
    t.skipped_dirs = u64::MAX;
    assert!(t.record_line("ab"));
    assert_eq!(t.lines, 0);
    assert_eq!(t.size_bytes, 1);
    assert!(!t.record_line("[error opening dir]"));
    assert_eq!(t.skipped_dirs, 0);
}
