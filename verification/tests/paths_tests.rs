use treesnap_core::clock::{day_stamp, now_timestamp};
use treesnap_core::paths::{
    build_output_path, drive_name_for, file_name_chars, resolve_home, snapshot_file_path,
    sudo_home_command,
};
use treesnap_core::types::Platform;

fn name(platform: Platform, target: &str) -> String {
    drive_name_for(platform, target).into_iter().collect()
}

fn file_name(s: &str) -> Option<String> {
    file_name_chars(&s.chars().collect()).map(|v| v.into_iter().collect())
}

#[test]
fn file_name_follows_path_components() {
    assert_eq!(file_name("/Volumes/My Disk"), Some("My Disk".to_string()));
    assert_eq!(file_name("/a/b/"), Some("b".to_string()));
    assert_eq!(file_name("a//b/./."), Some("b".to_string()));
    assert_eq!(file_name("/"), None);
    assert_eq!(file_name(""), None);
    assert_eq!(file_name("."), None);
    assert_eq!(file_name("a/.."), None);
    assert_eq!(file_name("..."), Some("...".to_string()));
    for s in ["/Volumes/My Disk", "/a/b/", "a//b/./.", "/", "", ".", "a/..", "...", "x/./", "./x"] {
        let expected = std::path::Path::new(s).file_name().and_then(|n| n.to_str()).map(|n| n.to_string());
        assert_eq!(file_name(s), expected, "path {:?}", s);
    }
}

#[test]
fn drive_names() {
    assert_eq!(name(Platform::MacOs, "/"), "macOS_Root");
    assert_eq!(name(Platform::Linux, "/"), "Linux_Root");
    assert_eq!(name(Platform::Other, "/"), "Linux_Root");
    // a WSL drive, /mnt/ and one lower-case letter, is named by its letter
    assert_eq!(name(Platform::Linux, "/mnt/c"), "Windows_C");
    assert_eq!(name(Platform::MacOs, "/mnt/z"), "Windows_Z");
    // anything else under /mnt/ keeps its own name
    assert_eq!(name(Platform::Linux, "/mnt/cd"), "cd");
    assert_eq!(name(Platform::Linux, "/mnt/é"), "é");
    assert_eq!(name(Platform::Linux, "/mnt/C"), "C");
    assert_eq!(name(Platform::Linux, "/mnt/c/"), "c");
    assert_eq!(name(Platform::MacOs, "/Volumes/My Disk"), "My_Disk");
    assert_eq!(name(Platform::Linux, "/media/a b c/"), "a_b_c");
    assert_eq!(name(Platform::Linux, "/data/.."), "Unknown");
}

#[test]
fn snapshot_file_path_layout() {
    let drive: Vec<char> = "Linux_Root".chars().collect();
    assert_eq!(
        snapshot_file_path("/home/ann", "20240131", &drive),
        "/home/ann/TreeSnapshots/snapshots/snapshot_20240131_Linux_Root.txt"
    );
}

#[test]
fn home_resolution() {
    let s = |x: &str| Some(x.to_string());
    assert_eq!(resolve_home(&None, &None, &s("/home/ann")), Ok("/home/ann".to_string()));
    assert_eq!(
        resolve_home(&None, &None, &None),
        Err("HOME environment variable not set".to_string())
    );
    assert_eq!(resolve_home(&s("bob"), &s("  /home/bob\n"), &s("/root")), Ok("/home/bob".to_string()));
    assert_eq!(resolve_home(&s("bob"), &s("~bob\n"), &s("/root")), Ok("/root".to_string()));
    assert_eq!(resolve_home(&s("bob"), &s("\n"), &None), Ok("/tmp".to_string()));
    assert_eq!(resolve_home(&s("bob"), &None, &s("/root")), Ok("/root".to_string()));
}

#[test]
fn sudo_home_command_text() {
    assert_eq!(sudo_home_command("bob"), vec!["sh", "-c", "eval echo ~bob"]);
}

#[test]
fn build_output_path_uses_todays_date() {
    let before = chrono::Local::now().format("%Y%m%d").to_string();
    let path = build_output_path(Platform::Linux, "/", &None, &None, &Some("/home/ann".to_string()))
        .unwrap();
    let after = chrono::Local::now().format("%Y%m%d").to_string();
    let prefix = "/home/ann/TreeSnapshots/snapshots/snapshot_";
    assert!(path.starts_with(prefix));
    assert!(path.ends_with("_Linux_Root.txt"));
    let date = &path[prefix.len()..path.len() - "_Linux_Root.txt".len()];
    assert!(date == before || date == after, "date {}", date);
    assert_eq!(date.len(), 8);
    assert_eq!(
        build_output_path(Platform::Linux, "/", &None, &None, &None),
        Err("HOME environment variable not set".to_string())
    );
}

#[test]
fn wsl_drive_snapshot_is_named_windows_letter() {
    let path = build_output_path(Platform::Linux, "/mnt/c", &None, &None, &Some("/home/u".to_string()))
        .unwrap();
    assert!(path.starts_with("/home/u/TreeSnapshots/snapshots/snapshot_"));
    assert!(path.ends_with("_Windows_C.txt"), "{}", path);
}

#[test]
fn clock_reading_and_day_stamp() {
    let (secs, nanos) = now_timestamp().unwrap();
    let sys = std::time::SystemTime::now().duration_since(std::time::UNIX_EPOCH).unwrap();
    assert!(secs >= 1_600_000_000 && (secs as u64) <= sys.as_secs());
    assert!(nanos < 1_000_000_000);
    let err = "The system clock is set outside the range of dates that can be named".to_string();
    assert_eq!(day_stamp(None), Err(err.clone()));
    assert_eq!(day_stamp(Some((i64::MAX, 0))), Err(err));
    let expected = chrono::DateTime::from_timestamp(86_400 * 365, 0)
        .unwrap()
        .with_timezone(&chrono::Local)
        .format("%Y%m%d")
        .to_string();
    assert_eq!(day_stamp(Some((86_400 * 365, 0))), Ok(expected));
}
