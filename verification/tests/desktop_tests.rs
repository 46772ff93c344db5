use treesnap_core::desktop::{
    build_output_path, get_install_args, menu_action, scan_command_args, should_emit_progress,
    MenuAction, ScanCounter,
};
use treesnap_core::install::PackageTools;
use treesnap_core::types::Platform;

#[test]
fn plain_scan_arguments() {
    assert_eq!(scan_command_args("/Volumes/USB"), vec!["-apu", "-h", "/Volumes/USB"]);
}

#[test]
fn progress_throttle() {
    assert!(!should_emit_progress(0));
    assert!(!should_emit_progress(99));
    assert!(should_emit_progress(100));
    assert!(should_emit_progress(5000));
}

#[test]
fn counter_counts_every_line() {
    let mut c = ScanCounter::new();
    c.record_line("abc");
    c.record_line("[error opening dir]");
    c.record_line("é");
    let p = c.progress(3);
    assert_eq!((p.lines, p.size_bytes, p.elapsed_secs), (3, 4 + 20 + 3, 3));
    let r = c.finish("/x.txt".to_string(), 4);
    assert_eq!((r.file_path.as_str(), r.total_lines, r.total_size_bytes, r.duration_secs), ("/x.txt", 3, 27, 4));
}

#[test]
fn desktop_install_message() {
    let none = PackageTools { brew: false, apt_get: false, dnf: false, yum: false };
    assert_eq!(
        get_install_args(Platform::MacOs, false, none),
        Err("Homebrew is not installed. Visit https://brew.sh to install it, then run: brew install tree".to_string())
    );
}

#[test]
fn desktop_output_path() {
    assert_eq!(build_output_path(Platform::MacOs, "/", &None), Err("HOME environment variable not set".to_string()));
    let p = build_output_path(Platform::MacOs, "/", &Some("/Users/ann".to_string())).unwrap();
    assert!(p.starts_with("/Users/ann/TreeSnapshots/snapshots/snapshot_"));
    assert!(p.ends_with("_macOS_Root.txt"));
}

fn url(a: MenuAction) -> Option<String> {
    match a {
        MenuAction::OpenUrl(u) => Some(u),
        _ => None,
    }
}

fn event(a: MenuAction) -> Option<String> {
    match a {
        MenuAction::Emit(e) => Some(e),
        _ => None,
    }
}

#[test]
fn menu_actions() {
    assert_eq!(url(menu_action("app_github")), Some("https://github.com/leejongyoung/TreeSnapshots".to_string()));
    assert_eq!(url(menu_action("app_releases")), Some("https://github.com/leejongyoung/TreeSnapshots/releases".to_string()));
    assert_eq!(url(menu_action("app_updates")), Some("https://github.com/leejongyoung/TreeSnapshots/releases/latest".to_string()));
    assert_eq!(url(menu_action("help_issues")), Some("https://github.com/leejongyoung/TreeSnapshots/issues".to_string()));
    assert_eq!(event(menu_action("app_install_tools")), Some("open-install-dialog".to_string()));
    assert_eq!(event(menu_action("app_licenses")), Some("open-licenses".to_string()));
    assert!(matches!(menu_action("quit"), MenuAction::Nothing));
}
