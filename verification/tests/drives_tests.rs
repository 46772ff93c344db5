use treesnap_core::drives::{
    additional_drives, drive_probe, get_drives, mount_drive_list, root_label, volume_drive_list,
    windows_drive_list, DriveListing, DriveProbe, VolumeEntry,
};
use treesnap_core::types::{Drive, Platform};

fn pairs(ds: &[Drive]) -> Vec<(String, String)> {
    ds.iter().map(|d| (d.path.clone(), d.label.clone())).collect()
}

fn p(a: &str, b: &str) -> (String, String) {
    (a.to_string(), b.to_string())
}

#[test]
fn root_label_by_platform() {
    assert_eq!(root_label(Platform::MacOs), "Root Filesystem (macOS /)");
    assert_eq!(root_label(Platform::Linux), "Root Filesystem (/)");
    assert_eq!(root_label(Platform::Other), "Root Filesystem (/)");
}

#[test]
fn probe_by_platform() {
    assert_eq!(drive_probe(Platform::MacOs, false), DriveProbe::ListVolumes);
    assert_eq!(drive_probe(Platform::Linux, true), DriveProbe::ListWindowsDrives);
    assert_eq!(drive_probe(Platform::Linux, false), DriveProbe::ReadMountTable);
    assert_eq!(drive_probe(Platform::Other, true), DriveProbe::NoProbe);
}

#[test]
fn mount_table_filters_system_mounts() {
    let table = "/\n[SWAP]\n\n/boot/efi\n/snap/core/123\n/mnt/data\n  /media/usb stick  \r\n/home\n";
    let drives = mount_drive_list(table);
    assert_eq!(
        pairs(&drives),
        vec![
            p("/mnt/data", "Mount Point (/mnt/data)"),
            p("/media/usb stick", "Mount Point (/media/usb stick)"),
            p("/home", "Mount Point (/home)"),
        ]
    );
}

#[test]
fn mount_table_last_line_without_newline() {
    let drives = mount_drive_list("/data\n/backup");
    assert_eq!(pairs(&drives), vec![p("/data", "Mount Point (/data)"), p("/backup", "Mount Point (/backup)")]);
    assert!(mount_drive_list("").is_empty());
    // "/bootstrap" starts with "/boot" and is left out, as by the prefix test
    assert!(mount_drive_list("/bootstrap\n/snapshots\n").is_empty());
}

#[test]
fn windows_drives_sorted_and_filtered() {
    let names: Vec<String> = ["d", "wsl", "c", "C", "1", "z", "ab"].iter().map(|s| s.to_string()).collect();
    let drives = windows_drive_list(&names);
    assert_eq!(
        pairs(&drives),
        vec![
            p("/mnt/c", "Windows Drive (C:)"),
            p("/mnt/d", "Windows Drive (D:)"),
            p("/mnt/z", "Windows Drive (Z:)"),
        ]
    );
}

fn vol(name: &str, symlink: bool) -> VolumeEntry {
    VolumeEntry {
        name_bytes: name.as_bytes().to_vec(),
        name: Some(name.to_string()),
        path: format!("/Volumes/{}", name),
        is_symlink: symlink,
    }
}

#[test]
fn volumes_sorted_by_name_without_links() {
    let mut odd = vol("x", false);
    odd.name_bytes = vec![0xff];
    odd.name = None;
    odd.path = "/Volumes/\u{fffd}".to_string();
    let entries = vec![vol("Macintosh HD", true), vol("USB", false), vol("Backup", false), odd];
    let drives = volume_drive_list(&entries);
    assert_eq!(
        pairs(&drives),
        vec![
            p("/Volumes/Backup", "External Drive (Backup)"),
            p("/Volumes/USB", "External Drive (USB)"),
            p("/Volumes/\u{fffd}", "External Drive (?)"),
        ]
    );
}

#[test]
fn get_drives_puts_root_first() {
    let listing = DriveListing::MountTable("/mnt/data\n".to_string());
    let drives = get_drives(Platform::Linux, &listing);
    assert_eq!(
        pairs(&drives),
        vec![p("/", "Root Filesystem (/)"), p("/mnt/data", "Mount Point (/mnt/data)")]
    );
    let only_root = get_drives(Platform::MacOs, &DriveListing::Nothing);
    assert_eq!(pairs(&only_root), vec![p("/", "Root Filesystem (macOS /)")]);
    assert!(additional_drives(&DriveListing::WindowsDriveNames(vec![])).is_empty());
}
