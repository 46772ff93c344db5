use treesnap_core::system::{get_linux_distro, get_os_label, get_system_info, is_wsl_kernel};
use treesnap_core::types::Platform;

fn s(x: &str) -> Option<String> {
    Some(x.to_string())
}

#[test]
fn wsl_kernel_detection() {
    assert!(is_wsl_kernel(&s("Linux version 5.15.90.1-microsoft-standard-WSL2")));
    assert!(is_wsl_kernel(&s("Linux version 4.4.0-19041-Microsoft")));
    assert!(!is_wsl_kernel(&s("Linux version 6.8.0-generic (buildd@lcy02)")));
    assert!(!is_wsl_kernel(&s("microsoft wsl")));
    assert!(!is_wsl_kernel(&None));
}

#[test]
fn distro_from_os_release() {
    let text = "NAME=\"Ubuntu\"\nPRETTY_NAME=\"Ubuntu 24.04.1 LTS\"\nPRETTY_NAME=\"Other\"\n";
    assert_eq!(get_linux_distro(&s(text)), "Ubuntu 24.04.1 LTS");
    assert_eq!(get_linux_distro(&s("ID=fedora\n")), "Linux");
    assert_eq!(get_linux_distro(&None), "Linux");
    assert_eq!(get_linux_distro(&s("PRETTY_NAME=Rocky Linux 10")), "Rocky Linux 10");
    assert_eq!(get_linux_distro(&s("PRETTY_NAME=PRETTY_NAME=\"\"x\"\"\r\n")), "x");
    assert_eq!(get_linux_distro(&s("PRETTY_NAME=\"a\"\r")), "a\"\r");
    assert_eq!(get_linux_distro(&s(" PRETTY_NAME=\"indented\"")), "Linux");
}

#[test]
fn os_labels() {
    assert_eq!(get_os_label(Platform::MacOs, &s("26.0.1\n"), &None, &None), "macOS 26.0.1");
    assert_eq!(get_os_label(Platform::MacOs, &s("  \n"), &None, &None), "macOS");
    assert_eq!(get_os_label(Platform::MacOs, &None, &None, &None), "macOS");
    let release = s("PRETTY_NAME=\"Ubuntu 24.04 LTS\"\n");
    assert_eq!(get_os_label(Platform::Linux, &None, &s("5.15-microsoft-standard-WSL2"), &release), "WSL (Ubuntu 24.04 LTS)");
    assert_eq!(get_os_label(Platform::Linux, &None, &s("6.8.0-generic"), &release), "Ubuntu 24.04 LTS");
    assert_eq!(get_os_label(Platform::Linux, &None, &None, &None), "Linux");
    assert_eq!(get_os_label(Platform::Other, &None, &None, &None), "Unknown OS");
}

#[test]
fn system_info_fields() {
    let info = get_system_info("Linux".to_string(), &s(" box\n"), &s("ann"), &s("bob"));
    assert_eq!((info.os_label.as_str(), info.hostname.as_str(), info.username.as_str()), ("Linux", "box", "ann"));
    let info = get_system_info("macOS".to_string(), &None, &None, &s("bob"));
    assert_eq!((info.hostname.as_str(), info.username.as_str()), ("unknown", "bob"));
    let info = get_system_info("macOS".to_string(), &s(""), &None, &None);
    assert_eq!((info.hostname.as_str(), info.username.as_str()), ("", "unknown"));
}
