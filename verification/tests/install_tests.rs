use treesnap_core::install::{
    check_tree, choose_editor, get_install_args, install_outcome, is_root_output, opener_command,
    which_command, which_exists, PackageTools,
};
use treesnap_core::types::Platform;

fn tools(brew: bool, apt_get: bool, dnf: bool, yum: bool) -> PackageTools {
    PackageTools { brew, apt_get, dnf, yum }
}

#[test]
fn which_probe() {
    assert_eq!(which_command("tree"), vec!["which", "tree"]);
    assert!(which_exists(Some(true)));
    assert!(!which_exists(Some(false)));
    assert!(!which_exists(None));
    assert!(check_tree(Some(true)));
    assert!(!check_tree(None));
}

#[test]
fn install_on_macos() {
    assert_eq!(get_install_args(Platform::MacOs, false, tools(true, true, false, false)), Ok(vec!["brew".to_string(), "install".to_string(), "tree".to_string()]));
    assert_eq!(
        get_install_args(Platform::MacOs, false, tools(false, true, true, true)),
        Err("Homebrew not found. Visit https://brew.sh, then run: brew install tree".to_string())
    );
}

#[test]
fn install_on_linux() {
    let v = |xs: &[&str]| Ok::<Vec<String>, String>(xs.iter().map(|s| s.to_string()).collect());
    assert_eq!(get_install_args(Platform::Linux, true, tools(false, true, true, false)), v(&["sudo", "apt-get", "install", "-y", "tree"]));
    assert_eq!(get_install_args(Platform::Linux, false, tools(true, false, true, true)), v(&["pkexec", "dnf", "install", "-y", "tree"]));
    assert_eq!(get_install_args(Platform::Linux, false, tools(false, false, false, true)), v(&["pkexec", "yum", "install", "-y", "tree"]));
    assert_eq!(
        get_install_args(Platform::Linux, true, tools(true, false, false, false)),
        Err("No supported package manager found (apt-get, dnf, yum). Install tree manually.".to_string())
    );
    assert_eq!(get_install_args(Platform::Other, false, tools(true, true, true, true)), Err("Unsupported operating system".to_string()));
}

#[test]
fn install_result() {
    assert_eq!(install_outcome(true), Ok(()));
    assert_eq!(
        install_outcome(false),
        Err("Installation failed. Check your internet connection or install manually.".to_string())
    );
}

#[test]
fn editor_choice() {
    let s = |x: &str| Some(x.to_string());
    assert_eq!(choose_editor(&s("code"), &s("gvim"), true, true, true), "code");
    assert_eq!(choose_editor(&None, &s("gvim"), true, true, true), "gvim");
    assert_eq!(choose_editor(&None, &None, true, true, true), "nano");
    assert_eq!(choose_editor(&None, &None, false, true, true), "vim");
    assert_eq!(choose_editor(&None, &None, false, false, true), "vi");
    assert_eq!(choose_editor(&None, &None, false, false, false), "vi");
}

#[test]
fn openers_and_root() {
    assert_eq!(opener_command(Platform::MacOs), Some("open".to_string()));
    assert_eq!(opener_command(Platform::Linux), Some("xdg-open".to_string()));
    assert_eq!(opener_command(Platform::Other), None);
    assert!(is_root_output(&Some("0\n".to_string())));
    assert!(!is_root_output(&Some("1000\n".to_string())));
    assert!(!is_root_output(&Some("00".to_string())));
    assert!(!is_root_output(&None));
}
