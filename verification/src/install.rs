//! Finding and installing the `tree` command, and the helper programs the
//! tool starts.

use vstd::prelude::*;
use crate::paths::opt_text;
use crate::text::{chars_of, same_chars, string_chars, strings_text, trim, trim_chars};
use crate::types::Platform;

verus! {

/// The command that looks a program up on the search path.
pub fn which_command(program: &str) -> (argv: Vec<String>)
    ensures
        strings_text(argv@) == seq!["which"@, program@],
{
    let mut argv: Vec<String> = Vec::new();
    argv.push("which".to_owned());
    argv.push(program.to_owned());
    assert(strings_text(argv@) =~= seq!["which"@, program@]);
    argv
}

/// Whether a program was found, from the run of `which`: `None` when
/// `which` could not be run, otherwise whether it exited successfully.
pub fn which_exists(which_status: Option<bool>) -> (found: bool)
    ensures
        found == (which_status == Some(true)),
{
    match which_status {
        Some(success) => success,
        None => false,
    }
}

/// Whether the `tree` command is installed, from the run of `which tree`
/// (as for `which_exists`).
pub fn check_tree(which_status: Option<bool>) -> (found: bool)
    ensures
        found == (which_status == Some(true)),
{
    which_exists(which_status)
}

/// Which package managers were found on the search path.
#[derive(Clone, Copy, Debug)]
pub struct PackageTools {
    pub brew: bool,
    pub apt_get: bool,
    pub dnf: bool,
    pub yum: bool,
}

/// The message when Homebrew is missing on macOS.
pub open spec fn missing_brew_message() -> Seq<char> {
    "Homebrew not found. Visit https://brew.sh, then run: brew install tree"@
}

/// The command that installs `tree`: Homebrew on macOS; on Linux the first
/// of `apt-get`, `dnf` and `yum` that is present, run through `sudo` under
/// WSL and `pkexec` otherwise; and the error when there is no way.
pub open spec fn install_plan(
    platform: Platform,
    is_wsl: bool,
    tools: PackageTools,
    missing_brew: Seq<char>,
) -> Result<Seq<Seq<char>>, Seq<char>> {
    match platform {
        Platform::MacOs => if tools.brew {
            Ok(seq!["brew"@, "install"@, "tree"@])
        } else {
            Err(missing_brew)
        },
        Platform::Linux => {
            let elevator = if is_wsl {
                "sudo"@
            } else {
                "pkexec"@
            };
            if tools.apt_get {
                Ok(seq![elevator, "apt-get"@, "install"@, "-y"@, "tree"@])
            } else if tools.dnf {
                Ok(seq![elevator, "dnf"@, "install"@, "-y"@, "tree"@])
            } else if tools.yum {
                Ok(seq![elevator, "yum"@, "install"@, "-y"@, "tree"@])
            } else {
                Err("No supported package manager found (apt-get, dnf, yum). Install tree manually."@)
            }
        },
        Platform::Other => Err("Unsupported operating system"@),
    }
}

pub open spec fn plan_text(r: Result<Vec<String>, String>) -> Result<Seq<Seq<char>>, Seq<char>> {
    match r {
        Ok(v) => Ok(strings_text(v@)),
        Err(e) => Err(e@),
    }
}

/// The install command, with the given message for a missing Homebrew.
pub fn install_args_with(
    platform: Platform,
    is_wsl: bool,
    tools: PackageTools,
    missing_brew: &str,
) -> (r: Result<Vec<String>, String>)
    ensures
        plan_text(r) == install_plan(platform, is_wsl, tools, missing_brew@),
{
    match platform {
        Platform::MacOs => {
            if tools.brew {
                let mut v: Vec<String> = Vec::new();
                v.push("brew".to_owned());
                v.push("install".to_owned());
                v.push("tree".to_owned());
                assert(strings_text(v@) =~= seq!["brew"@, "install"@, "tree"@]);
                Ok(v)
            } else {
                Err(missing_brew.to_owned())
            }
        },
        Platform::Linux => {
            let manager = if tools.apt_get {
                "apt-get"
            } else if tools.dnf {
                "dnf"
            } else if tools.yum {
                "yum"
            } else {
                return Err(
                    "No supported package manager found (apt-get, dnf, yum). Install tree manually.".to_owned(),
                );
            };
            let elevator = if is_wsl {
                "sudo"
            } else {
                "pkexec"
            };
            let mut v: Vec<String> = Vec::new();
            v.push(elevator.to_owned());
            v.push(manager.to_owned());
            v.push("install".to_owned());
            v.push("-y".to_owned());
            v.push("tree".to_owned());
            assert(strings_text(v@) =~= seq![elevator@, manager@, "install"@, "-y"@, "tree"@]);
            Ok(v)
        },
        Platform::Other => Err("Unsupported operating system".to_owned()),
    }
}

/// The command that installs `tree` on this machine, or why there is none.
pub fn get_install_args(platform: Platform, is_wsl: bool, tools: PackageTools) -> (r: Result<
    Vec<String>,
    String,
>)
    ensures
        plan_text(r) == install_plan(platform, is_wsl, tools, missing_brew_message()),
{
    install_args_with(
        platform,
        is_wsl,
        tools,
        "Homebrew not found. Visit https://brew.sh, then run: brew install tree",
    )
}

/// The outcome of the install command, from whether it exited
/// successfully.
pub fn install_outcome(success: bool) -> (r: Result<(), String>)
    ensures
        success ==> r is Ok,
        !success ==> (r matches Err(e) && e@
            == "Installation failed. Check your internet connection or install manually."@),
{
    if success {
        Ok(())
    } else {
        Err("Installation failed. Check your internet connection or install manually.".to_owned())
    }
}

/// The editor to open a snapshot with: `EDITOR`, else `VISUAL`, else the
/// first of `nano`, `vim` and `vi` that is installed, else `vi`.
pub open spec fn editor_choice(
    editor: Option<Seq<char>>,
    visual: Option<Seq<char>>,
    has_nano: bool,
    has_vim: bool,
    has_vi: bool,
) -> Seq<char> {
    match editor {
        Some(e) => e,
        None => match visual {
            Some(v) => v,
            None => if has_nano {
                "nano"@
            } else if has_vim {
                "vim"@
            } else {
                "vi"@
            },
        },
    }
}

/// Chooses the editor, from the `EDITOR` and `VISUAL` variables and which
/// of `nano`, `vim` and `vi` are installed.
pub fn choose_editor(
    editor: &Option<String>,
    visual: &Option<String>,
    has_nano: bool,
    has_vim: bool,
    has_vi: bool,
) -> (chosen: String)
    ensures
        chosen@ == editor_choice(opt_text(*editor), opt_text(*visual), has_nano, has_vim, has_vi),
{
    match editor {
        Some(e) => e.clone(),
        None => match visual {
            Some(v) => v.clone(),
            None => if has_nano {
                "nano".to_owned()
            } else if has_vim {
                "vim".to_owned()
            } else {
                "vi".to_owned()
            },
        },
    }
}

/// The program that opens a file or address with the default application:
/// `open` on macOS, `xdg-open` on Linux, none elsewhere.
pub fn opener_command(platform: Platform) -> (program: Option<String>)
    ensures
        match platform {
            Platform::MacOs => program matches Some(p) && p@ == "open"@,
            Platform::Linux => program matches Some(p) && p@ == "xdg-open"@,
            Platform::Other => program is None,
        },
{
    match platform {
        Platform::MacOs => Some("open".to_owned()),
        Platform::Linux => Some("xdg-open".to_owned()),
        Platform::Other => None,
    }
}

/// Whether the tool runs as the super-user, from what `id -u` printed (when
/// it could be run).
pub fn is_root_output(id_output: &Option<String>) -> (root: bool)
    ensures
        root == (opt_text(*id_output) matches Some(out) && (trim(out) == "0"@)),
{
    match id_output {
        Some(out) => same_chars(&trim_chars(&string_chars(out)), &chars_of("0")),
        None => false,
    }
}


/// On Linux the install command is run through `sudo` under WSL and
/// through `pkexec` otherwise, whichever package manager is used: its
/// first word depends on `is_wsl` alone, and the rest is the package
/// manager's own `install -y tree`. Whether there is a command at all does
/// not depend on `is_wsl`.
pub proof fn lemma_linux_elevator(is_wsl: bool, tools: PackageTools, missing_brew: Seq<char>)
    ensures
        install_plan(Platform::Linux, is_wsl, tools, missing_brew) is Ok <==> (tools.apt_get
            || tools.dnf || tools.yum),
        install_plan(Platform::Linux, is_wsl, tools, missing_brew) matches Ok(cmd) ==> {
            &&& cmd.len() == 5
            &&& cmd[0] == if is_wsl {
                "sudo"@
            } else {
                "pkexec"@
            }
            &&& cmd[1] == if tools.apt_get {
                "apt-get"@
            } else if tools.dnf {
                "dnf"@
            } else {
                "yum"@
            }
            &&& cmd.subrange(2, 5) == seq!["install"@, "-y"@, "tree"@]
        },
        install_plan(Platform::Linux, true, tools, missing_brew) matches Ok(a)
            ==> install_plan(Platform::Linux, false, tools, missing_brew) matches Ok(b)
            && a.drop_first() == b.drop_first(),
{
    let a = install_plan(Platform::Linux, is_wsl, tools, missing_brew);
    if a is Ok {
        assert(a->Ok_0.subrange(2, 5) =~= seq!["install"@, "-y"@, "tree"@]);
    }
    let w = install_plan(Platform::Linux, true, tools, missing_brew);
    let n = install_plan(Platform::Linux, false, tools, missing_brew);
    if w is Ok {
        assert(w->Ok_0.drop_first() =~= n->Ok_0.drop_first());
    }
}

} // verus!
