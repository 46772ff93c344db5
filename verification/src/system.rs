//! The description of the machine: operating system, host and user.

use vstd::prelude::*;
use crate::paths::opt_text;
use crate::text::{
    char_rows, chars_of, contains_chars, has_infix, has_prefix, lines_of, push_all, split_lines,
    starts_with_chars, string_chars, string_from_chars, trim, trim_chars,
};
use crate::types::{Platform, SystemInfo};

verus! {

/// Whether a kernel version text is that of Linux running under Windows.
pub open spec fn is_wsl_version(version: Option<Seq<char>>) -> bool {
    match version {
        Some(v) => has_infix(v, "Microsoft"@) || has_infix(v, "WSL"@),
        None => false,
    }
}

/// Whether the kernel version text (`/proc/version`, when it could be read)
/// is that of Linux running under Windows.
pub fn is_wsl_kernel(proc_version: &Option<String>) -> (b: bool)
    ensures
        b == is_wsl_version(opt_text(*proc_version)),
{
    match proc_version {
        Some(v) => {
            let t = string_chars(v);
            contains_chars(&t, &chars_of("Microsoft")) || contains_chars(&t, &chars_of("WSL"))
        },
        None => false,
    }
}

/// The first of `lines` that begins with `p`.
pub open spec fn first_with_prefix(lines: Seq<Seq<char>>, p: Seq<char>) -> Option<Seq<char>>
    decreases lines.len(),
{
    if lines.len() == 0 {
        None
    } else if has_prefix(lines[0], p) {
        Some(lines[0])
    } else {
        first_with_prefix(lines.drop_first(), p)
    }
}

/// `s` with every leading repetition of the non-empty `p` removed
/// (`str::trim_start_matches`).
pub open spec fn strip_prefix_repeatedly(s: Seq<char>, p: Seq<char>) -> Seq<char>
    decreases s.len(),
{
    if p.len() > 0 && has_prefix(s, p) {
        strip_prefix_repeatedly(s.subrange(p.len() as int, s.len() as int), p)
    } else {
        s
    }
}

/// `s` without the copies of `c` at its start.
pub open spec fn trim_start_char(s: Seq<char>, c: char) -> Seq<char>
    decreases s.len(),
{
    if s.len() > 0 && s[0] == c {
        trim_start_char(s.drop_first(), c)
    } else {
        s
    }
}

/// `s` without the copies of `c` at its end.
pub open spec fn trim_end_char(s: Seq<char>, c: char) -> Seq<char>
    decreases s.len(),
{
    if s.len() > 0 && s.last() == c {
        trim_end_char(s.drop_last(), c)
    } else {
        s
    }
}

/// The name of a Linux distribution from the text of `os-release`: the
/// value of its first `PRETTY_NAME=` line with the quotes around it
/// removed, or `Linux` when there is none or the file could not be read.
pub open spec fn distro_name(os_release: Option<Seq<char>>) -> Seq<char> {
    match os_release {
        Some(text) => match first_with_prefix(lines_of(text), "PRETTY_NAME="@) {
            Some(line) => trim_end_char(
                trim_start_char(strip_prefix_repeatedly(line, "PRETTY_NAME="@), '"'),
                '"',
            ),
            None => "Linux"@,
        },
        None => "Linux"@,
    }
}

fn strip_key(line: &Vec<char>, key: &Vec<char>) -> (r: Vec<char>)
    requires
        key@.len() > 0,
    ensures
        r@ == strip_prefix_repeatedly(line@, key@),
{
    let n = line.len();
    let mut i: usize = 0;
    let mut rest: Vec<char> = line.clone();
    assert(line@.subrange(0, n as int) =~= line@);
    while starts_with_chars(&rest, key)
        invariant
            key@.len() > 0,
            i <= n == line@.len(),
            rest@ == line@.subrange(i as int, n as int),
            strip_prefix_repeatedly(line@, key@) == strip_prefix_repeatedly(rest@, key@),
        decreases n - i,
    {
        let mut next: Vec<char> = Vec::new();
        let mut k: usize = key.len();
        while k < rest.len()
            invariant
                key@.len() <= k <= rest@.len(),
                next@ =~= rest@.subrange(key@.len() as int, k as int),
            decreases rest.len() - k,
        {
            next.push(rest[k]);
            k = k + 1;
        }
        i = i + key.len();
        assert(next@ =~= line@.subrange(i as int, n as int));
        rest = next;
    }
    rest
}

fn trim_quotes(s: &Vec<char>) -> (r: Vec<char>)
    ensures
        r@ == trim_end_char(trim_start_char(s@, '"'), '"'),
{
    let n = s.len();
    let mut i: usize = 0;
    assert(s@.subrange(0, n as int) =~= s@);
    while i < n && s[i] == '"'
        invariant
            i <= n == s@.len(),
            trim_start_char(s@, '"') == trim_start_char(s@.subrange(i as int, n as int), '"'),
        decreases n - i,
    {
        assert(s@.subrange(i as int, n as int).drop_first() =~= s@.subrange(i + 1, n as int));
        i = i + 1;
    }
    let mut j: usize = n;
    while j > i && s[j - 1] == '"'
        invariant
            i <= j <= n == s@.len(),
            trim_end_char(trim_start_char(s@, '"'), '"') == trim_end_char(
                s@.subrange(i as int, j as int),
                '"',
            ),
        decreases j,
    {
        assert(s@.subrange(i as int, j as int).drop_last() =~= s@.subrange(i as int, j - 1));
        j = j - 1;
    }
    let mut r: Vec<char> = Vec::new();
    let mut k: usize = i;
    while k < j
        invariant
            i <= k <= j <= n == s@.len(),
            r@ =~= s@.subrange(i as int, k as int),
        decreases j - k,
    {
        r.push(s[k]);
        k = k + 1;
    }
    r
}

/// The distribution name from the text of `os-release`, when it could be
/// read.
pub fn get_linux_distro(os_release: &Option<String>) -> (name: String)
    ensures
        name@ == distro_name(opt_text(*os_release)),
{
    match os_release {
        Some(text) => {
            let lines = split_lines(&string_chars(text));
            let ghost ls = char_rows(lines@);
            let key = chars_of("PRETTY_NAME=");
            proof {
                reveal_strlit("PRETTY_NAME=");
            }
            assert(ls.skip(0) =~= ls);
            let mut i: usize = 0;
            while i < lines.len()
                invariant
                    i <= lines@.len() == ls.len(),
                    ls == char_rows(lines@),
                    ls == lines_of(text@),
                    opt_text(*os_release) == Some(text@),
                    key@ == "PRETTY_NAME="@,
                    key@.len() > 0,
                    first_with_prefix(ls, key@) == first_with_prefix(ls.skip(i as int), key@),
                decreases lines.len() - i,
            {
                assert(ls.skip(i as int).drop_first() =~= ls.skip(i + 1));
                assert(ls.skip(i as int)[0] == ls[i as int]);
                assert(lines@[i as int]@ == ls[i as int]);
                if starts_with_chars(&lines[i], &key) {
                    let value = trim_quotes(&strip_key(&lines[i], &key));
                    assert(first_with_prefix(ls, key@) == Some(ls[i as int]));
                    return string_from_chars(value);
                }
                i = i + 1;
            }
            "Linux".to_owned()
        },
        None => "Linux".to_owned(),
    }
}

/// The label of the operating system: `macOS` with its version when
/// `sw_vers` reported one, the Linux distribution (inside `WSL (...)` under
/// Windows), or `Unknown OS`.
pub open spec fn os_label_text(
    platform: Platform,
    macos_version_output: Option<Seq<char>>,
    proc_version: Option<Seq<char>>,
    os_release: Option<Seq<char>>,
) -> Seq<char> {
    match platform {
        Platform::MacOs => {
            let version = match macos_version_output {
                Some(out) => trim(out),
                None => seq![],
            };
            if version.len() == 0 {
                "macOS"@
            } else {
                "macOS "@ + version
            }
        },
        Platform::Linux => if is_wsl_version(proc_version) {
            "WSL ("@ + distro_name(os_release) + ")"@
        } else {
            distro_name(os_release)
        },
        Platform::Other => "Unknown OS"@,
    }
}

/// The label of the operating system, from what `sw_vers -productVersion`
/// printed (macOS), `/proc/version` and `/etc/os-release` (Linux), each
/// when it could be had.
pub fn get_os_label(
    platform: Platform,
    macos_version_output: &Option<String>,
    proc_version: &Option<String>,
    os_release: &Option<String>,
) -> (label: String)
    ensures
        label@ == os_label_text(
            platform,
            opt_text(*macos_version_output),
            opt_text(*proc_version),
            opt_text(*os_release),
        ),
{
    match platform {
        Platform::MacOs => {
            let version = match macos_version_output {
                Some(out) => trim_chars(&string_chars(out)),
                None => Vec::new(),
            };
            if version.len() == 0 {
                "macOS".to_owned()
            } else {
                let mut label = chars_of("macOS ");
                push_all(&mut label, &version);
                string_from_chars(label)
            }
        },
        Platform::Linux => {
            let distro = get_linux_distro(os_release);
            if is_wsl_kernel(proc_version) {
                let mut label = chars_of("WSL (");
                push_all(&mut label, &string_chars(&distro));
                push_all(&mut label, &chars_of(")"));
                string_from_chars(label)
            } else {
                distro
            }
        },
        Platform::Other => "Unknown OS".to_owned(),
    }
}

/// The user name: `USER`, else `USERNAME`, else `unknown`.
pub open spec fn user_name_text(user: Option<Seq<char>>, username: Option<Seq<char>>) -> Seq<
    char,
> {
    match user {
        Some(u) => u,
        None => match username {
            Some(u) => u,
            None => "unknown"@,
        },
    }
}

/// The host name: what `hostname` printed, trimmed, or `unknown` when it
/// could not be run.
pub open spec fn host_name_text(hostname_output: Option<Seq<char>>) -> Seq<char> {
    match hostname_output {
        Some(out) => trim(out),
        None => "unknown"@,
    }
}

/// The description of the machine, from its operating system label, the
/// output of `hostname` and the `USER` and `USERNAME` variables.
pub fn get_system_info(
    os_label: String,
    hostname_output: &Option<String>,
    user: &Option<String>,
    username: &Option<String>,
) -> (info: SystemInfo)
    ensures
        info.os_label@ == os_label@,
        info.hostname@ == host_name_text(opt_text(*hostname_output)),
        info.username@ == user_name_text(opt_text(*user), opt_text(*username)),
{
    let username = match user {
        Some(u) => u.clone(),
        None => match username {
            Some(u) => u.clone(),
            None => "unknown".to_owned(),
        },
    };
    let hostname = match hostname_output {
        Some(out) => string_from_chars(trim_chars(&string_chars(out))),
        None => "unknown".to_owned(),
    };
    SystemInfo { os_label, hostname, username }
}


/// The value of a `PRETTY_NAME=` line: the key taken off, then the quotes
/// around the value.
pub open spec fn pretty_name_value(line: Seq<char>) -> Seq<char> {
    trim_end_char(trim_start_char(strip_prefix_repeatedly(line, "PRETTY_NAME="@), '"'), '"')
}

/// The distribution's name is read from the first line of `os-release`
/// that begins with `PRETTY_NAME=`, wherever it stands in the file; it is
/// `Linux` when the file is missing or no line begins so.
pub proof fn lemma_distro_from_first_pretty_name(text: Seq<char>, k: int)
    ensures
        0 <= k < lines_of(text).len() && has_prefix(lines_of(text)[k], "PRETTY_NAME="@) && (forall|
            j: int,
        |
            0 <= j < k ==> !has_prefix(#[trigger] lines_of(text)[j], "PRETTY_NAME="@))
            ==> distro_name(Some(text)) == pretty_name_value(lines_of(text)[k]),
        (forall|j: int|
            0 <= j < lines_of(text).len() ==> !has_prefix(
                #[trigger] lines_of(text)[j],
                "PRETTY_NAME="@,
            )) ==> distro_name(Some(text)) == "Linux"@,
        distro_name(None) == "Linux"@,
{
    let ls = lines_of(text);
    lemma_first_with_prefix_at(ls, "PRETTY_NAME="@, 0);
    assert(ls.skip(0) =~= ls);
    if 0 <= k < ls.len() && has_prefix(ls[k], "PRETTY_NAME="@) && (forall|j: int|
        0 <= j < k ==> !has_prefix(#[trigger] ls[j], "PRETTY_NAME="@)) {
        lemma_first_with_prefix_found(ls, "PRETTY_NAME="@, k);
    }
}

/// Searching from line `from`: nothing is found when no line from there on
/// has the prefix.
proof fn lemma_first_with_prefix_at(lines: Seq<Seq<char>>, p: Seq<char>, from: int)
    requires
        0 <= from <= lines.len(),
    ensures
        (forall|j: int| from <= j < lines.len() ==> !has_prefix(#[trigger] lines[j], p))
            ==> first_with_prefix(lines.skip(from), p) is None,
    decreases lines.len() - from,
{
    if from < lines.len() {
        lemma_first_with_prefix_at(lines, p, from + 1);
        assert(lines.skip(from).drop_first() =~= lines.skip(from + 1));
        assert(lines.skip(from)[0] == lines[from]);
    } else {
        assert(lines.skip(from).len() == 0);
    }
    if from == 0 {
        assert(lines.skip(0) =~= lines);
    }
}

/// The search finds line `k` when it has the prefix and no line before it
/// does.
proof fn lemma_first_with_prefix_found(lines: Seq<Seq<char>>, p: Seq<char>, k: int)
    requires
        0 <= k < lines.len(),
        has_prefix(lines[k], p),
        forall|j: int| 0 <= j < k ==> !has_prefix(#[trigger] lines[j], p),
    ensures
        first_with_prefix(lines, p) == Some(lines[k]),
    decreases k,
{
    if k > 0 {
        let rest = lines.drop_first();
        assert forall|j: int| 0 <= j < k - 1 implies !has_prefix(#[trigger] rest[j], p) by {
            assert(rest[j] == lines[j + 1]);
        }
        assert(rest[k - 1] == lines[k]);
        lemma_first_with_prefix_found(rest, p, k - 1);
        assert(!has_prefix(lines[0], p));
    }
}

} // verus!
