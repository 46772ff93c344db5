//! Where a snapshot is saved.

use vstd::prelude::*;
use crate::clock::{clock_error_text, day_stamp, is_day_stamp, now_timestamp};
use crate::scan::{is_wsl_drive, is_wsl_drive_path};
use crate::drives::ascii_upper;
use crate::text::{
    chars_of, push_all, same_chars, string_chars, string_from_chars, trim, trim_chars,
    lemma_encode_concat, lemma_utf8_len, utf8_len, char_width,
};
use crate::types::Platform;
use vstd::utf8::{encode_scalar, encode_utf8, is_ascii_chars, is_ascii_chars_encode_utf8};

verus! {

/// The first character of the upper-case mapping of `c`
/// (`char::to_uppercase`, first item).
pub uninterp spec fn uppercase_first(c: char) -> char;

/// The first character of the upper-case mapping of `c`
/// (`char::to_uppercase`, whose iterator always yields at least one
/// character). Stated besides the name: ASCII lower-case letters map to
/// their upper-case letters and other ASCII characters to themselves, as
/// the documentation of `to_uppercase` says. Not stated: the mapping of
/// other characters, which follows the Unicode tables.
#[verifier::external_body]
pub fn first_uppercase(c: char) -> (u: char)
    ensures
        u == uppercase_first(c),
        (c as u32) < 128 ==> u == ascii_upper(c),
{
    c.to_uppercase().next().unwrap_or('X')
}

/// Reading `s` backwards, with `piece` the part of the last component
/// already read: the last component that is neither empty nor `.`, unless
/// it is `..` (`Path::file_name` on Unix paths).
pub open spec fn file_name_scan(s: Seq<char>, piece: Seq<char>) -> Option<Seq<char>>
    decreases s.len(),
{
    if s.len() == 0 || s.last() == '/' {
        if piece.len() == 0 || piece == seq!['.'] {
            if s.len() == 0 {
                None
            } else {
                file_name_scan(s.drop_last(), seq![])
            }
        } else if piece == seq!['.', '.'] {
            None
        } else {
            Some(piece)
        }
    } else {
        file_name_scan(s.drop_last(), seq![s.last()] + piece)
    }
}

/// The final component of a path, as `Path::file_name` finds it.
pub open spec fn file_name_of(s: Seq<char>) -> Option<Seq<char>> {
    file_name_scan(s, seq![])
}

/// The final component of the path `s`.
pub fn file_name_chars(s: &Vec<char>) -> (r: Option<Vec<char>>)
    ensures
        match r {
            Some(v) => file_name_of(s@) == Some(v@),
            None => file_name_of(s@) is None,
        },
{
    let mut end: usize = s.len();
    assert(s@.subrange(0, end as int) =~= s@);
    loop
        invariant
            end <= s@.len(),
            file_name_of(s@) == file_name_scan(s@.subrange(0, end as int), seq![]),
        decreases end,
    {
        let mut start: usize = end;
        let mut piece: Vec<char> = Vec::new();
        while start > 0 && s[start - 1] != '/'
            invariant
                start <= end <= s@.len(),
                piece@ == s@.subrange(start as int, end as int),
                file_name_of(s@) == file_name_scan(s@.subrange(0, start as int), piece@),
            decreases start,
        {
            let c = s[start - 1];
            let ghost old_piece = piece@;
            assert(s@.subrange(0, start as int).drop_last() =~= s@.subrange(0, start - 1));
            assert(s@.subrange(0, start as int).last() == c);
            piece.insert(0, c);
            assert(piece@ =~= seq![c] + old_piece);
            start = start - 1;
            assert(piece@ =~= s@.subrange(start as int, end as int));
        }
        let dot = piece.len() == 1 && piece[0] == '.';
        let dotdot = piece.len() == 2 && piece[0] == '.' && piece[1] == '.';
        assert(dot <==> piece@ == seq!['.']) by {
            if piece@ == seq!['.'] {
                assert(piece@[0] == '.');
            }
            if dot {
                assert(piece@ =~= seq!['.']);
            }
        }
        assert(dotdot <==> piece@ == seq!['.', '.']) by {
            if piece@ == seq!['.', '.'] {
                assert(piece@[0] == '.' && piece@[1] == '.');
            }
            if dotdot {
                assert(piece@ =~= seq!['.', '.']);
            }
        }
        if piece.len() == 0 || dot {
            if start == 0 {
                return None;
            }
            assert(s@.subrange(0, start as int).drop_last() =~= s@.subrange(0, start - 1));
            end = start - 1;
        } else if dotdot {
            return None;
        } else {
            return Some(piece);
        }
    }
}

/// `s` with every space replaced by an underscore.
pub open spec fn underscored(s: Seq<char>) -> Seq<char> {
    s.map_values(|c: char| if c == ' ' { '_' } else { c })
}

/// The name a snapshot file gives the scanned drive: the root file system
/// by platform; a Windows drive mounted under WSL (`/mnt/` and one
/// lower-case letter, such as `/mnt/c`) as `Windows_` and its letter in
/// upper case (`Windows_C`); anything else by the last component of its
/// path with spaces turned into underscores.
pub open spec fn drive_name(platform: Platform, target: Seq<char>) -> Seq<char> {
    if target == "/"@ {
        if platform == Platform::MacOs {
            "macOS_Root"@
        } else {
            "Linux_Root"@
        }
    } else if is_wsl_drive_path(target) {
        "Windows_"@ + seq![ascii_upper(target.last())]
    } else {
        underscored(
            match file_name_of(target) {
                Some(n) => n,
                None => "Unknown"@,
            },
        )
    }
}

/// The path of a WSL drive is `/mnt/` and its letter: six characters, the
/// last an ASCII lower-case letter, whose code is the last byte.
pub proof fn lemma_wsl_drive_letter(t: Seq<char>)
    requires
        is_wsl_drive_path(t),
    ensures
        t.len() == 6,
        97 <= t.last() as u32 <= 122,
{
    reveal_strlit("/mnt/");
    let head = t.subrange(0, 5);
    let rest = t.skip(5);
    assert(head =~= "/mnt/"@);
    assert(t =~= head + rest);
    assert(is_ascii_chars(head));
    is_ascii_chars_encode_utf8(head);
    lemma_encode_concat(head, rest);
    lemma_utf8_len(rest);
    let bytes = encode_utf8(t);
    assert(encode_utf8(rest).len() == 1);
    assert(rest.len() > 0);
    assert(rest.len() == 1) by {
        if rest.len() > 1 {
            assert(utf8_len(rest.drop_first()) >= char_width(rest.drop_first()[0]));
        }
    }
    let c = rest[0];
    assert(char_width(c) == 1);
    assert(rest.drop_first() =~= Seq::<char>::empty());
    assert(encode_utf8(rest) =~= encode_scalar(c as u32));
    assert(bytes[5] == encode_utf8(rest)[0]);
    let v = c as u32;
    assert(bytes[5] == (v & 0x7f) as u8);
    assert(v & 0x7f == v && (v as u8) as u32 == v) by (bit_vector)
        requires
            v <= 0x7f,
    ;
    assert(97 <= v <= 122);
    assert(t.last() == c);
}

/// The name under which a scan of `target_path` is saved.
pub fn drive_name_for(platform: Platform, target_path: &str) -> (name: Vec<char>)
    ensures
        name@ == drive_name(platform, target_path@),
{
    let t = chars_of(target_path);
    if same_chars(&t, &chars_of("/")) {
        if platform == Platform::MacOs {
            chars_of("macOS_Root")
        } else {
            chars_of("Linux_Root")
        }
    } else if is_wsl_drive(target_path) {
        proof {
            lemma_wsl_drive_letter(t@);
        }
        let mut name = chars_of("Windows_");
        let last = t[t.len() - 1];
        name.push(first_uppercase(last));
        assert(name@ =~= "Windows_"@ + seq![ascii_upper(target_path@.last())]);
        assert(name@ == drive_name(platform, target_path@));
        name
    } else {
        let base = match file_name_chars(&t) {
            Some(n) => n,
            None => chars_of("Unknown"),
        };
        assert(base@ == match file_name_of(t@) {
            Some(n) => n,
            None => "Unknown"@,
        });
        let mut out: Vec<char> = Vec::new();
        let mut k: usize = 0;
        while k < base.len()
            invariant
                k <= base@.len(),
                out@ =~= underscored(base@).subrange(0, k as int),
            decreases base.len() - k,
        {
            let c = base[k];
            out.push(if c == ' ' { '_' } else { c });
            k = k + 1;
        }
        assert(underscored(base@).subrange(0, base@.len() as int) =~= underscored(base@));
        assert(out@ == drive_name(platform, target_path@));
        out
    }
}

/// The snapshot file for a drive in a home directory, on a given day.
pub open spec fn snapshot_path(home: Seq<char>, date: Seq<char>, drive: Seq<char>) -> Seq<char> {
    home + "/TreeSnapshots/snapshots/snapshot_"@ + date + "_"@ + drive + ".txt"@
}

/// The path of the snapshot file of `drive`, saved under `home` on `date`.
pub fn snapshot_file_path(home: &str, date: &str, drive: &Vec<char>) -> (path: String)
    ensures
        path@ == snapshot_path(home@, date@, drive@),
{
    let mut out = chars_of(home);
    push_all(&mut out, &chars_of("/TreeSnapshots/snapshots/snapshot_"));
    push_all(&mut out, &chars_of(date));
    push_all(&mut out, &chars_of("_"));
    push_all(&mut out, drive);
    push_all(&mut out, &chars_of(".txt"));
    string_from_chars(out)
}

/// The home directory to save snapshots in. Under `sudo` (when
/// `sudo_user` is set) it is the invoking user's home as the shell expands
/// it, when that expansion worked, and otherwise `home` or `/tmp`; without
/// `sudo` it is `home`, which must be set.
pub open spec fn home_choice(
    sudo_user: Option<Seq<char>>,
    sudo_home_output: Option<Seq<char>>,
    home: Option<Seq<char>>,
) -> Result<Seq<char>, Seq<char>> {
    match sudo_user {
        Some(_) => match sudo_home_output {
            Some(out) if trim(out).len() > 0 && trim(out)[0] != '~' => Ok(trim(out)),
            _ => Ok(
                match home {
                    Some(h) => h,
                    None => "/tmp"@,
                },
            ),
        },
        None => match home {
            Some(h) => Ok(h),
            None => Err("HOME environment variable not set"@),
        },
    }
}

pub open spec fn opt_text(o: Option<String>) -> Option<Seq<char>> {
    match o {
        Some(s) => Some(s@),
        None => None,
    }
}

pub open spec fn result_text(r: Result<String, String>) -> Result<Seq<char>, Seq<char>> {
    match r {
        Ok(s) => Ok(s@),
        Err(e) => Err(e@),
    }
}

/// The command that asks the shell for the home directory of `user`.
pub fn sudo_home_command(user: &str) -> (argv: Vec<String>)
    ensures
        argv@.len() == 3,
        argv@[0]@ == "sh"@,
        argv@[1]@ == "-c"@,
        argv@[2]@ == "eval echo ~"@ + user@,
{
    let mut script = chars_of("eval echo ~");
    push_all(&mut script, &chars_of(user));
    let mut argv: Vec<String> = Vec::new();
    argv.push("sh".to_owned());
    argv.push("-c".to_owned());
    argv.push(string_from_chars(script));
    argv
}

/// Chooses the home directory: `sudo_user` is the `SUDO_USER` variable,
/// `sudo_home_output` what the shell printed for that user's home (when it
/// ran), `home` the `HOME` variable.
pub fn resolve_home(
    sudo_user: &Option<String>,
    sudo_home_output: &Option<String>,
    home: &Option<String>,
) -> (r: Result<String, String>)
    ensures
        result_text(r) == home_choice(
            opt_text(*sudo_user),
            opt_text(*sudo_home_output),
            opt_text(*home),
        ),
{
    match sudo_user {
        Some(_) => {
            let expanded = match sudo_home_output {
                Some(out) => {
                    let t = trim_chars(&string_chars(out));
                    if t.len() > 0 && t[0] != '~' {
                        Some(t)
                    } else {
                        None
                    }
                },
                None => None,
            };
            match expanded {
                Some(t) => Ok(string_from_chars(t)),
                None => match home {
                    Some(h) => Ok(h.clone()),
                    None => Ok("/tmp".to_owned()),
                },
            }
        },
        None => match home {
            Some(h) => Ok(h.clone()),
            None => Err("HOME environment variable not set".to_owned()),
        },
    }
}

/// The file a scan of `target_path` is saved to: the resolved home
/// directory, then `TreeSnapshots/snapshots/snapshot_<date>_<drive>.txt`
/// with today's local date as `YYYYMMDD`. The errors are that of
/// `resolve_home`, and the clock error when the system clock gives no date
/// (it is set before 1970, or beyond the dates `chrono` handles).
pub fn build_output_path(
    platform: Platform,
    target_path: &str,
    sudo_user: &Option<String>,
    sudo_home_output: &Option<String>,
    home: &Option<String>,
) -> (r: Result<String, String>)
    ensures
        match home_choice(opt_text(*sudo_user), opt_text(*sudo_home_output), opt_text(*home)) {
            Err(e) => r matches Err(m) && m@ == e,
            Ok(h) => match r {
                Ok(p) => exists|date: Seq<char>|
                    is_day_stamp(date) && p@ == snapshot_path(h, date, drive_name(platform, target_path@)),
                Err(m) => m@ == clock_error_text(),
            },
        },
{
    let home_dir = match resolve_home(sudo_user, sudo_home_output, home) {
        Ok(h) => h,
        Err(e) => {
            return Err(e);
        },
    };
    let date = match day_stamp(now_timestamp()) {
        Ok(d) => d,
        Err(e) => {
            return Err(e);
        },
    };
    let drive = drive_name_for(platform, target_path);
    let path = snapshot_file_path(home_dir.as_str(), date.as_str(), &drive);
    assert(is_day_stamp(date@));
    Ok(path)
}

/// A Windows drive mounted under WSL, `/mnt/` and a lower-case letter, is
/// saved under the name `Windows_` and that letter in upper case.
pub proof fn lemma_wsl_drive_named_by_letter(platform: Platform, c: char)
    requires
        'a' <= c <= 'z',
    ensures
        is_wsl_drive_path("/mnt/"@ + seq![c]),
        drive_name(platform, "/mnt/"@ + seq![c]) == "Windows_"@ + seq![ascii_upper(c)],
{
    reveal_strlit("/mnt/");
    reveal_strlit("/");
    let path = "/mnt/"@ + seq![c];
    assert(is_ascii_chars(path));
    is_ascii_chars_encode_utf8(path);
    assert(path.subrange(0, 5) =~= "/mnt/"@);
    assert(path != "/"@) by {
        assert(path.len() != "/"@.len());
    }
    assert(path.last() == c);
}

} // verus!
