//! The `tree` scan: which paths it covers, and how its output is counted.

use vstd::prelude::*;
use crate::text::{
    chars_of, contains_chars, has_infix, has_prefix, push_all, same_chars, starts_with_chars,
    string_from_chars, strings_text, trim, trim_chars, utf8_len, utf8_length, lemma_utf8_len,
};
use crate::types::{Platform, ScanProgress, ScanResult};
use vstd::utf8::encode_utf8;

verus! {

/// Cloud and network storage folders, which can start a network sync or
/// block on remote I/O.
pub const CLOUD_EXCLUDE: &'static str = "CloudStorage|\
     Google Drive|Google Drive (My Drive)|Google Drive (Shared drives)|\
     Dropbox|\
     OneDrive|OneDrive - Personal|\
     Box Sync|Box Drive|\
     iCloud Drive|Mobile Documents|\
     MEGA|\
     pCloud Drive|\
     Tresorit|\
     Sync|\
     Amazon Drive|Amazon Photos|\
     Creative Cloud Files|\
     Nextcloud|ownCloud|\
     Seafile|\
     Insync|\
     SynologyDrive|Synology Drive|\
     Qsync|QNAP Qsync|\
     WD Sync|WD Drive|\
     ShareFile|\
     Egnyte Drive";

/// Package manager and build tool caches: millions of files that mean
/// nothing in a snapshot.
pub const CACHE_EXCLUDE: &'static str = ".m2|\
     .gradle|\
     .npm|node_modules|\
     .cargo|\
     .cache|\
     .nvm|\
     .pyenv|.venv|__pycache__|\
     .rbenv|.rvm|\
     .local";

/// System-internal entries of a full macOS root scan.
pub const MACOS_SYSTEM_EXCLUDE: &'static str = ".vol|.nofollow|.resolve|.file|\
     System|cores|\
     .Spotlight-V100|.fseventsd|.DocumentRevisions-V100|.MobileBackups|\
     run|folders|vm";

/// Virtual file systems of a full Linux root scan.
pub const LINUX_SYSTEM_EXCLUDE: &'static str = "proc|sys|dev|run|tmp|lost+found";

/// Operating system folders of a full Windows drive scan.
pub const WINDOWS_SYSTEM_EXCLUDE: &'static str =
    "Windows|$Recycle.Bin|System Volume Information|Recovery|$WinREAgent";

/// The exclusions of a scan limited to what a user can read.
pub open spec fn user_exclusions() -> Seq<char> {
    CLOUD_EXCLUDE@ + "|"@ + CACHE_EXCLUDE@
}

/// A Windows drive mounted under WSL: `/mnt/` and one lower-case ASCII
/// letter, six bytes in all.
pub open spec fn is_wsl_drive_path(target: Seq<char>) -> bool {
    &&& has_prefix(target, "/mnt/"@)
    &&& encode_utf8(target).len() == 6
    &&& 97 <= encode_utf8(target)[5] <= 122
}

/// Whether `target_path` names a Windows drive mounted under WSL.
pub fn is_wsl_drive(target_path: &str) -> (b: bool)
    ensures
        b == is_wsl_drive_path(target_path@),
{
    let bytes = target_path.as_bytes();
    starts_with_chars(&chars_of(target_path), &chars_of("/mnt/")) && bytes.len() == 6 && 97
        <= bytes[5] && bytes[5] <= 122
}

/// The exclusion arguments and the scanned paths that replace the target
/// itself: a full scan with system exclusions as root, the user-readable
/// folders with cloud and cache folders excluded otherwise; nothing for
/// targets that are scanned as they are.
pub open spec fn scan_scope(
    platform: Platform,
    target: Seq<char>,
    as_root: bool,
    home: Option<Seq<char>>,
) -> (Seq<Seq<char>>, Seq<Seq<char>>) {
    match platform {
        Platform::MacOs => if target == "/"@ {
            if as_root {
                (seq!["-I"@, MACOS_SYSTEM_EXCLUDE@], seq!["/"@])
            } else {
                (
                    seq!["-I"@, user_exclusions()],
                    seq![
                        "/Applications"@,
                        "/opt"@,
                        match home {
                            Some(h) => h,
                            None => "/Users/Shared"@,
                        },
                    ],
                )
            }
        } else {
            (seq![], seq![])
        },
        Platform::Linux => if target == "/"@ {
            if as_root {
                (seq!["-I"@, LINUX_SYSTEM_EXCLUDE@], seq!["/"@])
            } else {
                (seq!["-I"@, user_exclusions()], seq!["/home"@, "/opt"@, "/usr/local"@])
            }
        } else if is_wsl_drive_path(target) {
            if as_root {
                (seq!["-I"@, WINDOWS_SYSTEM_EXCLUDE@], seq![target])
            } else {
                (
                    seq!["-I"@, user_exclusions()],
                    seq![
                        target + "/Users"@,
                        target + "/Program Files"@,
                        target + "/Program Files (x86)"@,
                    ],
                )
            }
        } else {
            (seq![], seq![])
        },
        Platform::Other => (seq![], seq![]),
    }
}

/// The arguments `tree` is run with: permissions, user and human-readable
/// sizes of all entries, staying on one file system, then the exclusions
/// and the scanned paths (the target itself when no other paths replace it).
pub open spec fn scan_arguments(
    platform: Platform,
    target: Seq<char>,
    as_root: bool,
    home: Option<Seq<char>>,
) -> Seq<Seq<char>> {
    let (flags, targets) = scan_scope(platform, target, as_root, home);
    seq!["-apu"@, "-h"@, "-x"@] + flags + if targets.len() == 0 {
        seq![target]
    } else {
        targets
    }
}

fn text_of(s: &str) -> (t: String)
    ensures
        t@ == s@,
{
    s.to_owned()
}

fn joined(a: &str, b: &str) -> (t: String)
    ensures
        t@ == a@ + b@,
{
    let mut v = chars_of(a);
    push_all(&mut v, &chars_of(b));
    string_from_chars(v)
}

/// The arguments of the `tree` scan of `target_path`; `as_root` tells
/// whether the tool runs as the super-user, `home` is the `HOME` variable.
pub fn scan_command_args(
    platform: Platform,
    target_path: &str,
    as_root: bool,
    home: &Option<String>,
) -> (args: Vec<String>)
    ensures
        strings_text(args@) == scan_arguments(
            platform,
            target_path@,
            as_root,
            match home {
                Some(h) => Some(h@),
                None => None,
            },
        ),
{
    let ghost home_text = match home {
        Some(h) => Some(h@),
        None => None,
    };
    let mut args: Vec<String> = Vec::new();
    args.push(text_of("-apu"));
    args.push(text_of("-h"));
    args.push(text_of("-x"));
    let mut targets: Vec<String> = Vec::new();
    let user = joined(CLOUD_EXCLUDE, &joined("|", CACHE_EXCLUDE));
    assert(user@ =~= user_exclusions());
    let is_root_target = same_chars(&chars_of(target_path), &chars_of("/"));
    match platform {
        Platform::MacOs => {
            if is_root_target {
                args.push(text_of("-I"));
                if as_root {
                    args.push(text_of(MACOS_SYSTEM_EXCLUDE));
                    targets.push(text_of("/"));
                } else {
                    args.push(user);
                    targets.push(text_of("/Applications"));
                    targets.push(text_of("/opt"));
                    targets.push(
                        match home {
                            Some(h) => h.clone(),
                            None => text_of("/Users/Shared"),
                        },
                    );
                }
            }
        },
        Platform::Linux => {
            if is_root_target {
                args.push(text_of("-I"));
                if as_root {
                    args.push(text_of(LINUX_SYSTEM_EXCLUDE));
                    targets.push(text_of("/"));
                } else {
                    args.push(user);
                    targets.push(text_of("/home"));
                    targets.push(text_of("/opt"));
                    targets.push(text_of("/usr/local"));
                }
            } else if is_wsl_drive(target_path) {
                args.push(text_of("-I"));
                if as_root {
                    args.push(text_of(WINDOWS_SYSTEM_EXCLUDE));
                    targets.push(text_of(target_path));
                } else {
                    args.push(user);
                    targets.push(joined(target_path, "/Users"));
                    targets.push(joined(target_path, "/Program Files"));
                    targets.push(joined(target_path, "/Program Files (x86)"));
                }
            }
        },
        Platform::Other => {},
    }
    let ghost scope = scan_scope(platform, target_path@, as_root, home_text);
    assert(strings_text(args@) =~= seq!["-apu"@, "-h"@, "-x"@] + scope.0);
    assert(strings_text(targets@) =~= scope.1);
    if targets.len() == 0 {
        targets.push(text_of(target_path));
    }
    let ghost prefix = strings_text(args@);
    let mut k: usize = 0;
    while k < targets.len()
        invariant
            k <= targets@.len(),
            strings_text(args@) =~= prefix + strings_text(targets@).take(k as int),
        decreases targets.len() - k,
    {
        let t = targets[k].clone();
        let ghost prev = args@;
        args.push(t);
        assert(strings_text(args@) =~= strings_text(prev).push(targets@[k as int]@));
        assert(strings_text(targets@).take(k + 1) =~= strings_text(targets@).take(k as int).push(
            targets@[k as int]@,
        ));
        k = k + 1;
    }
    assert(strings_text(targets@).take(targets@.len() as int) =~= strings_text(targets@));
    args
}

} // verus!

verus! {

/// Where `c` last occurs in `s`.
pub open spec fn last_index_of(s: Seq<char>, c: char) -> Option<int>
    decreases s.len(),
{
    if s.len() == 0 {
        None
    } else if s.last() == c {
        Some(s.len() - 1)
    } else {
        last_index_of(s.drop_last(), c)
    }
}

/// The name of the entry a line of `tree` output shows: what follows the
/// last `]` (the end of the permission and owner column), trimmed, or the
/// whole line trimmed when nothing follows it.
pub open spec fn entry_name(line: Seq<char>) -> Seq<char> {
    match last_index_of(line, ']') {
        Some(i) => if trim(line.subrange(i + 1, line.len() as int)).len() > 0 {
            trim(line.subrange(i + 1, line.len() as int))
        } else {
            trim(line)
        },
        None => trim(line),
    }
}

/// A line by which `tree` reports a directory it could not open.
pub open spec fn is_unreadable_dir(line: Seq<char>) -> bool {
    has_infix(line, "[error opening dir]"@)
}

/// The name of the entry shown on a line of `tree` output.
pub fn entry_name_of(line: &Vec<char>) -> (name: Vec<char>)
    ensures
        name@ == entry_name(line@),
{
    let n = line.len();
    let mut i: usize = n;
    assert(line@.subrange(0, n as int) =~= line@);
    while i > 0 && line[i - 1] != ']'
        invariant
            i <= n == line@.len(),
            last_index_of(line@, ']') == last_index_of(line@.subrange(0, i as int), ']'),
        decreases i,
    {
        assert(line@.subrange(0, i as int).drop_last() =~= line@.subrange(0, i - 1));
        i = i - 1;
    }
    if i == 0 {
        assert(line@.subrange(0, 0) =~= Seq::<char>::empty());
        return trim_chars(line);
    }
    assert(last_index_of(line@, ']') == Some(i - 1));
    let mut tail: Vec<char> = Vec::new();
    let mut k: usize = i;
    while k < n
        invariant
            i <= k <= n == line@.len(),
            tail@ =~= line@.subrange(i as int, k as int),
        decreases n - k,
    {
        tail.push(line[k]);
        k = k + 1;
    }
    let t = trim_chars(&tail);
    if t.len() > 0 {
        t
    } else {
        trim_chars(line)
    }
}

/// The counters of a scan, without a bound: lines kept, bytes kept (each
/// line with its line feed), lines dropped as unreadable directories, and
/// the last entry name seen.
pub open spec fn tally_step(t: (nat, nat, nat, Seq<char>), line: Seq<char>) -> (
    nat,
    nat,
    nat,
    Seq<char>,
) {
    if is_unreadable_dir(line) {
        (t.0, t.1, t.2 + 1, t.3)
    } else {
        (
            t.0 + 1,
            t.1 + utf8_len(line) + 1,
            t.2,
            if entry_name(line).len() > 0 {
                entry_name(line)
            } else {
                t.3
            },
        )
    }
}

/// The counters after reading `lines` from the start of a scan.
pub open spec fn tally_of(lines: Seq<Seq<char>>) -> (nat, nat, nat, Seq<char>)
    decreases lines.len(),
{
    if lines.len() == 0 {
        (0, 0, 0, seq![])
    } else {
        tally_step(tally_of(lines.drop_last()), lines.last())
    }
}

/// `n` reduced to 64 bits, as an atomic counter that wraps holds it.
pub open spec fn wrap64(n: int) -> u64 {
    (n % 0x1_0000_0000_0000_0000) as u64
}

/// The counters of a running scan, updated line by line.
pub struct ScanTally {
    pub lines: u64,
    pub size_bytes: u64,
    pub skipped_dirs: u64,
    pub recent_entry: String,
    /// The lines read so far.
    pub read: Ghost<Seq<Seq<char>>>,
}

fn wrapping_add_u64(x: u64, d: u64) -> (r: u64)
    ensures
        r == wrap64(x + d),
{
    if x <= u64::MAX - d {
        x + d
    } else {
        x - (u64::MAX - d) - 1
    }
}

proof fn lemma_wrap_add(c: int, d: int)
    requires
        0 <= c,
        0 <= d < 0x1_0000_0000_0000_0000,
    ensures
        wrap64(wrap64(c) + d) == wrap64(c + d),
{
    vstd::arithmetic::div_mod::lemma_add_mod_noop(c as int, d as int, 0x1_0000_0000_0000_0000);
    vstd::arithmetic::div_mod::lemma_small_mod(d as nat, 0x1_0000_0000_0000_0000);
}

impl ScanTally {
    /// The counters agree with the lines read, each reduced to 64 bits.
    pub open spec fn counts_read(&self) -> bool {
        let t = tally_of(self.read@);
        &&& self.lines == wrap64(t.0 as int)
        &&& self.size_bytes == wrap64(t.1 as int)
        &&& self.skipped_dirs == wrap64(t.2 as int)
        &&& self.recent_entry@ == t.3
    }

    /// The counters of a scan that has not read anything.
    pub fn new() -> (t: ScanTally)
        ensures
            t.read@ == Seq::<Seq<char>>::empty(),
            t.counts_read(),
            t.lines == 0 && t.size_bytes == 0 && t.skipped_dirs == 0 && t.recent_entry@.len() == 0,
    {
        ScanTally {
            lines: 0,
            size_bytes: 0,
            skipped_dirs: 0,
            recent_entry: String::new(),
            read: Ghost(Seq::empty()),
        }
    }

    /// Counts one line of `tree` output and tells whether it belongs in the
    /// snapshot: a line that reports an unreadable directory is only
    /// counted as skipped; any other line is counted with its size and
    /// line feed, and its entry name, when it has one, becomes the recent
    /// entry.
    pub fn record_line(&mut self, line: &str) -> (keep: bool)
        requires
            utf8_len(line@) < u64::MAX,
        ensures
            keep == !is_unreadable_dir(line@),
            final(self).read@ == old(self).read@.push(line@),
            old(self).counts_read() ==> final(self).counts_read(),
            keep ==> final(self).lines == wrap64(old(self).lines + 1),
            keep ==> final(self).size_bytes == wrap64(old(self).size_bytes + utf8_len(line@) + 1),
            keep ==> final(self).skipped_dirs == old(self).skipped_dirs,
            keep ==> final(self).recent_entry@ == if entry_name(line@).len() > 0 {
                entry_name(line@)
            } else {
                old(self).recent_entry@
            },
            !keep ==> final(self).lines == old(self).lines,
            !keep ==> final(self).size_bytes == old(self).size_bytes,
            !keep ==> final(self).skipped_dirs == wrap64(old(self).skipped_dirs + 1),
            !keep ==> final(self).recent_entry@ == old(self).recent_entry@,
    {
        let chars = chars_of(line);
        let ghost before = tally_of(self.read@);
        let ghost read = self.read@.push(line@);
        assert(read.drop_last() =~= self.read@);
        proof {
            self.read = Ghost(read);
        }
        if contains_chars(&chars, &chars_of("[error opening dir]")) {
            proof {
                lemma_wrap_add(before.2 as int, 1);
            }
            self.skipped_dirs = wrapping_add_u64(self.skipped_dirs, 1);
            return false;
        }
        let len = utf8_length(&chars) as u64;
        proof {
            lemma_wrap_add(before.0 as int, 1);
            lemma_wrap_add(before.1 as int, len + 1);
        }
        self.lines = wrapping_add_u64(self.lines, 1);
        self.size_bytes = wrapping_add_u64(self.size_bytes, len + 1);
        let name = entry_name_of(&chars);
        if name.len() > 0 {
            self.recent_entry = string_from_chars(name);
        }
        true
    }

    /// What the scan reports after `elapsed_secs` seconds.
    pub fn progress(&self, elapsed_secs: u64) -> (p: ScanProgress)
        ensures
            p.lines == self.lines,
            p.size_bytes == self.size_bytes,
            p.elapsed_secs == elapsed_secs,
            p.recent_entry@ == self.recent_entry@,
    {
        ScanProgress {
            lines: self.lines,
            size_bytes: self.size_bytes,
            elapsed_secs,
            recent_entry: self.recent_entry.clone(),
        }
    }

    /// The result of the finished scan, saved to `file_path`, after
    /// `duration_secs` seconds.
    pub fn finish(&self, file_path: String, duration_secs: u64) -> (r: ScanResult)
        ensures
            r.file_path@ == file_path@,
            r.total_lines == self.lines,
            r.total_size_bytes == self.size_bytes,
            r.duration_secs == duration_secs,
            r.skipped_dirs == self.skipped_dirs,
    {
        ScanResult {
            file_path,
            total_lines: self.lines,
            total_size_bytes: self.size_bytes,
            duration_secs,
            skipped_dirs: self.skipped_dirs,
        }
    }
}

/// Every line read is counted once: either as a line of the snapshot or as
/// a skipped directory.
pub proof fn lemma_every_line_counted(lines: Seq<Seq<char>>)
    ensures
        tally_of(lines).0 + tally_of(lines).2 == lines.len(),
    decreases lines.len(),
{
    if lines.len() > 0 {
        lemma_every_line_counted(lines.drop_last());
    }
}


/// The bytes a scan writes to its snapshot file after reading `lines`:
/// each line that is not an unreadable directory, in UTF-8, followed by a
/// line feed.
pub open spec fn snapshot_bytes(lines: Seq<Seq<char>>) -> Seq<u8>
    decreases lines.len(),
{
    if lines.len() == 0 {
        seq![]
    } else {
        let rest = snapshot_bytes(lines.drop_last());
        let line = lines.last();
        if is_unreadable_dir(line) {
            rest
        } else {
            rest + encode_utf8(line) + seq![10u8]
        }
    }
}

/// The size a scan reports is the size of what it writes: the counted
/// bytes are those of the snapshot file.
pub proof fn lemma_size_is_written_bytes(lines: Seq<Seq<char>>)
    ensures
        tally_of(lines).1 == snapshot_bytes(lines).len(),
    decreases lines.len(),
{
    if lines.len() > 0 {
        lemma_size_is_written_bytes(lines.drop_last());
        lemma_utf8_len(lines.last());
    }
}


proof fn lemma_tally_grows(lines: Seq<Seq<char>>, i: int, j: int)
    requires
        0 <= i <= j <= lines.len(),
    ensures
        tally_of(lines.take(i)).0 <= tally_of(lines.take(j)).0,
        tally_of(lines.take(i)).1 <= tally_of(lines.take(j)).1,
        tally_of(lines.take(i)).2 <= tally_of(lines.take(j)).2,
    decreases j - i,
{
    if i < j {
        lemma_tally_grows(lines, i, j - 1);
        assert(lines.take(j).drop_last() =~= lines.take(j - 1));
    }
}

/// The progress a scan reports never goes back: as long as its counters
/// do not wrap around 64 bits, the lines, bytes and skipped directories
/// counted after reading the first `i` lines are no more than those counted
/// after the first `j`, for `i <= j`, and no more than the totals.
pub proof fn lemma_progress_never_decreases(lines: Seq<Seq<char>>, i: int, j: int)
    requires
        0 <= i <= j <= lines.len(),
        lines.len() < 0x1_0000_0000_0000_0000,
        tally_of(lines).1 < 0x1_0000_0000_0000_0000,
    ensures
        wrap64(tally_of(lines.take(i)).0 as int) <= wrap64(tally_of(lines.take(j)).0 as int),
        wrap64(tally_of(lines.take(i)).1 as int) <= wrap64(tally_of(lines.take(j)).1 as int),
        wrap64(tally_of(lines.take(i)).2 as int) <= wrap64(tally_of(lines.take(j)).2 as int),
        wrap64(tally_of(lines.take(j)).0 as int) <= wrap64(tally_of(lines).0 as int),
        wrap64(tally_of(lines.take(j)).1 as int) <= wrap64(tally_of(lines).1 as int),
{
    let m = 0x1_0000_0000_0000_0000int;
    assert(lines.take(lines.len() as int) =~= lines);
    lemma_tally_grows(lines, i, j);
    lemma_tally_grows(lines, j, lines.len() as int);
    lemma_every_line_counted(lines);
    vstd::arithmetic::div_mod::lemma_small_mod(tally_of(lines.take(i)).0, m as nat);
    vstd::arithmetic::div_mod::lemma_small_mod(tally_of(lines.take(j)).0, m as nat);
    vstd::arithmetic::div_mod::lemma_small_mod(tally_of(lines).0, m as nat);
    vstd::arithmetic::div_mod::lemma_small_mod(tally_of(lines.take(i)).1, m as nat);
    vstd::arithmetic::div_mod::lemma_small_mod(tally_of(lines.take(j)).1, m as nat);
    vstd::arithmetic::div_mod::lemma_small_mod(tally_of(lines).1, m as nat);
    vstd::arithmetic::div_mod::lemma_small_mod(tally_of(lines.take(i)).2, m as nat);
    vstd::arithmetic::div_mod::lemma_small_mod(tally_of(lines.take(j)).2, m as nat);
}


/// A target that is neither the root file system nor a WSL drive (`/mnt/`
/// and one lower-case ASCII letter) is scanned as it is, on every platform
/// and whether or not the tool runs as root: `tree -apu -h -x <target>`.
pub proof fn lemma_plain_target_scanned_as_is(
    platform: Platform,
    target: Seq<char>,
    as_root: bool,
    home: Option<Seq<char>>,
)
    requires
        target != "/"@,
        !(target.len() == 6 && target.subrange(0, 5) == "/mnt/"@ && 97 <= target[5] as u32 <= 122),
    ensures
        scan_arguments(platform, target, as_root, home) == seq!["-apu"@, "-h"@, "-x"@, target],
{
    reveal_strlit("/mnt/");
    if is_wsl_drive_path(target) {
        crate::paths::lemma_wsl_drive_letter(target);
        assert(target.last() == target[5]);
        assert(target.subrange(0, 5) == "/mnt/"@);
        assert(false);
    }
    assert(scan_scope(platform, target, as_root, home) == (
        Seq::<Seq<char>>::empty(),
        Seq::<Seq<char>>::empty(),
    ));
    assert(seq!["-apu"@, "-h"@, "-x"@] + Seq::<Seq<char>>::empty() + seq![target] =~= seq![
        "-apu"@,
        "-h"@,
        "-x"@,
        target,
    ]);
}

/// A scan of anything but the root file system stays inside its target:
/// the path `tree` is given last is the target or a folder under it.
pub proof fn lemma_scan_stays_in_target(
    platform: Platform,
    target: Seq<char>,
    as_root: bool,
    home: Option<Seq<char>>,
)
    requires
        target != "/"@,
    ensures
        has_prefix(scan_arguments(platform, target, as_root, home).last(), target),
{
    let args = scan_arguments(platform, target, as_root, home);
    let last = args.last();
    if platform == Platform::Linux && is_wsl_drive_path(target) && !as_root {
        let t = target + "/Program Files (x86)"@;
        assert(last == t);
        assert(t.subrange(0, target.len() as int) =~= target);
    } else {
        assert(last == target);
        assert(target.subrange(0, target.len() as int) =~= target);
    }
}

} // verus!
