//! The drives and mount points offered for a snapshot.

use vstd::prelude::*;
use crate::order::{is_sorted_order, sorted_order};
use crate::text::{
    chars_of, has_prefix, lines_of, push_all, same_chars, split_lines, starts_with_chars,
    string_chars, string_from_chars, strings_text, trim, trim_chars,
};
use crate::scan::is_wsl_drive_path;
use crate::types::{drive_text, drives_text, Drive, Platform};
use vstd::utf8::{is_ascii_chars, is_ascii_chars_encode_utf8};

verus! {

/// The label of the root file system.
pub open spec fn root_label_text(platform: Platform) -> Seq<char> {
    if platform == Platform::MacOs {
        "Root Filesystem (macOS /)"@
    } else {
        "Root Filesystem (/)"@
    }
}

/// The label of the root file system on `platform`.
pub fn root_label(platform: Platform) -> (s: String)
    ensures
        s@ == root_label_text(platform),
{
    if platform == Platform::MacOs {
        "Root Filesystem (macOS /)".to_owned()
    } else {
        "Root Filesystem (/)".to_owned()
    }
}

/// An entry of the directory that holds mounted volumes.
#[derive(Clone, Debug)]
pub struct VolumeEntry {
    /// The entry's file name as raw bytes, which orders the entries.
    pub name_bytes: Vec<u8>,
    /// The file name as text, when it is valid Unicode.
    pub name: Option<String>,
    /// The full path of the entry.
    pub path: String,
    /// Whether the entry is a symbolic link (the link to the root volume).
    pub is_symlink: bool,
}

/// What the platform shows of the drives besides the root file system.
#[derive(Clone, Debug)]
pub enum DriveListing {
    /// The entries of the volumes directory.
    Volumes(Vec<VolumeEntry>),
    /// The names of the entries of the directory of Windows drives.
    WindowsDriveNames(Vec<String>),
    /// The text of a mount table listing, one mount point per line.
    MountTable(String),
    /// Nothing to list.
    Nothing,
}

/// Which listing the platform offers.
#[derive(Clone, Copy, Debug, PartialEq, Eq, Structural)]
pub enum DriveProbe {
    ListVolumes,
    ListWindowsDrives,
    ReadMountTable,
    NoProbe,
}

/// Which listing to gather on `platform`; `is_wsl` tells whether a Linux
/// kernel runs under Windows.
pub fn drive_probe(platform: Platform, is_wsl: bool) -> (p: DriveProbe)
    ensures
        p == (match platform {
            Platform::MacOs => DriveProbe::ListVolumes,
            Platform::Linux => if is_wsl {
                DriveProbe::ListWindowsDrives
            } else {
                DriveProbe::ReadMountTable
            },
            Platform::Other => DriveProbe::NoProbe,
        }),
{
    match platform {
        Platform::MacOs => DriveProbe::ListVolumes,
        Platform::Linux => if is_wsl {
            DriveProbe::ListWindowsDrives
        } else {
            DriveProbe::ReadMountTable
        },
        Platform::Other => DriveProbe::NoProbe,
    }
}

// ---------------------------------------------------------------------------
// Volumes

pub open spec fn name_or_unknown(name: Option<String>) -> Seq<char> {
    match name {
        Some(s) => s@,
        None => "?"@,
    }
}

/// The drive offered for a volume.
pub open spec fn volume_drive(e: VolumeEntry) -> (Seq<char>, Seq<char>) {
    (e.path@, "External Drive ("@ + name_or_unknown(e.name) + ")"@)
}

pub open spec fn volume_keys(entries: Seq<VolumeEntry>) -> Seq<Seq<u8>> {
    entries.map_values(|e: VolumeEntry| e.name_bytes@)
}

/// The drives of the volumes taken in the order `order`, links left out.
pub open spec fn volume_drives(entries: Seq<VolumeEntry>, order: Seq<usize>) -> Seq<
    (Seq<char>, Seq<char>),
>
    decreases order.len(),
{
    if order.len() == 0 {
        seq![]
    } else {
        let rest = volume_drives(entries, order.drop_last());
        let e = entries[order.last() as int];
        if e.is_symlink {
            rest
        } else {
            rest.push(volume_drive(e))
        }
    }
}

fn volume_label(name: &Option<String>) -> (s: String)
    ensures
        s@ == "External Drive ("@ + name_or_unknown(*name) + ")"@,
{
    let mut out = chars_of("External Drive (");
    let n = match name {
        Some(s) => string_chars(s),
        None => chars_of("?"),
    };
    push_all(&mut out, &n);
    push_all(&mut out, &chars_of(")"));
    string_from_chars(out)
}

/// The volumes sorted by file name, symbolic links left out.
pub fn volume_drive_list(entries: &Vec<VolumeEntry>) -> (drives: Vec<Drive>)
    ensures
        exists|order: Seq<usize>|
            is_sorted_order(volume_keys(entries@), false, order) && drives_text(drives@)
                == volume_drives(entries@, order),
{
    let mut keys: Vec<Vec<u8>> = Vec::new();
    let mut i: usize = 0;
    while i < entries.len()
        invariant
            i <= entries@.len(),
            keys@.len() == i,
            forall|k: int| 0 <= k < i ==> keys@[k]@ == entries@[k].name_bytes@,
        decreases entries.len() - i,
    {
        keys.push(entries[i].name_bytes.clone());
        i = i + 1;
    }
    assert(keys@.map_values(|k: Vec<u8>| k@) =~= volume_keys(entries@));
    let order = sorted_order(&keys, false);
    let mut drives: Vec<Drive> = Vec::new();
    let mut k: usize = 0;
    while k < order.len()
        invariant
            k <= order@.len() == entries@.len(),
            forall|a: int| 0 <= a < order@.len() ==> order@[a] < entries@.len(),
            drives_text(drives@) == volume_drives(entries@, order@.take(k as int)),
        decreases order.len() - k,
    {
        let e = &entries[order[k]];
        assert(order@.take(k + 1).drop_last() =~= order@.take(k as int));
        if !e.is_symlink {
            let d = Drive { path: e.path.clone(), label: volume_label(&e.name) };
            drives.push(d);
            assert(drives_text(drives@) =~= volume_drives(entries@, order@.take(k + 1)));
        }
        k = k + 1;
    }
    assert(order@.take(order@.len() as int) =~= order@);
    drives
}

// ---------------------------------------------------------------------------
// Windows drives

/// A single lower-case ASCII letter: the name of a mounted Windows drive.
pub open spec fn is_drive_letter(name: Seq<char>) -> bool {
    name.len() == 1 && 'a' <= name[0] <= 'z'
}

/// The names that are drive letters, in their order.
pub open spec fn drive_letters(names: Seq<Seq<char>>) -> Seq<Seq<char>>
    decreases names.len(),
{
    if names.len() == 0 {
        seq![]
    } else {
        let rest = drive_letters(names.drop_last());
        if is_drive_letter(names.last()) {
            rest.push(names.last())
        } else {
            rest
        }
    }
}

/// The upper-case form of an ASCII lower-case letter.
pub open spec fn ascii_upper(c: char) -> char {
    if 'a' <= c <= 'z' {
        ((c as u32) - 32) as char
    } else {
        c
    }
}

/// The drive offered for a drive letter.
pub open spec fn windows_drive(letter: Seq<char>) -> (Seq<char>, Seq<char>) {
    ("/mnt/"@ + letter, "Windows Drive ("@ + seq![ascii_upper(letter[0])] + ":)"@)
}

pub open spec fn letter_keys(letters: Seq<Seq<char>>) -> Seq<Seq<u8>> {
    letters.map_values(|l: Seq<char>| seq![l[0] as u8])
}

pub open spec fn windows_drives(letters: Seq<Seq<char>>, order: Seq<usize>) -> Seq<
    (Seq<char>, Seq<char>),
> {
    order.map_values(|k: usize| windows_drive(letters[k as int]))
}

/// The upper-case form of `c`, for ASCII letters.
pub fn to_ascii_upper(c: char) -> (u: char)
    ensures
        u == ascii_upper(c),
{
    if 'a' <= c && c <= 'z' {
        let b = (c as u32 - 32) as u8;
        b as char
    } else {
        c
    }
}

/// The mounted Windows drives among the `names` of the drive directory,
/// sorted by letter.
pub fn windows_drive_list(names: &Vec<String>) -> (drives: Vec<Drive>)
    ensures
        exists|order: Seq<usize>|
            is_sorted_order(letter_keys(drive_letters(strings_text(names@))), false, order)
                && drives_text(drives@) == windows_drives(
                drive_letters(strings_text(names@)),
                order,
            ),
{
    let ghost texts = strings_text(names@);
    let mut letters: Vec<Vec<char>> = Vec::new();
    let mut i: usize = 0;
    while i < names.len()
        invariant
            i <= names@.len(),
            texts == strings_text(names@),
            letters@.map_values(|l: Vec<char>| l@) == drive_letters(texts.take(i as int)),
        decreases names.len() - i,
    {
        let n = string_chars(&names[i]);
        assert(texts.take(i + 1).drop_last() =~= texts.take(i as int));
        if n.len() == 1 && 'a' <= n[0] && n[0] <= 'z' {
            letters.push(n);
        }
        assert(letters@.map_values(|l: Vec<char>| l@) =~= drive_letters(texts.take(i + 1)));
        i = i + 1;
    }
    assert(texts.take(names@.len() as int) =~= texts);
    let ghost ls = drive_letters(texts);
    assert(forall|k: int| 0 <= k < ls.len() ==> is_drive_letter(#[trigger] ls[k])) by {
        lemma_drive_letters_are_letters(texts);
    }
    let mut keys: Vec<Vec<u8>> = Vec::new();
    let mut j: usize = 0;
    while j < letters.len()
        invariant
            j <= letters@.len() == ls.len(),
            ls == letters@.map_values(|l: Vec<char>| l@),
            forall|k: int| 0 <= k < ls.len() ==> is_drive_letter(#[trigger] ls[k]),
            keys@.len() == j,
            forall|k: int| 0 <= k < j ==> keys@[k]@ == seq![ls[k][0] as u8],
        decreases letters.len() - j,
    {
        assert(is_drive_letter(ls[j as int]));
        let c = letters[j][0];
        let b = c as u32 as u8;
        keys.push(vec![b]);
        assert(keys@[j as int]@ =~= seq![ls[j as int][0] as u8]);
        j = j + 1;
    }
    assert(keys@.map_values(|k: Vec<u8>| k@) =~= letter_keys(ls));
    let order = sorted_order(&keys, false);
    let mut drives: Vec<Drive> = Vec::new();
    let mut k: usize = 0;
    while k < order.len()
        invariant
            k <= order@.len() == ls.len(),
            ls == letters@.map_values(|l: Vec<char>| l@),
            forall|m: int| 0 <= m < ls.len() ==> is_drive_letter(#[trigger] ls[m]),
            forall|a: int| 0 <= a < order@.len() ==> order@[a] < ls.len(),
            drives_text(drives@) =~= windows_drives(ls, order@.take(k as int)),
        decreases order.len() - k,
    {
        let letter = &letters[order[k]];
        assert(is_drive_letter(ls[order@[k as int] as int]));
        let mut path = chars_of("/mnt/");
        push_all(&mut path, letter);
        let mut label = chars_of("Windows Drive (");
        label.push(to_ascii_upper(letter[0]));
        push_all(&mut label, &chars_of(":)"));
        let ghost prev = drives@;
        let d = Drive { path: string_from_chars(path), label: string_from_chars(label) };
        assert(d.label@ =~= "Windows Drive ("@ + seq![ascii_upper(ls[order@[k as int] as int][0])]
            + ":)"@);
        assert(drive_text(d) == windows_drive(ls[order@[k as int] as int]));
        drives.push(d);
        assert(drives_text(drives@) =~= drives_text(prev).push(drive_text(d)));
        assert(order@.take(k + 1) =~= order@.take(k as int).push(order@[k as int]));
        k = k + 1;
    }
    assert(order@.take(order@.len() as int) =~= order@);
    drives
}

proof fn lemma_drive_letters_are_letters(names: Seq<Seq<char>>)
    ensures
        forall|k: int|
            0 <= k < drive_letters(names).len() ==> is_drive_letter(
                #[trigger] drive_letters(names)[k],
            ),
    decreases names.len(),
{
    if names.len() > 0 {
        let rest = drive_letters(names.drop_last());
        lemma_drive_letters_are_letters(names.drop_last());
        assert forall|k: int| 0 <= k < drive_letters(names).len() implies is_drive_letter(
            #[trigger] drive_letters(names)[k],
        ) by {
            if k < rest.len() {
                assert(drive_letters(names)[k] == rest[k]);
            }
        }
    }
}

// ---------------------------------------------------------------------------
// Mount points

/// Whether a mount point is offered: not the root, swap, an empty line, or
/// a boot or snap-package mount.
pub open spec fn is_offered_mount(mp: Seq<char>) -> bool {
    !(mp == "/"@ || mp == "[SWAP]"@ || mp.len() == 0 || has_prefix(mp, "/boot"@) || has_prefix(
        mp,
        "/snap"@,
    ))
}

/// The drive offered for a mount point.
pub open spec fn mount_drive(mp: Seq<char>) -> (Seq<char>, Seq<char>) {
    (mp, "Mount Point ("@ + mp + ")"@)
}

/// The drives offered by the lines of a mount table, in line order.
pub open spec fn mount_drives(lines: Seq<Seq<char>>) -> Seq<(Seq<char>, Seq<char>)>
    decreases lines.len(),
{
    if lines.len() == 0 {
        seq![]
    } else {
        let rest = mount_drives(lines.drop_last());
        let mp = trim(lines.last());
        if is_offered_mount(mp) {
            rest.push(mount_drive(mp))
        } else {
            rest
        }
    }
}

/// The mount points of a mount table listing, one per line, that are
/// offered for a snapshot.
pub fn mount_drive_list(table: &str) -> (drives: Vec<Drive>)
    ensures
        drives_text(drives@) == mount_drives(lines_of(table@)),
{
    let text = chars_of(table);
    let lines = split_lines(&text);
    let ghost ls = lines@.map_values(|l: Vec<char>| l@);
    let root = chars_of("/");
    let swap = chars_of("[SWAP]");
    let boot = chars_of("/boot");
    let snap = chars_of("/snap");
    let mut drives: Vec<Drive> = Vec::new();
    let mut i: usize = 0;
    while i < lines.len()
        invariant
            i <= lines@.len() == ls.len(),
            ls == lines@.map_values(|l: Vec<char>| l@),
            root@ == "/"@,
            swap@ == "[SWAP]"@,
            boot@ == "/boot"@,
            snap@ == "/snap"@,
            drives_text(drives@) == mount_drives(ls.take(i as int)),
        decreases lines.len() - i,
    {
        let mp = trim_chars(&lines[i]);
        assert(ls.take(i + 1).drop_last() =~= ls.take(i as int));
        let skip = same_chars(&mp, &root) || same_chars(&mp, &swap) || mp.len() == 0
            || starts_with_chars(&mp, &boot) || starts_with_chars(&mp, &snap);
        if !skip {
            let mut label = chars_of("Mount Point (");
            push_all(&mut label, &mp);
            push_all(&mut label, &chars_of(")"));
            let path = string_from_chars(mp);
            drives.push(Drive { path, label: string_from_chars(label) });
            assert(drives_text(drives@) =~= mount_drives(ls.take(i + 1)));
        }
        i = i + 1;
    }
    assert(ls.take(ls.len() as int) =~= ls);
    drives
}

// ---------------------------------------------------------------------------
// All drives

/// Whether `drives` are the drives that `listing` offers.
pub open spec fn offers(listing: DriveListing, drives: Seq<(Seq<char>, Seq<char>)>) -> bool {
    match listing {
        DriveListing::Volumes(entries) => exists|order: Seq<usize>|
            is_sorted_order(volume_keys(entries@), false, order) && drives == volume_drives(
                entries@,
                order,
            ),
        DriveListing::WindowsDriveNames(names) => exists|order: Seq<usize>|
            is_sorted_order(letter_keys(drive_letters(strings_text(names@))), false, order)
                && drives == windows_drives(drive_letters(strings_text(names@)), order),
        DriveListing::MountTable(text) => drives == mount_drives(lines_of(text@)),
        DriveListing::Nothing => drives.len() == 0,
    }
}

/// The drives besides the root file system that `listing` offers.
pub fn additional_drives(listing: &DriveListing) -> (drives: Vec<Drive>)
    ensures
        offers(*listing, drives_text(drives@)),
{
    match listing {
        DriveListing::Volumes(entries) => volume_drive_list(entries),
        DriveListing::WindowsDriveNames(names) => windows_drive_list(names),
        DriveListing::MountTable(text) => mount_drive_list(text.as_str()),
        DriveListing::Nothing => {
            let v: Vec<Drive> = Vec::new();
            assert(drives_text(v@) =~= seq![]);
            v
        },
    }
}

/// The drives to choose from: the root file system first, then what
/// `listing` offers.
pub fn get_drives(platform: Platform, listing: &DriveListing) -> (drives: Vec<Drive>)
    ensures
        drives@.len() >= 1,
        drives@[0].path@ == "/"@,
        drives@[0].label@ == root_label_text(platform),
        offers(*listing, drives_text(drives@).drop_first()),
{
    let mut drives: Vec<Drive> = Vec::new();
    drives.push(Drive { path: "/".to_owned(), label: root_label(platform) });
    let extra = additional_drives(listing);
    let ghost first = drives@[0];
    let mut k: usize = 0;
    while k < extra.len()
        invariant
            k <= extra@.len(),
            drives@.len() == k + 1,
            drives@[0] == first,
            drives_text(drives@).drop_first() =~= drives_text(extra@.take(k as int)),
        decreases extra.len() - k,
    {
        let ghost prev = drives@;
        let d = Drive { path: extra[k].path.clone(), label: extra[k].label.clone() };
        drives.push(d);
        assert(drives_text(drives@).drop_first() =~= drives_text(prev).drop_first().push(
            drive_text(d),
        ));
        assert(extra@.take(k + 1) =~= extra@.take(k as int).push(extra@[k as int]));
        k = k + 1;
    }
    assert(extra@.take(extra@.len() as int) =~= extra@);
    drives
}

/// Every Windows drive offered is one the scan treats as a Windows drive
/// (its path is `/mnt/` and one lower-case letter).
pub proof fn lemma_windows_drives_are_wsl_drives(names: Seq<Seq<char>>, order: Seq<usize>, k: int)
    requires
        forall|a: int| 0 <= a < order.len() ==> order[a] < drive_letters(names).len(),
        0 <= k < order.len(),
    ensures
        is_wsl_drive_path(windows_drives(drive_letters(names), order)[k].0),
{
    lemma_drive_letters_are_letters(names);
    let letter = drive_letters(names)[order[k] as int];
    assert(is_drive_letter(letter));
    let path = "/mnt/"@ + letter;
    reveal_strlit("/mnt/");
    assert(is_ascii_chars(path));
    is_ascii_chars_encode_utf8(path);
    assert(path.subrange(0, 5) =~= "/mnt/"@);
    assert(path[5] == letter[0]);
}


/// The mount points of a mount table that are offered, and only those, in
/// line order: each line trimmed, then every mount point kept except `/`,
/// `[SWAP]`, the empty one and those beginning with `/boot` or `/snap`,
/// each offered as `Mount Point (<mount point>)`.
pub proof fn lemma_mount_drives_are_the_kept_mount_points(lines: Seq<Seq<char>>)
    ensures
        mount_drives(lines) == lines.map_values(|l: Seq<char>| trim(l)).filter(
            |mp: Seq<char>|
                !(mp == "/"@ || mp == "[SWAP]"@ || mp.len() == 0 || has_prefix(mp, "/boot"@)
                    || has_prefix(mp, "/snap"@)),
        ).map_values(|mp: Seq<char>| (mp, "Mount Point ("@ + mp + ")"@)),
    decreases lines.len(),
{
    let keep = |mp: Seq<char>|
        !(mp == "/"@ || mp == "[SWAP]"@ || mp.len() == 0 || has_prefix(mp, "/boot"@)
            || has_prefix(mp, "/snap"@));
    let label = |mp: Seq<char>| (mp, "Mount Point ("@ + mp + ")"@);
    let trimmed = lines.map_values(|l: Seq<char>| trim(l));
    reveal(Seq::filter);
    if lines.len() == 0 {
        assert(trimmed.filter(keep) =~= Seq::<Seq<char>>::empty());
        assert(trimmed.filter(keep).map_values(label) =~= Seq::<(Seq<char>, Seq<char>)>::empty());
    } else {
        lemma_mount_drives_are_the_kept_mount_points(lines.drop_last());
        let before = lines.drop_last().map_values(|l: Seq<char>| trim(l));
        assert(trimmed.drop_last() =~= before);
        assert(trimmed.last() == trim(lines.last()));
        let f0 = before.filter(keep);
        assert(trimmed.filter(keep) == if keep(trim(lines.last())) {
            f0.push(trim(lines.last()))
        } else {
            f0
        });
        if keep(trim(lines.last())) {
            assert(f0.push(trim(lines.last())).map_values(label) =~= f0.map_values(label).push(
                label(trim(lines.last())),
            ));
        }
    }
}

} // verus!
