//! The saved snapshots.

use vstd::prelude::*;
use crate::clock::{chrono_accepts_timestamp, format_local_timestamp, is_minute_stamp};
use crate::drives::name_or_unknown;
use crate::order::{
    bytes_lt, is_sorted_order, lemma_bytes_lt_irreflexive, lemma_bytes_lt_total, lemma_sorted_order_covers, lemma_sorted_order_unique,
    lists, ranks_before, sorted_order,
};
use crate::paths::{opt_text, snapshot_path};
use crate::scan::{lemma_size_is_written_bytes, snapshot_bytes, tally_of, wrap64};
use crate::size::{bytes_text, format_bytes};
use crate::text::{chars_of, lemma_encode_concat, push_all, string_chars, string_from_chars};
use crate::types::SnapshotLog;
use vstd::utf8::{encode_utf8, is_ascii_chars, is_ascii_chars_encode_utf8};

verus! {

/// The folder the snapshots are saved in, under `home` (`/tmp` when the
/// home directory is not known).
pub open spec fn snapshot_dir_text(home: Option<Seq<char>>) -> Seq<char> {
    let base = match home {
        Some(h) => h,
        None => "/tmp"@,
    };
    base + "/TreeSnapshots/snapshots"@
}

/// The folder the snapshots are saved in, from the `HOME` variable.
pub fn snapshot_dir(home: &Option<String>) -> (dir: String)
    ensures
        dir@ == snapshot_dir_text(opt_text(*home)),
{
    let mut out = match home {
        Some(h) => string_chars(h),
        None => chars_of("/tmp"),
    };
    push_all(&mut out, &chars_of("/TreeSnapshots/snapshots"));
    string_from_chars(out)
}

/// Where the last `.` of `name` is.
pub open spec fn last_dot(name: Seq<u8>) -> Option<int>
    decreases name.len(),
{
    if name.len() == 0 {
        None
    } else if name.last() == 46 {
        Some(name.len() - 1)
    } else {
        last_dot(name.drop_last())
    }
}

/// The extension of a file name, as `Path::extension` finds it: what
/// follows the last dot, when something precedes that dot (and the name is
/// not `..`).
pub open spec fn extension_of(name: Seq<u8>) -> Option<Seq<u8>> {
    if name == seq![46u8, 46u8] {
        None
    } else {
        match last_dot(name) {
            Some(i) => if i == 0 {
                None
            } else {
                Some(name.subrange(i + 1, name.len() as int))
            },
            None => None,
        }
    }
}

/// A snapshot file has the extension `txt`.
pub open spec fn is_snapshot_name(name: Seq<u8>) -> bool {
    extension_of(name) == Some(seq![116u8, 120u8, 116u8])
}

/// Whether a file name (as raw bytes) is that of a snapshot.
pub fn is_snapshot_file(name: &Vec<u8>) -> (b: bool)
    ensures
        b == is_snapshot_name(name@),
{
    let n = name.len();
    if n == 2 && name[0] == 46 && name[1] == 46 {
        assert(name@ =~= seq![46u8, 46u8]);
        return false;
    }
    assert(name@ != seq![46u8, 46u8]);
    let mut i: usize = n;
    assert(name@.subrange(0, n as int) =~= name@);
    while i > 0 && name[i - 1] != 46
        invariant
            i <= n == name@.len(),
            last_dot(name@) == last_dot(name@.subrange(0, i as int)),
        decreases i,
    {
        assert(name@.subrange(0, i as int).drop_last() =~= name@.subrange(0, i - 1));
        i = i - 1;
    }
    if i <= 1 {
        assert(i == 0 ==> name@.subrange(0, 0) =~= Seq::<u8>::empty());
        return false;
    }
    assert(last_dot(name@) == Some(i - 1));
    let ghost ext = name@.subrange(i as int, n as int);
    if n - i == 3 && name[i] == 116 && name[i + 1] == 120 && name[i + 2] == 116 {
        assert(ext =~= seq![116u8, 120u8, 116u8]);
        true
    } else {
        assert(ext != seq![116u8, 120u8, 116u8]) by {
            if ext == seq![116u8, 120u8, 116u8] {
                assert(ext.len() == 3);
                assert(ext[0] == 116u8 && ext[1] == 120u8 && ext[2] == 116u8);
                assert(name@[i as int] == ext[0]);
                assert(name@[i + 1] == ext[1]);
                assert(name@[i + 2] == ext[2]);
            }
        }
        false
    }
}

/// Size and modification time of a file.
#[derive(Clone, Copy, Debug)]
pub struct FileStamp {
    pub size_bytes: u64,
    /// Seconds and nanoseconds since the Unix epoch, when the file system
    /// reports the time.
    pub modified: Option<(i64, u32)>,
}

/// An entry of the snapshot folder.
#[derive(Clone, Debug)]
pub struct SnapshotEntry {
    /// The file name as raw bytes.
    pub name_bytes: Vec<u8>,
    /// The file name as text, when it is valid Unicode.
    pub name: Option<String>,
    /// The full path of the file.
    pub path: String,
    /// Size and time, when the file system could report them.
    pub stamp: Option<FileStamp>,
}

/// The modification time can be shown: it is unknown, or `chrono` can
/// represent it.
pub open spec fn shows_time(modified: Option<(i64, u32)>) -> bool {
    match modified {
        Some((s, n)) => chrono_accepts_timestamp(s, n),
        None => true,
    }
}

/// `log` describes a snapshot file with this name, path and stamp: the
/// name (`?` when it is not valid Unicode), the path, the size, and the
/// local time of the last change to the minute, or `—` when unknown.
pub open spec fn describes(log: SnapshotLog, name: Option<String>, path: String, stamp: FileStamp) -> bool {
    &&& log.filename@ == name_or_unknown(name)
    &&& log.file_path@ == path@
    &&& log.size_bytes == stamp.size_bytes
    &&& match stamp.modified {
        Some(_) => is_minute_stamp(log.modified_at@),
        None => log.modified_at@ == "—"@,
    }
}

/// The record of one snapshot file; nothing when its modification time
/// lies outside what `chrono` can represent.
pub fn snapshot_log(name: &Option<String>, path: &String, stamp: FileStamp) -> (log: Option<
    SnapshotLog,
>)
    ensures
        log is Some <==> shows_time(stamp.modified),
        log matches Some(l) ==> describes(l, *name, *path, stamp),
{
    let modified_at = match stamp.modified {
        Some((secs, nanos)) => match format_local_timestamp(secs, nanos, "%Y-%m-%d %H:%M") {
            Some(t) => t,
            None => {
                return None;
            },
        },
        None => "—".to_owned(),
    };
    let filename = match name {
        Some(n) => n.clone(),
        None => "?".to_owned(),
    };
    Some(SnapshotLog { filename, file_path: path.clone(), size_bytes: stamp.size_bytes, modified_at })
}

/// The entries that are snapshots with a known size and time.
pub open spec fn snapshot_entries(entries: Seq<SnapshotEntry>) -> Seq<SnapshotEntry>
    decreases entries.len(),
{
    if entries.len() == 0 {
        seq![]
    } else {
        let rest = snapshot_entries(entries.drop_last());
        let e = entries.last();
        if is_snapshot_name(e.name_bytes@) && e.stamp is Some {
            rest.push(e)
        } else {
            rest
        }
    }
}

/// The sort keys of snapshot records: their file names as UTF-8 bytes,
/// the order of `String` comparison.
pub open spec fn filename_keys(names: Seq<Seq<char>>) -> Seq<Seq<u8>> {
    names.map_values(|n: Seq<char>| encode_utf8(n))
}

pub open spec fn entry_names(entries: Seq<SnapshotEntry>) -> Seq<Seq<char>> {
    entries.map_values(|e: SnapshotEntry| name_or_unknown(e.name))
}

/// `logs` lists the snapshot `entries`, newest first: sorted by file name
/// from last to first (names carry the date as `YYYYMMDD`), records with
/// equal names in folder order.
pub open spec fn lists_newest_first(entries: Seq<SnapshotEntry>, logs: Seq<SnapshotLog>) -> bool {
    let kept = snapshot_entries(entries);
    exists|order: Seq<usize>|
        {
            &&& is_sorted_order(filename_keys(entry_names(kept)), true, order)
            &&& logs.len() == order.len()
            &&& forall|k: int|
                0 <= k < logs.len() ==> describes(
                    #[trigger] logs[k],
                    kept[order[k] as int].name,
                    kept[order[k] as int].path,
                    kept[order[k] as int].stamp->0,
                )
        }
}

/// `found` describes the `entries` one by one, and `keys` holds their
/// names as bytes.
pub open spec fn records(found: Seq<SnapshotLog>, keys: Seq<Vec<u8>>, entries: Seq<SnapshotEntry>) -> bool {
    &&& found.len() == keys.len() == entries.len()
    &&& forall|k: int|
        0 <= k < found.len() ==> describes(
            #[trigger] found[k],
            entries[k].name,
            entries[k].path,
            entries[k].stamp->0,
        )
    &&& forall|k: int|
        0 <= k < keys.len() ==> (#[trigger] keys[k])@ == encode_utf8(name_or_unknown(entries[k].name))
}

/// The saved snapshots among the entries of the snapshot folder, newest
/// first; nothing when the time of one of them lies outside what `chrono`
/// can represent.
pub fn get_snapshot_logs(entries: &Vec<SnapshotEntry>) -> (logs: Option<Vec<SnapshotLog>>)
    ensures
        logs is Some <==> forall|k: int|
            0 <= k < snapshot_entries(entries@).len() ==> shows_time(
                #[trigger] snapshot_entries(entries@)[k].stamp->0.modified,
            ),
        logs matches Some(v) ==> lists_newest_first(entries@, v@),
{
    let ghost kept = snapshot_entries(entries@);
    let mut found: Vec<SnapshotLog> = Vec::new();
    let mut keys: Vec<Vec<u8>> = Vec::new();
    let mut i: usize = 0;
    while i < entries.len()
        invariant
            i <= entries@.len(),
            kept == snapshot_entries(entries@),

            forall|k: int|
                0 <= k < found@.len() ==> shows_time(
                    #[trigger] snapshot_entries(entries@.take(i as int))[k].stamp->0.modified,
                ),
            records(found@, keys@, snapshot_entries(entries@.take(i as int))),
        decreases entries.len() - i,
    {
        let e = &entries[i];
        assert(entries@.take(i + 1).drop_last() =~= entries@.take(i as int));
        let ghost before = snapshot_entries(entries@.take(i as int));
        if is_snapshot_file(&e.name_bytes) {
            match e.stamp {
                Some(stamp) => {
                    match snapshot_log(&e.name, &e.path, stamp) {
                        Some(log) => {
                            let key = vstd::slice::slice_to_vec(log.filename.as_str().as_bytes());
                            assert(key@ == encode_utf8(name_or_unknown(entries@[i as int].name)));
                            let ghost prev_found = found@;
                            let ghost prev_keys = keys@;
                            found.push(log);
                            keys.push(key);
                            assert(found@ == prev_found.push(found@[prev_found.len() as int]));
                            assert(snapshot_entries(entries@.take(i + 1)) == before.push(
                                entries@[i as int],
                            ));
                        },
                        None => {
                            proof {
                                let now = snapshot_entries(entries@.take(i + 1));
                                assert(now == before.push(entries@[i as int]));
                                lemma_entries_prefix(entries@, i as int + 1);
                                assert(kept[before.len() as int] == entries@[i as int]);
                            }
                            return None;
                        },
                    }
                },
                None => {
                    assert(snapshot_entries(entries@.take(i + 1)) == before);
                },
            }
        } else {
            assert(snapshot_entries(entries@.take(i + 1)) == before);
        }
        i = i + 1;
    }
    assert(entries@.take(entries@.len() as int) =~= entries@);
    assert(snapshot_entries(entries@.take(entries@.len() as int)) == kept);
    let order = sorted_order(&keys, true);
    let ghost names = entry_names(kept);
    assert(keys@.map_values(|k: Vec<u8>| k@) =~= filename_keys(names));
    let mut logs: Vec<SnapshotLog> = Vec::new();
    let mut k: usize = 0;
    while k < order.len()
        invariant
            k <= order@.len() == found@.len() == kept.len(),
            forall|a: int| 0 <= a < order@.len() ==> order@[a] < kept.len(),
            forall|a: int|
                0 <= a < found@.len() ==> {
                    let e = kept[a];
                    describes(#[trigger] found@[a], e.name, e.path, e.stamp->0)
                },
            logs@.len() == k,
            forall|a: int|
                0 <= a < k ==> describes(
                    #[trigger] logs@[a],
                    kept[order@[a] as int].name,
                    kept[order@[a] as int].path,
                    kept[order@[a] as int].stamp->0,
                ),
        decreases order.len() - k,
    {
        let j = order[k];
        let l = &found[j];
        let copy = SnapshotLog {
            filename: l.filename.clone(),
            file_path: l.file_path.clone(),
            size_bytes: l.size_bytes,
            modified_at: l.modified_at.clone(),
        };
        assert(describes(found@[j as int], kept[j as int].name, kept[j as int].path, kept[j as int].stamp->0));
        logs.push(copy);
        k = k + 1;
    }
    Some(logs)
}

proof fn lemma_entries_prefix(entries: Seq<SnapshotEntry>, i: int)
    requires
        0 <= i <= entries.len(),
    ensures
        snapshot_entries(entries.take(i)).len() <= snapshot_entries(entries).len(),
        forall|k: int|
            0 <= k < snapshot_entries(entries.take(i)).len() ==> #[trigger] snapshot_entries(
                entries,
            )[k] == snapshot_entries(entries.take(i))[k],
    decreases entries.len() - i,
{
    if i < entries.len() {
        lemma_entries_prefix(entries, i + 1);
        assert(entries.take(i + 1).drop_last() =~= entries.take(i));
    } else {
        assert(entries.take(i) =~= entries);
    }
}

/// An entry of the snapshot folder that the list shows: a snapshot file
/// whose size and time could be read.
pub open spec fn is_listed_entry(e: SnapshotEntry) -> bool {
    is_snapshot_name(e.name_bytes@) && e.stamp is Some
}

/// What a record says of its file, leaving out the local time text: name,
/// path and size.
pub open spec fn record_key(l: SnapshotLog) -> (Seq<char>, Seq<char>, u64) {
    (l.filename@, l.file_path@, l.size_bytes)
}

pub open spec fn record_keys(logs: Seq<SnapshotLog>) -> Seq<(Seq<char>, Seq<char>, u64)> {
    logs.map_values(|l: SnapshotLog| record_key(l))
}

/// The name, path and size that a record of the entry `e` carries.
pub open spec fn entry_key(e: SnapshotEntry) -> (Seq<char>, Seq<char>, u64) {
    (name_or_unknown(e.name), e.path@, e.stamp->0.size_bytes)
}

proof fn lemma_snapshot_entries_concat(a: Seq<SnapshotEntry>, b: Seq<SnapshotEntry>)
    ensures
        snapshot_entries(a + b) == snapshot_entries(a) + snapshot_entries(b),
    decreases b.len(),
{
    if b.len() == 0 {
        assert(a + b =~= a);
        assert(snapshot_entries(a) + snapshot_entries(b) =~= snapshot_entries(a));
    } else {
        lemma_snapshot_entries_concat(a, b.drop_last());
        assert((a + b).drop_last() =~= a + b.drop_last());
        assert((a + b).last() == b.last());
        let ra = snapshot_entries(a);
        let rb = snapshot_entries(b.drop_last());
        assert((ra + rb).push(b.last()) =~= ra + rb.push(b.last()));
    }
}

proof fn lemma_snapshot_entries_single(e: SnapshotEntry)
    ensures
        snapshot_entries(seq![e]) == if is_listed_entry(e) {
            seq![e]
        } else {
            Seq::<SnapshotEntry>::empty()
        },
{
    assert(seq![e].drop_last() =~= Seq::<SnapshotEntry>::empty());
    assert(snapshot_entries(Seq::<SnapshotEntry>::empty()) =~= Seq::<SnapshotEntry>::empty());
    assert(Seq::<SnapshotEntry>::empty().push(e) =~= seq![e]);
}

/// Every entry the list keeps is an entry of the folder.
proof fn lemma_snapshot_entries_from(s: Seq<SnapshotEntry>)
    ensures
        forall|k: int|
            0 <= k < snapshot_entries(s).len() ==> exists|j: int|
                0 <= j < s.len() && s[j] == #[trigger] snapshot_entries(s)[k],
    decreases s.len(),
{
    if s.len() > 0 {
        lemma_snapshot_entries_from(s.drop_last());
        let rest = snapshot_entries(s.drop_last());
        assert forall|k: int| 0 <= k < snapshot_entries(s).len() implies exists|j: int|
            0 <= j < s.len() && s[j] == #[trigger] snapshot_entries(s)[k] by {
            if k < rest.len() {
                let j = choose|j: int| 0 <= j < s.drop_last().len() && s.drop_last()[j] == rest[k];
                assert(s[j] == snapshot_entries(s)[k]);
            } else {
                assert(s[s.len() - 1] == snapshot_entries(s)[k]);
            }
        }
    }
}

/// The kept entries split around entry `i`: those before it, the entry
/// itself when the list shows it, and those after it.
proof fn lemma_snapshot_entries_around(entries: Seq<SnapshotEntry>, i: int)
    requires
        0 <= i < entries.len(),
    ensures
        snapshot_entries(entries) == snapshot_entries(entries.take(i)) + snapshot_entries(
            seq![entries[i]],
        ) + snapshot_entries(entries.skip(i + 1)),
        snapshot_entries(entries.remove(i)) == snapshot_entries(entries.take(i))
            + snapshot_entries(entries.skip(i + 1)),
{
    let a = entries.take(i);
    let b = entries.skip(i + 1);
    assert(entries =~= a + seq![entries[i]] + b);
    assert(entries.remove(i) =~= a + b);
    lemma_snapshot_entries_concat(a + seq![entries[i]], b);
    lemma_snapshot_entries_concat(a, seq![entries[i]]);
    lemma_snapshot_entries_concat(a, b);
}

/// A sorted order lists no position twice.
proof fn lemma_sorted_order_distinct(keys: Seq<Seq<u8>>, order: Seq<usize>, a: int, b: int)
    requires
        is_sorted_order(keys, true, order),
        0 <= a < order.len(),
        0 <= b < order.len(),
        a != b,
    ensures
        order[a] != order[b],
{
    if a < b {
        assert(ranks_before(keys, true, order[a] as int, order[b] as int));
    } else {
        assert(ranks_before(keys, true, order[b] as int, order[a] as int));
    }
    if order[a] == order[b] {
        lemma_bytes_lt_irreflexive(keys[order[a] as int]);
    }
}

/// Position `v` of a list with position `m` taken out.
spec fn shift_down(v: usize, m: int) -> usize {
    if v > m {
        (v - 1) as usize
    } else {
        v
    }
}

/// Taking the entry at position `m` out of a sorted listing leaves the
/// sorted listing of the remaining entries.
proof fn lemma_sorted_order_without(keys: Seq<Seq<u8>>, order: Seq<usize>, m: int, p: int)
    requires
        is_sorted_order(keys, true, order),
        0 <= p < order.len(),
        order[p] == m,
    ensures
        is_sorted_order(
            keys.remove(m),
            true,
            Seq::new(
                (order.len() - 1) as nat,
                |k: int| shift_down(order[if k < p { k } else { k + 1 }], m),
            ),
        ),
{
    let n = order.len();
    let keys1 = keys.remove(m);
    let order1 = Seq::new(
        (order.len() - 1) as nat,
        |k: int| shift_down(order[if k < p { k } else { k + 1 }], m),
    );
    assert forall|a: int| 0 <= a < order1.len() implies order1[a] < keys1.len() by {
        let a1 = if a < p { a } else { a + 1 };
        lemma_sorted_order_distinct(keys, order, a1, p);
    }
    assert forall|a: int, b: int| 0 <= a < b < order1.len() implies ranks_before(
        keys1,
        true,
        order1[a] as int,
        order1[b] as int,
    ) by {
        let a1 = if a < p { a } else { a + 1 };
        let b1 = if b < p { b } else { b + 1 };
        lemma_sorted_order_distinct(keys, order, a1, p);
        lemma_sorted_order_distinct(keys, order, b1, p);
        assert(ranks_before(keys, true, order[a1] as int, order[b1] as int));
        assert(keys1[order1[a] as int] == keys[order[a1] as int]);
        assert(keys1[order1[b] as int] == keys[order[b1] as int]);
    }
}

/// Deleting a file from the snapshot folder removes exactly its record
/// from the list: when the list showed the file, the list afterwards is
/// the list before without that record, every other record in the same
/// order with the same name, path and size; otherwise the list keeps
/// every record. (The time text of a record is rendered anew from the
/// clock's time zone each time the list is made.)
pub proof fn lemma_deleting_removes_its_record(
    entries: Seq<SnapshotEntry>,
    i: int,
    before: Seq<SnapshotLog>,
    after: Seq<SnapshotLog>,
)
    requires
        0 <= i < entries.len(),
        lists_newest_first(entries, before),
        lists_newest_first(entries.remove(i), after),
    ensures
        is_listed_entry(entries[i]) ==> exists|p: int|
            0 <= p < before.len() && describes(
                #[trigger] before[p],
                entries[i].name,
                entries[i].path,
                entries[i].stamp->0,
            ) && record_keys(after) == record_keys(before).remove(p),
        !is_listed_entry(entries[i]) ==> record_keys(after) == record_keys(before),
{
    let e = entries[i];
    let kept0 = snapshot_entries(entries);
    let kept1 = snapshot_entries(entries.remove(i));
    let keys0 = filename_keys(entry_names(kept0));
    let keys1 = filename_keys(entry_names(kept1));
    let order0 = choose|order: Seq<usize>|
        {
            &&& is_sorted_order(keys0, true, order)
            &&& before.len() == order.len()
            &&& forall|k: int|
                0 <= k < before.len() ==> describes(
                    #[trigger] before[k],
                    kept0[order[k] as int].name,
                    kept0[order[k] as int].path,
                    kept0[order[k] as int].stamp->0,
                )
        };
    let order1 = choose|order: Seq<usize>|
        {
            &&& is_sorted_order(keys1, true, order)
            &&& after.len() == order.len()
            &&& forall|k: int|
                0 <= k < after.len() ==> describes(
                    #[trigger] after[k],
                    kept1[order[k] as int].name,
                    kept1[order[k] as int].path,
                    kept1[order[k] as int].stamp->0,
                )
        };
    lemma_snapshot_entries_around(entries, i);
    lemma_snapshot_entries_single(e);
    let front = snapshot_entries(entries.take(i));
    if is_listed_entry(e) {
        let m = front.len() as int;
        assert(kept1 =~= kept0.remove(m));
        assert(kept0[m] == e);
        assert(keys1 =~= keys0.remove(m));
        lemma_sorted_order_covers(keys0, true, order0);
        assert(lists(order0, m));
        let p = choose|a: int| 0 <= a < order0.len() && order0[a] == m;
        let shifted = Seq::new(
            (order0.len() - 1) as nat,
            |k: int| shift_down(order0[if k < p { k } else { k + 1 }], m),
        );
        lemma_sorted_order_without(keys0, order0, m, p);
        lemma_sorted_order_unique(keys1, true, order1, shifted);
        assert forall|k: int| 0 <= k < after.len() implies #[trigger] record_keys(after)[k]
            == record_keys(before).remove(p)[k] by {
            let k0 = if k < p { k } else { k + 1 };
            lemma_sorted_order_distinct(keys0, order0, k0, p);
            assert(kept1[shifted[k] as int] == kept0[order0[k0] as int]);
            assert(describes(before[k0], kept0[order0[k0] as int].name, kept0[order0[k0] as int].path, kept0[order0[k0] as int].stamp->0));
        }
        assert(record_keys(after) =~= record_keys(before).remove(p));
        assert(describes(before[p], e.name, e.path, e.stamp->0));
    } else {
        assert(kept1 =~= kept0);
        lemma_sorted_order_unique(keys0, true, order0, order1);
        assert(record_keys(after) =~= record_keys(before));
    }
}

/// A snapshot just taken is in the list, once, with the size the scan
/// reported. The scan of `lines` saved its output at the path that
/// `build_output_path` gives, `snapshot_path(home, date, drive)`; the
/// snapshot folder lists that file (each file of a folder once), and reports
/// as its size the number of bytes written to it. Then the list of
/// snapshots holds exactly one record with that path, and its size is the
/// size the scan counted.
pub proof fn lemma_new_snapshot_is_listed(
    entries: Seq<SnapshotEntry>,
    i: int,
    logs: Seq<SnapshotLog>,
    home: Seq<char>,
    date: Seq<char>,
    drive: Seq<char>,
    lines: Seq<Seq<char>>,
)
    requires
        0 <= i < entries.len(),
        forall|a: int, b: int|
            0 <= a < b < entries.len() ==> #[trigger] entries[a].path@ != #[trigger] entries[b].path@,
        entries[i].name_bytes@ == encode_utf8(snapshot_file_name(date, drive)),
        entries[i].path@ == snapshot_path(home, date, drive),
        entries[i].stamp matches Some(st) && st.size_bytes == snapshot_bytes(lines).len(),
        lists_newest_first(entries, logs),
    ensures
        exists|k: int|
            0 <= k < logs.len() && (#[trigger] logs[k]).file_path@ == snapshot_path(home, date, drive)
                && logs[k].size_bytes == tally_of(lines).1,
        forall|k1: int, k2: int|
            0 <= k1 < logs.len() && 0 <= k2 < logs.len() && (#[trigger] logs[k1]).file_path@
                == snapshot_path(home, date, drive) && (#[trigger] logs[k2]).file_path@
                == snapshot_path(home, date, drive) ==> k1 == k2,
        wrap64(tally_of(lines).1 as int) == tally_of(lines).1,
{
    let e = entries[i];
    let path = snapshot_path(home, date, drive);
    lemma_saved_snapshot_is_listed(home, date, drive);
    lemma_size_is_written_bytes(lines);
    assert(is_listed_entry(e));
    let kept = snapshot_entries(entries);
    let keys = filename_keys(entry_names(kept));
    let order = choose|order: Seq<usize>|
        {
            &&& is_sorted_order(keys, true, order)
            &&& logs.len() == order.len()
            &&& forall|k: int|
                0 <= k < logs.len() ==> describes(
                    #[trigger] logs[k],
                    kept[order[k] as int].name,
                    kept[order[k] as int].path,
                    kept[order[k] as int].stamp->0,
                )
        };
    lemma_snapshot_entries_around(entries, i);
    lemma_snapshot_entries_single(e);
    let front = snapshot_entries(entries.take(i));
    let back = snapshot_entries(entries.skip(i + 1));
    let m = front.len() as int;
    assert(kept[m] == e);
    lemma_snapshot_entries_from(entries.take(i));
    lemma_snapshot_entries_from(entries.skip(i + 1));
    // Only the kept entry at `m` has the snapshot's path.
    assert forall|v: int| 0 <= v < kept.len() && (#[trigger] kept[v]).path@ == path implies v == m by {
        if v < m {
            assert(front[v] == kept[v]);
            let head = entries.take(i);
            let j = choose|j: int| 0 <= j < head.len() && #[trigger] head[j] == front[v];
            assert(entries[j] == kept[v]);
            assert(entries[j].path@ == entries[i].path@);
            assert(false);
        } else if v > m {
            assert(back[v - m - 1] == kept[v]);
            let tail = entries.skip(i + 1);
            let j = choose|j: int| 0 <= j < tail.len() && #[trigger] tail[j] == back[v - m - 1];
            assert(entries[i + 1 + j] == kept[v]);
            assert(entries[i].path@ == entries[i + 1 + j].path@);
            assert(false);
        }
    }
    lemma_sorted_order_covers(keys, true, order);
    assert(lists(order, m));
    let p = choose|a: int| 0 <= a < order.len() && order[a] == m;
    assert(describes(logs[p], e.name, e.path, e.stamp->0));
    assert(logs[p].file_path@ == path && logs[p].size_bytes == tally_of(lines).1);
    assert forall|k1: int, k2: int|
        0 <= k1 < logs.len() && 0 <= k2 < logs.len() && (#[trigger] logs[k1]).file_path@ == path
            && (#[trigger] logs[k2]).file_path@ == path implies k1 == k2 by {
        assert(describes(logs[k1], kept[order[k1] as int].name, kept[order[k1] as int].path, kept[order[k1] as int].stamp->0));
        assert(describes(logs[k2], kept[order[k2] as int].name, kept[order[k2] as int].path, kept[order[k2] as int].stamp->0));
        assert(kept[order[k1] as int].path@ == path);
        assert(kept[order[k2] as int].path@ == path);
        if k1 != k2 {
            lemma_sorted_order_distinct(keys, order, k1, k2);
        }
    }
    vstd::arithmetic::div_mod::lemma_small_mod(tally_of(lines).1, 0x1_0000_0000_0000_0000);
}

/// The list is sorted newest first by whole file name: of any two records,
/// the earlier one's name, as UTF-8 bytes, is never below the later one's
/// in byte order (the order of `String` comparison); so records whose names
/// differ are in strictly descending order of name.
pub proof fn lemma_listed_by_descending_name(
    entries: Seq<SnapshotEntry>,
    logs: Seq<SnapshotLog>,
    i: int,
    j: int,
)
    requires
        lists_newest_first(entries, logs),
        0 <= i < j < logs.len(),
    ensures
        !bytes_lt(encode_utf8(logs[i].filename@), encode_utf8(logs[j].filename@)),
        logs[i].filename@ != logs[j].filename@ ==> bytes_lt(
            encode_utf8(logs[j].filename@),
            encode_utf8(logs[i].filename@),
        ),
{
    let kept = snapshot_entries(entries);
    let keys = filename_keys(entry_names(kept));
    let order = choose|order: Seq<usize>|
        {
            &&& is_sorted_order(keys, true, order)
            &&& logs.len() == order.len()
            &&& forall|k: int|
                0 <= k < logs.len() ==> describes(
                    #[trigger] logs[k],
                    kept[order[k] as int].name,
                    kept[order[k] as int].path,
                    kept[order[k] as int].stamp->0,
                )
        };
    assert(describes(logs[i], kept[order[i] as int].name, kept[order[i] as int].path, kept[order[i] as int].stamp->0));
    assert(describes(logs[j], kept[order[j] as int].name, kept[order[j] as int].path, kept[order[j] as int].stamp->0));
    assert(ranks_before(keys, true, order[i] as int, order[j] as int));
    let a = encode_utf8(logs[i].filename@);
    let b = encode_utf8(logs[j].filename@);
    assert(keys[order[i] as int] == a);
    assert(keys[order[j] as int] == b);
    lemma_bytes_lt_total(a, b);
    lemma_bytes_lt_irreflexive(a);
    if logs[i].filename@ != logs[j].filename@ {
        vstd::utf8::encode_utf8_decode_utf8(logs[i].filename@);
        vstd::utf8::encode_utf8_decode_utf8(logs[j].filename@);
    }
}

/// The line that stands for a snapshot in the list: its name, size and
/// time, two spaces apart.
pub fn snapshot_menu_label(log: &SnapshotLog) -> (label: String)
    ensures
        label@ == log.filename@ + "  "@ + bytes_text(log.size_bytes as nat) + "  "@
            + log.modified_at@,
{
    let mut out = string_chars(&log.filename);
    push_all(&mut out, &chars_of("  "));
    push_all(&mut out, &string_chars(&format_bytes(log.size_bytes)));
    push_all(&mut out, &chars_of("  "));
    push_all(&mut out, &string_chars(&log.modified_at));
    string_from_chars(out)
}

/// The name of the snapshot file of `drive` saved on `date`.
pub open spec fn snapshot_file_name(date: Seq<char>, drive: Seq<char>) -> Seq<char> {
    "snapshot_"@ + date + "_"@ + drive + ".txt"@
}

/// A snapshot is saved in the snapshot folder, under a name that the list
/// of snapshots recognises: what a scan saves is what the list shows.
pub proof fn lemma_saved_snapshot_is_listed(home: Seq<char>, date: Seq<char>, drive: Seq<char>)
    ensures
        snapshot_path(home, date, drive) == snapshot_dir_text(Some(home)) + "/"@
            + snapshot_file_name(date, drive),
        is_snapshot_name(encode_utf8(snapshot_file_name(date, drive))),
{
    reveal_strlit("/TreeSnapshots/snapshots/snapshot_");
    reveal_strlit("/TreeSnapshots/snapshots");
    reveal_strlit("/");
    reveal_strlit("snapshot_");
    reveal_strlit(".txt");
    reveal_strlit("_");
    assert("/TreeSnapshots/snapshots/snapshot_"@ =~= "/TreeSnapshots/snapshots"@ + "/"@
        + "snapshot_"@);
    assert(snapshot_path(home, date, drive) =~= snapshot_dir_text(Some(home)) + "/"@
        + snapshot_file_name(date, drive));
    let stem = "snapshot_"@ + date + "_"@ + drive;
    assert(snapshot_file_name(date, drive) =~= stem + ".txt"@);
    lemma_encode_concat(stem, ".txt"@);
    assert(is_ascii_chars(".txt"@));
    is_ascii_chars_encode_utf8(".txt"@);
    let tail = encode_utf8(".txt"@);
    assert(tail =~= seq![46u8, 116u8, 120u8, 116u8]);
    lemma_encode_concat("snapshot_"@, date + "_"@ + drive);
    assert(stem =~= "snapshot_"@ + (date + "_"@ + drive));
    assert(is_ascii_chars("snapshot_"@));
    is_ascii_chars_encode_utf8("snapshot_"@);
    let head = encode_utf8(stem);
    assert(head.len() >= 9);
    let bytes = encode_utf8(snapshot_file_name(date, drive));
    assert(bytes =~= head + tail);
    let n = bytes.len() as int;
    assert(bytes.drop_last() =~= head + seq![46u8, 116u8, 120u8]);
    assert(bytes.drop_last().drop_last() =~= head + seq![46u8, 116u8]);
    assert(bytes.drop_last().drop_last().drop_last() =~= head + seq![46u8]);
    let b1 = bytes.drop_last();
    let b2 = b1.drop_last();
    let b3 = b2.drop_last();
    assert(bytes.last() == 116u8 && b1.last() == 120u8 && b2.last() == 116u8 && b3.last()
        == 46u8);
    assert(last_dot(b3) == Some(n - 4));
    assert(last_dot(b2) == Some(n - 4));
    assert(last_dot(b1) == Some(n - 4));
    assert(last_dot(bytes) == Some(n - 4));
    assert(bytes.subrange(n - 3, n) =~= seq![116u8, 120u8, 116u8]);
    assert(bytes != seq![46u8, 46u8]);
}

} // verus!
