//! The mount table: its entries as the operating system reports them, and the
//! records that the library keeps of them.

use vstd::prelude::*;
use vstd::string::*;
use procfs::FromBufRead;
use crate::text::{begins_with, lines_of, replace_all, replaced, split_lines, starts_with, text_views};

verus! {

/// One entry of the mount table as the operating system writes it: the
/// mount point may still hold escaped spaces.
#[derive(Clone, Debug)]
pub struct TableEntry {
    pub fs_spec: String,
    pub fs_file: String,
}

/// One mounted filesystem: where it comes from and where it is mounted, the
/// mount point in plain characters.
#[derive(Clone, Debug)]
pub struct MountRecord {
    pub source: String,
    pub target: String,
}

/// The mathematical value of a `TableEntry`.
pub ghost struct EntryView {
    pub fs_spec: Seq<char>,
    pub fs_file: Seq<char>,
}

/// The mathematical value of a `MountRecord`.
pub ghost struct RecordView {
    pub source: Seq<char>,
    pub target: Seq<char>,
}

impl View for TableEntry {
    type V = EntryView;

    open spec fn view(&self) -> EntryView {
        EntryView { fs_spec: self.fs_spec@, fs_file: self.fs_file@ }
    }
}

impl View for MountRecord {
    type V = RecordView;

    open spec fn view(&self) -> RecordView {
        RecordView { source: self.source@, target: self.target@ }
    }
}

/// The values of a list of table entries, in order.
pub open spec fn entry_views(entries: Seq<TableEntry>) -> Seq<EntryView> {
    entries.map_values(|e: TableEntry| e@)
}

/// The values of a list of records, in order.
pub open spec fn record_views(records: Seq<MountRecord>) -> Seq<RecordView> {
    records.map_values(|r: MountRecord| r@)
}

/// What `procfs` reads out of one line of a mount table: for each entry it
/// finds, the device and the mount point; `None` where it rejects the line.
pub uninterp spec fn procfs_line(line: Seq<char>) -> Option<Seq<(Seq<char>, Seq<char>)>>;

/// What was read out of a line, as plain values.
pub open spec fn found_views(found: Option<Vec<TableEntry>>) -> Option<
    Seq<(Seq<char>, Seq<char>)>,
> {
    match found {
        Some(entries) => Some(entries@.map_values(|e: TableEntry| (e.fs_spec@, e.fs_file@))),
        None => None,
    }
}

/// The entries that one line of a mount table gives: none where the line is
/// rejected.
pub open spec fn line_entries(line: Seq<char>) -> Seq<EntryView> {
    match procfs_line(line) {
        Some(found) => found.map_values(
            |p: (Seq<char>, Seq<char>)| EntryView { fs_spec: p.0, fs_file: p.1 },
        ),
        None => Seq::empty(),
    }
}

/// The entries that the lines of a mount table give, in the lines' order.
pub open spec fn table_entries(lines: Seq<Seq<char>>) -> Seq<EntryView>
    decreases lines.len(),
{
    if lines.len() == 0 {
        Seq::empty()
    } else {
        table_entries(lines.drop_last()) + line_entries(lines.last())
    }
}

/// A mount point with each escaped space (a backslash and `040`) turned into
/// a space. No other escape is touched.
pub open spec fn decoded(raw: Seq<char>) -> Seq<char> {
    replaced(raw, "\\040"@, " "@)
}

/// The mount point lies under the directory where a sandbox shows the host's
/// own mounts a second time.
pub open spec fn is_host_mirror(target: Seq<char>) -> bool {
    begins_with(target, "/run/host/"@)
}

/// The mount point is one that the library keeps: it is not empty and is no
/// mirror of a host mount.
pub open spec fn is_listed(target: Seq<char>) -> bool {
    target.len() > 0 && !is_host_mirror(target)
}

/// The record kept of a table entry, if any.
pub open spec fn record_of(entry: EntryView) -> Option<RecordView> {
    let target = decoded(entry.fs_file);
    if is_listed(target) {
        Some(RecordView { source: entry.fs_spec, target })
    } else {
        None
    }
}

/// The records kept of a mount table, in the table's order.
pub open spec fn records_of(entries: Seq<EntryView>) -> Seq<RecordView>
    decreases entries.len(),
{
    if entries.len() == 0 {
        Seq::empty()
    } else {
        let head = records_of(entries.drop_last());
        match record_of(entries.last()) {
            Some(r) => head.push(r),
            None => head,
        }
    }
}

/// Hands one line of a mount table to `procfs`, to its `from_buf_read` for
/// `Vec<MountEntry>`, and keeps the device and the mount point of each entry
/// that comes back. Believed, not proved: the result depends on the line
/// alone, and is `None` where `procfs` returns an error.
#[verifier::external_body]
fn read_line(line: &str) -> (r: Option<Vec<TableEntry>>)
    ensures
        found_views(r) == procfs_line(line@),
{
    match Vec::<procfs::MountEntry>::from_buf_read(line.as_bytes()) {
        Ok(found) => Some(
            found.into_iter().map(|m| TableEntry { fs_spec: m.fs_spec, fs_file: m.fs_file }).collect(),
        ),
        Err(_) => None,
    }
}

/// Adds to `entries` what was read out of one line: every entry found, and
/// nothing where the line was rejected.
pub fn keep_found(entries: &mut Vec<TableEntry>, found: Option<Vec<TableEntry>>)
    ensures
        final(entries)@ == old(entries)@ + (match found {
            Some(f) => f@,
            None => Seq::empty(),
        }),
{
    match found {
        Some(mut f) => {
            entries.append(&mut f);
        },
        None => {
            assert(entries@ + Seq::<TableEntry>::empty() =~= entries@);
        },
    }
}

/// Reads the entries out of the text of a mount table, line by line. A line
/// that cannot be read is passed over, and the lines after it still count.
pub fn parse_mount_table(text: &str) -> (r: Vec<TableEntry>)
    ensures
        entry_views(r@) == table_entries(lines_of(text@)),
{
    let lines = split_lines(text);
    let mut entries: Vec<TableEntry> = Vec::new();
    let mut i: usize = 0;
    assert(text_views(lines@).take(0) =~= Seq::<Seq<char>>::empty());
    assert(entry_views(entries@) =~= Seq::<EntryView>::empty());
    while i < lines.len()
        invariant
            i <= lines.len(),
            entry_views(entries@) == table_entries(text_views(lines@).take(i as int)),
        decreases lines.len() - i,
    {
        let ghost before = entries@;
        let found = read_line(lines[i].as_str());
        proof {
            let upto = text_views(lines@).take(i + 1);
            assert(upto.drop_last() =~= text_views(lines@).take(i as int));
            assert(upto.last() == lines@[i as int]@);
            if found is Some {
                let f = found->0@;
                assert(entry_views(f) =~= line_entries(lines@[i as int]@));
                assert(entry_views(before + f) =~= entry_views(before) + entry_views(f));
            } else {
                assert(entry_views(before + Seq::<TableEntry>::empty()) =~= entry_views(before)
                    + Seq::<EntryView>::empty());
            }
        }
        keep_found(&mut entries, found);
        i += 1;
    }
    assert(text_views(lines@).take(lines@.len() as int) =~= text_views(lines@));
    entries
}

/// Decodes the escaped spaces of a mount point.
pub fn decode_mount_point(raw: &str) -> (r: String)
    ensures
        r@ == decoded(raw@),
{
    replace_all(raw, "\\040", " ")
}

/// Tells whether a mount point mirrors a host mount inside a sandbox.
pub fn host_mirror(target: &str) -> (r: bool)
    ensures
        r == is_host_mirror(target@),
{
    starts_with(target, "/run/host/")
}

/// Tells whether a mount point is one that the library keeps.
pub fn listed(target: &str) -> (r: bool)
    ensures
        r == is_listed(target@),
{
    !target.is_empty() && !host_mirror(target)
}

impl MountRecord {
    /// The record kept of one table entry: its mount point decoded, and
    /// nothing where the mount point is empty or a host mirror.
    pub fn from_entry(entry: &TableEntry) -> (r: Option<MountRecord>)
        ensures
            r is Some <==> record_of(entry@) is Some,
            r is Some ==> r->0@ == record_of(entry@)->0,
    {
        let target = decode_mount_point(entry.fs_file.as_str());
        if listed(target.as_str()) {
            Some(MountRecord { source: entry.fs_spec.clone(), target })
        } else {
            None
        }
    }
}

/// Turns the entries of a mount table into records, in order, leaving out
/// those that are not kept.
pub fn enumerate_mounts(entries: &Vec<TableEntry>) -> (r: Vec<MountRecord>)
    ensures
        record_views(r@) == records_of(entry_views(entries@)),
        r@.len() == records_of(entry_views(entries@)).len(),
        forall|i: int|
            0 <= i < r@.len() ==> (#[trigger] r@[i])@ == records_of(entry_views(entries@))[i],
        forall|i: int| 0 <= i < r@.len() ==> is_listed(#[trigger] r@[i]@.target),
{
    let mut records: Vec<MountRecord> = Vec::new();
    let mut i: usize = 0;
    assert(entry_views(entries@).take(0) =~= Seq::<EntryView>::empty());
    assert(record_views(records@) =~= Seq::<RecordView>::empty());
    while i < entries.len()
        invariant
            i <= entries.len(),
            record_views(records@) == records_of(entry_views(entries@).take(i as int)),
            forall|k: int| 0 <= k < records@.len() ==> is_listed(#[trigger] records@[k]@.target),
        decreases entries.len() - i,
    {
        let ghost before = records@;
        proof {
            let upto = entry_views(entries@).take(i + 1);
            assert(upto.drop_last() =~= entry_views(entries@).take(i as int));
            assert(upto.last() == entries@[i as int]@);
        }
        match MountRecord::from_entry(&entries[i]) {
            Some(record) => {
                records.push(record);
                assert(record_views(records@) =~= record_views(before).push(record@));
            },
            None => {},
        }
        i += 1;
    }
    proof {
        assert(entry_views(entries@).take(entries@.len() as int) =~= entry_views(entries@));
        assert(record_views(records@).len() == records@.len());
        assert forall|i: int| 0 <= i < records@.len() implies (#[trigger] records@[i])@
            == records_of(entry_views(entries@))[i] by {
            assert(record_views(records@)[i] == records@[i]@);
        }
    }
    records
}

} // verus!
