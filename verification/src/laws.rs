//! Laws that hold of the rules of discovery, stated over the same
//! specifications that the contracts of the functions use.

use vstd::prelude::*;
use vstd::string::*;
use crate::classify::{
    block_source, classified, devices_of, fallback_label, flag_set, given, label_of, manager_label,
    on_media_path, probe_at, shown, ProbeView,
};
use crate::device::DeviceView;
use crate::mount::{
    decoded, is_host_mirror, is_listed, record_of, records_of, table_entries, EntryView,
    RecordView,
};
use crate::text::{
    after_last, last_segment, lines_of, occurs_at, replaced_from, without_trailing,
};

verus! {

/// The path holds a segment that is not empty: a character other than the
/// separator.
pub open spec fn has_segment(path: Seq<char>) -> bool {
    exists|i: int| 0 <= i < path.len() && #[trigger] path[i] != '/'
}

/// A path cut of its trailing separators is a prefix of the path, ends in no
/// separator, and has lost separators only.
pub proof fn lemma_without_trailing(s: Seq<char>, sep: char)
    ensures
        without_trailing(s, sep).len() <= s.len(),
        without_trailing(s, sep) == s.subrange(0, without_trailing(s, sep).len() as int),
        without_trailing(s, sep).len() > 0 ==> without_trailing(s, sep).last() != sep,
        forall|i: int| without_trailing(s, sep).len() <= i < s.len() ==> #[trigger] s[i] == sep,
    decreases s.len(),
{
    if s.len() > 0 && s.last() == sep {
        lemma_without_trailing(s.drop_last(), sep);
        let w = without_trailing(s, sep);
        assert(w =~= s.subrange(0, w.len() as int));
        assert forall|i: int| w.len() <= i < s.len() implies #[trigger] s[i] == sep by {
            if i < s.len() - 1 {
                assert(s.drop_last()[i] == sep);
            }
        }
    } else {
        assert(s =~= s.subrange(0, s.len() as int));
    }
}

/// What follows the last separator holds no separator.
pub proof fn lemma_after_last_has_no_separator(s: Seq<char>, sep: char)
    ensures
        forall|i: int| 0 <= i < after_last(s, sep).len() ==> #[trigger] after_last(s, sep)[i] != sep,
    decreases s.len(),
{
    if s.len() > 0 && s.last() != sep {
        let head = after_last(s.drop_last(), sep);
        lemma_after_last_has_no_separator(s.drop_last(), sep);
        assert forall|i: int| 0 <= i < after_last(s, sep).len() implies #[trigger] after_last(
            s,
            sep,
        )[i] != sep by {
            if i < head.len() {
                assert(head.push(s.last())[i] == head[i]);
            }
        }
    }
}

/// The last segment of a path is a segment: it holds no separator. It is
/// not empty exactly where the path has a segment that is not empty.
pub proof fn lemma_last_segment(path: Seq<char>)
    ensures
        forall|i: int| 0 <= i < last_segment(path).len() ==> #[trigger] last_segment(path)[i] != '/',
        last_segment(path).len() > 0 <==> has_segment(path),
{
    let body = without_trailing(path, '/');
    lemma_without_trailing(path, '/');
    lemma_after_last_has_no_separator(body, '/');
    if has_segment(path) {
        let i = choose|i: int| 0 <= i < path.len() && #[trigger] path[i] != '/';
        assert(i < body.len());
        assert(after_last(body, '/') == after_last(body.drop_last(), '/').push(body.last()));
    }
    if last_segment(path).len() > 0 {
        assert(body.len() > 0);
        assert(body.last() == path[body.len() - 1]);
        assert(path[body.len() - 1] != '/');
    }
}

/// No descriptor that is shown has a mount point under the directory where
/// a sandbox mirrors the host's mounts, whatever the records and the probes
/// are.
pub proof fn lemma_host_mirrors_never_shown(records: Seq<RecordView>, probes: Seq<ProbeView>)
    ensures
        forall|i: int|
            0 <= i < devices_of(records, probes).len() ==> {
                &&& !is_host_mirror(#[trigger] devices_of(records, probes)[i].mountpoint)
                &&& devices_of(records, probes)[i].mountpoint.len() > 0
            },
    decreases records.len(),
{
    if records.len() > 0 {
        lemma_host_mirrors_never_shown(records.drop_last(), probes);
    }
}

/// Replacing leaves alone the part of a text in which the pattern stands
/// nowhere.
pub proof fn lemma_replaced_without_occurrence(
    s: Seq<char>,
    pat: Seq<char>,
    with: Seq<char>,
    at: int,
)
    requires
        0 <= at <= s.len(),
        forall|i: int| at <= i < s.len() ==> !occurs_at(s, pat, i),
    ensures
        replaced_from(s, pat, with, at) == s.subrange(at, s.len() as int),
    decreases s.len() - at,
{
    if at < s.len() {
        lemma_replaced_without_occurrence(s, pat, with, at + 1);
        assert(seq![s[at]] + s.subrange(at + 1, s.len() as int) =~= s.subrange(
            at,
            s.len() as int,
        ));
    } else {
        assert(s.subrange(at, s.len() as int) =~= Seq::<char>::empty());
    }
}

/// Decoding leaves a mount point without a backslash as it is.
pub proof fn lemma_plain_mount_point_is_unchanged(raw: Seq<char>)
    requires
        forall|i: int| 0 <= i < raw.len() ==> raw[i] != '\\',
    ensures
        decoded(raw) == raw,
{
    reveal_strlit("\\040");
    let pat = "\\040"@;
    assert forall|i: int| 0 <= i < raw.len() implies !occurs_at(raw, pat, i) by {
        if occurs_at(raw, pat, i) {
            assert(raw[i + 0] == pat[0]);
        }
    }
    lemma_replaced_without_occurrence(raw, pat, " "@, 0);
    assert(raw.subrange(0, raw.len() as int) =~= raw);
}

/// The descriptors that the text of a mount table gives, with the probes of
/// the records kept of it.
pub open spec fn discovered(table: Seq<char>, probes: Seq<ProbeView>) -> Seq<DeviceView> {
    devices_of(records_of(table_entries(lines_of(table))), probes)
}

/// Whatever the mount table holds, and whatever the probes say, no
/// descriptor comes out of it whose mount point mirrors a host mount.
pub proof fn lemma_no_table_shows_a_host_mirror(table: Seq<char>, probes: Seq<ProbeView>)
    ensures
        forall|i: int|
            0 <= i < discovered(table, probes).len() ==> !is_host_mirror(
                #[trigger] discovered(table, probes)[i].mountpoint,
            ),
{
    lemma_host_mirrors_never_shown(records_of(table_entries(lines_of(table))), probes);
}

/// Every descriptor that is shown belongs to one of the records: it has
/// that record's mount point.
pub proof fn lemma_shown_come_from_records(records: Seq<RecordView>, probes: Seq<ProbeView>)
    ensures
        devices_of(records, probes).len() <= records.len(),
        forall|i: int|
            0 <= i < devices_of(records, probes).len() ==> exists|k: int|
                0 <= k < records.len() && shown(records[k], probe_at(probes, k)) == Some(
                    #[trigger] devices_of(records, probes)[i],
                ),
    decreases records.len(),
{
    if records.len() > 0 {
        let head = records.drop_last();
        lemma_shown_come_from_records(head, probes);
        let last = records.len() - 1;
        assert forall|i: int| 0 <= i < devices_of(records, probes).len() implies exists|k: int|
            0 <= k < records.len() && shown(records[k], probe_at(probes, k)) == Some(
                #[trigger] devices_of(records, probes)[i],
            ) by {
            if i < devices_of(head, probes).len() {
                let k = choose|k: int|
                    0 <= k < head.len() && shown(head[k], probe_at(probes, k)) == Some(
                        devices_of(head, probes)[i],
                    );
                assert(records[k] == head[k]);
                assert(devices_of(records, probes)[i] == devices_of(head, probes)[i]);
            } else {
                assert(shown(records[last], probe_at(probes, last)) == Some(
                    devices_of(records, probes)[i],
                ));
            }
        }
    }
}

/// No record kept of a mount table has a mount point that is empty or
/// mirrors a host mount.
pub proof fn lemma_records_are_listed(entries: Seq<EntryView>)
    ensures
        records_of(entries).len() <= entries.len(),
        forall|i: int|
            0 <= i < records_of(entries).len() ==> is_listed(
                #[trigger] records_of(entries)[i].target,
            ),
    decreases entries.len(),
{
    if entries.len() > 0 {
        lemma_records_are_listed(entries.drop_last());
    }
}

/// A table entry whose decoded mount point mirrors a host mount leaves no
/// record.
pub proof fn lemma_host_mirror_leaves_no_record(entry: EntryView)
    requires
        is_host_mirror(decoded(entry.fs_file)),
    ensures
        record_of(entry) is None,
{
}

/// A mount whose source is no block device is never classified, wherever
/// it is mounted and whatever its probe holds.
pub proof fn lemma_non_block_source_is_never_classified(record: RecordView, probe: ProbeView)
    requires
        !block_source(record.source),
    ensures
        classified(record, probe) is None,
        shown(record, probe) is None,
{
}

/// A block device mounted on a media path is classified as removable,
/// whatever its removable flag holds and whether or not it could be read.
pub proof fn lemma_media_path_is_removable(record: RecordView, probe: ProbeView)
    requires
        block_source(record.source),
        on_media_path(record.target),
    ensures
        classified(record, probe) is Some,
{
}

/// A block device mounted elsewhere is classified as removable exactly where
/// its removable flag was read and, trimmed of white space, is exactly `1`.
pub proof fn lemma_elsewhere_the_flag_decides(record: RecordView, probe: ProbeView)
    requires
        block_source(record.source),
        !on_media_path(record.target),
    ensures
        classified(record, probe) is Some <==> flag_set(probe.removable_flag),
{
}

/// Every descriptor that is shown stands for a block device: one of the
/// records has its mount point and a source that begins with `/dev/`.
pub proof fn lemma_shown_are_block_devices(records: Seq<RecordView>, probes: Seq<ProbeView>)
    ensures
        forall|i: int|
            0 <= i < devices_of(records, probes).len() ==> exists|k: int|
                0 <= k < records.len() && block_source(records[k].source) && records[k].target == (
                #[trigger] devices_of(records, probes)[i]).mountpoint,
{
    lemma_shown_come_from_records(records, probes);
    assert forall|i: int| 0 <= i < devices_of(records, probes).len() implies exists|k: int|
        0 <= k < records.len() && block_source(records[k].source) && records[k].target == (
        #[trigger] devices_of(records, probes)[i]).mountpoint by {
        let d = devices_of(records, probes)[i];
        let k = choose|k: int|
            0 <= k < records.len() && shown(records[k], probe_at(probes, k)) == Some(d);
        assert(block_source(records[k].source) && records[k].target == d.mountpoint);
    }
}

/// Where the device manager gives a label, that label is shown, whatever
/// the utility reports and whatever the mount point is.
pub proof fn lemma_manager_label_wins(record: RecordView, probe: ProbeView)
    requires
        given(manager_label(probe)),
    ensures
        label_of(record.target, probe) == manager_label(probe)->0,
        classified(record, probe) is Some ==> classified(record, probe)->0.label == manager_label(
            probe,
        )->0,
{
}

/// Where the device manager gives no label and the utility does, the
/// utility's label is shown.
pub proof fn lemma_utility_label_is_second(record: RecordView, probe: ProbeView)
    requires
        !given(manager_label(probe)),
        given(probe.utility_label),
    ensures
        label_of(record.target, probe) == probe.utility_label->0,
{
}

/// Where no source gives a label and the mount point has a segment that is
/// not empty, the label is the last such segment.
pub proof fn lemma_fallback_is_last_segment(record: RecordView, probe: ProbeView)
    requires
        !given(manager_label(probe)),
        !given(probe.utility_label),
        has_segment(record.target),
    ensures
        label_of(record.target, probe) == last_segment(record.target),
{
    lemma_last_segment(record.target);
}

/// The label of a descriptor is never empty where the mount point has a
/// segment that is not empty; nor where the mount point is not empty at all.
pub proof fn lemma_label_never_empty(record: RecordView, probe: ProbeView)
    requires
        has_segment(record.target) || record.target.len() > 0,
    ensures
        label_of(record.target, probe).len() > 0,
        classified(record, probe) is Some ==> classified(record, probe)->0.label.len() > 0,
{
    if has_segment(record.target) {
        let i = choose|i: int| 0 <= i < record.target.len() && #[trigger] record.target[i] != '/';
        assert(record.target.len() > 0);
    }
    assert(fallback_label(record.target).len() > 0);
}

/// Every descriptor that is shown has a label that is not empty.
pub proof fn lemma_shown_labels_never_empty(records: Seq<RecordView>, probes: Seq<ProbeView>)
    ensures
        forall|i: int|
            0 <= i < devices_of(records, probes).len() ==> (#[trigger] devices_of(
                records,
                probes,
            )[i]).label.len() > 0,
    decreases records.len(),
{
    if records.len() > 0 {
        lemma_shown_labels_never_empty(records.drop_last(), probes);
        let last = records.last();
        let probe = probe_at(probes, records.len() - 1);
        if is_listed(last.target) {
            lemma_label_never_empty(last, probe);
        }
    }
}

/// Enumeration is repeatable: two runs over the same mount table, with the
/// same probes, give the same descriptors, mount point by mount point.
pub proof fn lemma_enumeration_is_repeatable(
    entries: Seq<EntryView>,
    probes: Seq<ProbeView>,
    first: Seq<DeviceView>,
    second: Seq<DeviceView>,
)
    requires
        first == devices_of(records_of(entries), probes),
        second == devices_of(records_of(entries), probes),
    ensures
        first == second,
        forall|d: DeviceView| first.contains(d) <==> second.contains(d),
        forall|i: int| 0 <= i < first.len() ==> (#[trigger] first[i]).mountpoint == second[i].mountpoint,
{
}

} // verus!
