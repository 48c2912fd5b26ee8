//! Which mounts are removable media, and how each is described.
//!
//! The caller looks up what the operating system knows of a mounted device
//! (its removable flag, its entry in the device manager's database, the label
//! that the block-device utility reports) and hands it over as a `Probe`. The
//! rules that decide on eligibility, kind and label stand here.

use vstd::prelude::*;
use vstd::string::*;
use crate::device::{device_views, Device, DeviceType, DeviceView};
use crate::laws::{
    lemma_host_mirrors_never_shown, lemma_shown_come_from_records, lemma_shown_labels_never_empty,
};
use crate::mount::{
    is_host_mirror, is_listed, listed, record_views, MountRecord, RecordView,
};
use crate::text::{
    begins_with, final_segment, is_one, last_segment, matches_at, replace_all, replaced,
    starts_with, trim_trailing_digits, trimmed, without_trailing_digits,
};

verus! {

/// What the device manager's database holds on a device.
#[derive(Clone, Debug)]
pub struct DeviceInfo {
    pub fs: Option<String>,
    pub bus: Option<String>,
    pub label: Option<String>,
}

/// What the operating system told of one mounted device. A lookup that
/// failed or found nothing leaves its field `None`.
#[derive(Clone, Debug)]
pub struct Probe {
    /// The content of the device's removable-flag file.
    pub removable_flag: Option<String>,
    /// The device's entry in the device manager's database.
    pub info: Option<DeviceInfo>,
    /// The label that the block-device identification utility reports.
    pub utility_label: Option<String>,
}

/// The mathematical value of a `DeviceInfo`.
pub ghost struct InfoView {
    pub fs: Option<Seq<char>>,
    pub bus: Option<Seq<char>>,
    pub label: Option<Seq<char>>,
}

/// The mathematical value of a `Probe`.
pub ghost struct ProbeView {
    pub removable_flag: Option<Seq<char>>,
    pub info: Option<InfoView>,
    pub utility_label: Option<Seq<char>>,
}

/// The value of an optional string.
pub open spec fn text_view(text: Option<String>) -> Option<Seq<char>> {
    match text {
        Some(t) => Some(t@),
        None => None,
    }
}

impl View for DeviceInfo {
    type V = InfoView;

    open spec fn view(&self) -> InfoView {
        InfoView { fs: text_view(self.fs), bus: text_view(self.bus), label: text_view(self.label) }
    }
}

impl View for Probe {
    type V = ProbeView;

    open spec fn view(&self) -> ProbeView {
        ProbeView {
            removable_flag: text_view(self.removable_flag),
            info: match self.info {
                Some(i) => Some(i@),
                None => None,
            },
            utility_label: text_view(self.utility_label),
        }
    }
}

/// The values of a list of probes, in order.
pub open spec fn probe_views(probes: Seq<Probe>) -> Seq<ProbeView> {
    probes.map_values(|p: Probe| p@)
}

/// The probe of a device of which nothing could be learned.
pub open spec fn blank_probe() -> ProbeView {
    ProbeView { removable_flag: None, info: None, utility_label: None }
}

/// The probe that belongs to the record at position `i`: blank where the
/// list of probes ends before it.
pub open spec fn probe_at(probes: Seq<ProbeView>, i: int) -> ProbeView {
    if 0 <= i < probes.len() {
        probes[i]
    } else {
        blank_probe()
    }
}

/// The source of a mount is a block device: its path begins with `/dev/`.
pub open spec fn block_source(source: Seq<char>) -> bool {
    begins_with(source, "/dev/"@)
}

/// The name under which the device manager knows a device: its path without
/// the leading `/dev/`.
pub open spec fn short_name(source: Seq<char>) -> Seq<char> {
    if block_source(source) {
        source.subrange("/dev/"@.len() as int, source.len() as int)
    } else {
        source
    }
}

/// The name of the disk that a partition belongs to: the device's path
/// without `/dev/` and without the digits it ends in.
pub open spec fn disk_name(source: Seq<char>) -> Seq<char> {
    without_trailing_digits(replaced(source, "/dev/"@, ""@))
}

/// The file that holds the removable flag of a device's disk.
pub open spec fn flag_path(source: Seq<char>) -> Seq<char> {
    "/sys/block/"@ + disk_name(source) + "/removable"@
}

/// The mount point lies under a directory where removable media are mounted
/// by convention.
pub open spec fn on_media_path(target: Seq<char>) -> bool {
    begins_with(target, "/run/media/"@) || begins_with(target, "/media/"@)
}

/// The removable flag was read and, once the white space around it is
/// trimmed, is exactly `1`.
pub open spec fn flag_set(flag: Option<Seq<char>>) -> bool {
    flag is Some && trimmed(flag->0) == seq!['1']
}

/// A mount counts as removable only where its source is a block device:
/// then where it lies on a media path, whatever the flag says, and elsewhere
/// where the flag is set. A network or virtual source never counts.
pub open spec fn removable(record: RecordView, flag: Option<Seq<char>>) -> bool {
    block_source(record.source) && (on_media_path(record.target) || flag_set(flag))
}

/// A label source gave something: a label that is not empty.
pub open spec fn given(label: Option<Seq<char>>) -> bool {
    label is Some && label->0.len() > 0
}

/// The label that the device manager holds, if its entry was found.
pub open spec fn manager_label(probe: ProbeView) -> Option<Seq<char>> {
    match probe.info {
        Some(i) => i.label,
        None => None,
    }
}

/// The label taken from the mount point: its last non-empty segment, and the
/// whole mount point where it has none.
pub open spec fn fallback_label(target: Seq<char>) -> Seq<char> {
    if last_segment(target).len() > 0 {
        last_segment(target)
    } else {
        target
    }
}

/// The label shown for a mount: the device manager's, else the utility's,
/// else the one taken from the mount point.
pub open spec fn label_of(target: Seq<char>, probe: ProbeView) -> Seq<char> {
    if given(manager_label(probe)) {
        manager_label(probe)->0
    } else if given(probe.utility_label) {
        probe.utility_label->0
    } else {
        fallback_label(target)
    }
}

/// The kind of a device: USB where the device manager knows nothing of it;
/// where it does, USB if it names the bus `usb`, and a disk otherwise.
pub open spec fn kind_of(probe: ProbeView) -> DeviceType {
    match probe.info {
        None => DeviceType::USB,
        Some(i) => if i.bus == Some("usb"@) {
            DeviceType::USB
        } else {
            DeviceType::Disk
        },
    }
}

/// The descriptor of a mount, whether or not it is removable.
pub open spec fn described(record: RecordView, probe: ProbeView) -> DeviceView {
    DeviceView {
        kind: kind_of(probe),
        label: label_of(record.target, probe),
        mountpoint: record.target,
    }
}

/// The descriptor of a mount if it is removable, and nothing if it is not:
/// nothing, in particular, for a source that is no block device.
pub open spec fn classified(record: RecordView, probe: ProbeView) -> Option<DeviceView> {
    if removable(record, probe.removable_flag) {
        Some(described(record, probe))
    } else {
        None
    }
}

/// The descriptor under which a record is shown: that of a removable mount
/// whose mount point is kept.
pub open spec fn shown(record: RecordView, probe: ProbeView) -> Option<DeviceView> {
    if is_listed(record.target) {
        classified(record, probe)
    } else {
        None
    }
}

/// The descriptors of the records that are shown, in the records' order,
/// each record judged with the probe at its own position.
pub open spec fn devices_of(records: Seq<RecordView>, probes: Seq<ProbeView>) -> Seq<DeviceView>
    decreases records.len(),
{
    if records.len() == 0 {
        Seq::empty()
    } else {
        let head = devices_of(records.drop_last(), probes);
        match shown(records.last(), probe_at(probes, records.len() - 1)) {
            Some(d) => head.push(d),
            None => head,
        }
    }
}

/// Tells whether two strings hold the same characters.
pub fn same_text(a: &str, b: &str) -> (r: bool)
    ensures
        r == (a@ == b@),
{
    let r = a.unicode_len() == b.unicode_len() && matches_at(a, b, 0);
    proof {
        if r {
            assert(a@ =~= b@);
        }
    }
    r
}

/// The name by which to ask the device manager for a device.
pub fn device_name(source: &str) -> (r: String)
    ensures
        r@ == short_name(source@),
{
    if is_block_source(source) {
        let n: usize = source.unicode_len();
        let m: usize = "/dev/".unicode_len();
        String::from_str(source.substring_char(m, n))
    } else {
        String::from_str(source)
    }
}

/// The path of the file to read a device's removable flag from.
pub fn removable_flag_path(source: &str) -> (r: String)
    ensures
        r@ == flag_path(source@),
{
    let bare = replace_all(source, "/dev/", "");
    let disk = trim_trailing_digits(bare.as_str());
    let mut path = String::from_str("/sys/block/");
    path.append(disk.as_str());
    path.append("/removable");
    path
}

/// Tells whether a mount point lies on a media path.
pub fn media_path(target: &str) -> (r: bool)
    ensures
        r == on_media_path(target@),
{
    starts_with(target, "/run/media/") || starts_with(target, "/media/")
}

/// Tells whether the source of a mount is a block device.
pub fn is_block_source(source: &str) -> (r: bool)
    ensures
        r == block_source(source@),
{
    starts_with(source, "/dev/")
}

/// Tells whether a mount is removable, given what was read of its flag. The
/// source is looked at first: a mount of anything but a block device is not
/// removable, wherever it is mounted.
pub fn is_removable(record: &MountRecord, probe: &Probe) -> (r: bool)
    ensures
        r == removable(record@, probe@.removable_flag),
{
    if !is_block_source(record.source.as_str()) {
        return false;
    }
    if media_path(record.target.as_str()) {
        return true;
    }
    match &probe.removable_flag {
        Some(content) => is_one(content.as_str()),
        None => false,
    }
}

/// The kind of the probed device.
pub fn device_kind(probe: &Probe) -> (r: DeviceType)
    ensures
        r == kind_of(probe@),
{
    match &probe.info {
        None => DeviceType::USB,
        Some(info) => match &info.bus {
            Some(bus) => if same_text(bus.as_str(), "usb") {
                DeviceType::USB
            } else {
                DeviceType::Disk
            },
            None => DeviceType::Disk,
        },
    }
}

/// The label taken from a mount point.
pub fn mount_point_label(target: &str) -> (r: String)
    ensures
        r@ == fallback_label(target@),
{
    let segment = final_segment(target);
    if segment.as_str().is_empty() {
        String::from_str(target)
    } else {
        segment
    }
}

/// The label to show for a mount.
pub fn device_label(target: &str, probe: &Probe) -> (r: String)
    ensures
        r@ == label_of(target@, probe@),
{
    if let Some(info) = &probe.info {
        if let Some(label) = &info.label {
            if !label.as_str().is_empty() {
                return label.clone();
            }
        }
    }
    if let Some(label) = &probe.utility_label {
        if !label.as_str().is_empty() {
            return label.clone();
        }
    }
    mount_point_label(target)
}

/// Classifies one mount: its descriptor if it is removable, `None` if not.
/// A mount whose source is no block device is never removable.
pub fn classify(record: &MountRecord, probe: &Probe) -> (r: Option<Device>)
    ensures
        r is Some <==> removable(record@, probe@.removable_flag),
        r is Some <==> classified(record@, probe@) is Some,
        r is Some ==> r->0@ == classified(record@, probe@)->0,
{
    if is_removable(record, probe) {
        Some(
            Device::new(
                device_kind(probe),
                device_label(record.target.as_str(), probe),
                record.target.clone(),
            ),
        )
    } else {
        None
    }
}

/// The descriptors of all removable mounts among `records`, in order. The
/// probe of a record stands at the record's position in `probes`; a record
/// without one is judged as one of which nothing is known. Records whose
/// mount point is empty or mirrors a host mount are left out, and so are
/// those whose source is no block device.
pub fn get_all_devices(records: &Vec<MountRecord>, probes: &Vec<Probe>) -> (r: Vec<Device>)
    ensures
        device_views(r@) == devices_of(record_views(records@), probe_views(probes@)),
        r@.len() == devices_of(record_views(records@), probe_views(probes@)).len(),
        r@.len() <= records@.len(),
        forall|i: int|
            0 <= i < r@.len() ==> (#[trigger] r@[i])@ == devices_of(
                record_views(records@),
                probe_views(probes@),
            )[i],
        forall|i: int|
            0 <= i < r@.len() ==> {
                &&& !is_host_mirror(#[trigger] r@[i]@.mountpoint)
                &&& r@[i]@.mountpoint.len() > 0
                &&& r@[i]@.label.len() > 0
            },
{
    let mut devices: Vec<Device> = Vec::new();
    let blank = Probe { removable_flag: None, info: None, utility_label: None };
    let mut i: usize = 0;
    assert(record_views(records@).take(0) =~= Seq::<RecordView>::empty());
    assert(device_views(devices@) =~= Seq::<DeviceView>::empty());
    while i < records.len()
        invariant
            i <= records.len(),
            blank@ == blank_probe(),
            device_views(devices@) == devices_of(
                record_views(records@).take(i as int),
                probe_views(probes@),
            ),
        decreases records.len() - i,
    {
        let ghost before = devices@;
        proof {
            let upto = record_views(records@).take(i + 1);
            assert(upto.drop_last() =~= record_views(records@).take(i as int));
            assert(upto.last() == records@[i as int]@);
            assert(upto.len() - 1 == i);
        }
        let record = &records[i];
        if listed(record.target.as_str()) {
            let probe = if i < probes.len() {
                &probes[i]
            } else {
                &blank
            };
            assert(probe@ == probe_at(probe_views(probes@), i as int));
            match classify(record, probe) {
                Some(device) => {
                    devices.push(device);
                    assert(device_views(devices@) =~= device_views(before).push(device@));
                },
                None => {},
            }
        }
        i += 1;
    }
    proof {
        assert(record_views(records@).take(records@.len() as int) =~= record_views(records@));
        lemma_host_mirrors_never_shown(record_views(records@), probe_views(probes@));
        lemma_shown_labels_never_empty(record_views(records@), probe_views(probes@));
        lemma_shown_come_from_records(record_views(records@), probe_views(probes@));
        assert(device_views(devices@).len() == devices@.len());
        assert(record_views(records@).len() == records@.len());
        assert forall|i: int| 0 <= i < devices@.len() implies (#[trigger] devices@[i])@
            == devices_of(record_views(records@), probe_views(probes@))[i] by {
            assert(device_views(devices@)[i] == devices@[i]@);
        }
        assert forall|i: int| 0 <= i < devices@.len() implies {
            &&& !is_host_mirror(#[trigger] devices@[i]@.mountpoint)
            &&& devices@[i]@.mountpoint.len() > 0
            &&& devices@[i]@.label.len() > 0
        } by {
            assert(device_views(devices@)[i] == devices@[i]@);
        }
    }
    devices
}

} // verus!
