use applet_drives::classify::{
    classify, device_kind, device_label, device_name, get_all_devices, is_block_source,
    is_removable, media_path, mount_point_label, removable_flag_path, same_text, DeviceInfo,
    Probe,
};
use applet_drives::device::{Device, DeviceType};
use applet_drives::mount::{
    decode_mount_point, enumerate_mounts, host_mirror, keep_found, listed, parse_mount_table,
    MountRecord, TableEntry,
};

fn blank() -> Probe {
    Probe { removable_flag: None, info: None, utility_label: None }
}

fn flagged(content: &str) -> Probe {
    Probe { removable_flag: Some(content.to_string()), info: None, utility_label: None }
}

fn known(bus: Option<&str>, label: Option<&str>) -> Probe {
    Probe {
        removable_flag: None,
        info: Some(DeviceInfo {
            fs: Some("ext4".to_string()),
            bus: bus.map(|b| b.to_string()),
            label: label.map(|l| l.to_string()),
        }),
        utility_label: None,
    }
}

fn record(source: &str, target: &str) -> MountRecord {
    MountRecord { source: source.to_string(), target: target.to_string() }
}

fn discover(table: &str, probes: &Vec<Probe>) -> Vec<Device> {
    let entries = parse_mount_table(table);
    let records = enumerate_mounts(&entries);
    get_all_devices(&records, probes)
}

#[test]
fn table_line_is_read_into_device_and_mount_point() {
    let entries = parse_mount_table("/dev/sdb1 /run/media/user/USBDRIVE ext4 rw 0 0\n");
    assert_eq!(entries.len(), 1);
    assert_eq!(entries[0].fs_spec, "/dev/sdb1");
    assert_eq!(entries[0].fs_file, "/run/media/user/USBDRIVE");
}

#[test]
fn table_keeps_the_order_of_its_lines() {
    let table = "proc /proc proc rw,nosuid 0 0\n/dev/sda2 / ext4 rw,relatime 0 0\n/dev/sdb1 /media/stick vfat rw 0 0\n";
    let entries = parse_mount_table(table);
    assert_eq!(entries.len(), 3);
    assert_eq!(entries[0].fs_file, "/proc");
    assert_eq!(entries[1].fs_spec, "/dev/sda2");
    assert_eq!(entries[2].fs_file, "/media/stick");
}

#[test]
fn malformed_line_is_passed_over() {
    let table = "garbage\n/dev/sdb1 /media/stick vfat rw 0 0\nonly two\n/dev/sdc1 /media/other vfat rw 0 0";
    let entries = parse_mount_table(table);
    assert_eq!(entries.len(), 2);
    assert_eq!(entries[0].fs_spec, "/dev/sdb1");
    assert_eq!(entries[1].fs_spec, "/dev/sdc1");
}

#[test]
fn empty_text_holds_no_entry() {
    assert_eq!(parse_mount_table("").len(), 0);
    assert_eq!(parse_mount_table("\n\n").len(), 0);
}

#[test]
fn keep_found_appends_or_leaves() {
    let mut entries = vec![TableEntry { fs_spec: "a".to_string(), fs_file: "/a".to_string() }];
    keep_found(&mut entries, None);
    assert_eq!(entries.len(), 1);
    keep_found(
        &mut entries,
        Some(vec![TableEntry { fs_spec: "b".to_string(), fs_file: "/b".to_string() }]),
    );
    assert_eq!(entries.len(), 2);
    assert_eq!(entries[1].fs_file, "/b");
}

#[test]
fn escaped_spaces_are_decoded() {
    assert_eq!(decode_mount_point("/\\04040\\040gb\\040drive"), "/ 40 gb drive");
    assert_eq!(decode_mount_point("/plain"), "/plain");
    assert_eq!(decode_mount_point("\\040"), " ");
    assert_eq!(decode_mount_point("/a\\011b"), "/a\\011b");
    assert_eq!(decode_mount_point(""), "");
}

#[test]
fn host_mirror_is_recognised() {
    assert!(host_mirror("/run/host/media/x"));
    assert!(host_mirror("/run/host/"));
    assert!(!host_mirror("/run/host"));
    assert!(!host_mirror("/run/media/x"));
    assert!(!host_mirror("/mnt/run/host/x"));
}

#[test]
fn listed_mount_points() {
    assert!(listed("/media/x"));
    assert!(listed("/"));
    assert!(!listed(""));
    assert!(!listed("/run/host/usr"));
}

#[test]
fn record_from_entry_decodes_and_filters() {
    let kept = MountRecord::from_entry(&TableEntry {
        fs_spec: "/dev/sda1".to_string(),
        fs_file: "/mnt/my\\040disk".to_string(),
    })
    .unwrap();
    assert_eq!(kept.source, "/dev/sda1");
    assert_eq!(kept.target, "/mnt/my disk");
    assert!(MountRecord::from_entry(&TableEntry {
        fs_spec: "/dev/sda1".to_string(),
        fs_file: "/run/host/mnt".to_string(),
    })
    .is_none());
    assert!(MountRecord::from_entry(&TableEntry {
        fs_spec: "/dev/sda1".to_string(),
        fs_file: "".to_string(),
    })
    .is_none());
}

#[test]
fn enumeration_drops_host_mirrors_and_keeps_order() {
    let entries = vec![
        TableEntry { fs_spec: "/dev/sda1".to_string(), fs_file: "/".to_string() },
        TableEntry { fs_spec: "/dev/sdb1".to_string(), fs_file: "/run/host/media/x".to_string() },
        TableEntry { fs_spec: "/dev/sdb1".to_string(), fs_file: "/media/x".to_string() },
    ];
    let records = enumerate_mounts(&entries);
    assert_eq!(records.len(), 2);
    assert_eq!(records[0].target, "/");
    assert_eq!(records[1].target, "/media/x");
    assert_eq!(records[1].source, "/dev/sdb1");
}

#[test]
fn media_paths() {
    assert!(media_path("/run/media/user/USBDRIVE"));
    assert!(media_path("/media/x"));
    assert!(!media_path("/media"));
    assert!(!media_path("/mnt/media/x"));
    assert!(!media_path("/run/host/media/x"));
}

#[test]
fn flag_path_strips_prefix_and_partition_digits() {
    assert_eq!(removable_flag_path("/dev/sdb1"), "/sys/block/sdb/removable");
    assert_eq!(removable_flag_path("/dev/sdc"), "/sys/block/sdc/removable");
    assert_eq!(removable_flag_path("/dev/sda12"), "/sys/block/sda/removable");
    assert_eq!(removable_flag_path("tmpfs"), "/sys/block/tmpfs/removable");
    assert_eq!(removable_flag_path("/dev/mmcblk0p1"), "/sys/block/mmcblk0p/removable");
}

#[test]
fn device_name_strips_the_leading_directory_only() {
    assert_eq!(device_name("/dev/sdb1"), "sdb1");
    assert_eq!(device_name("sdb1"), "sdb1");
    assert_eq!(device_name("/dev/mapper/root"), "mapper/root");
    assert_eq!(device_name("/mnt/dev/sdb1"), "/mnt/dev/sdb1");
    assert_eq!(device_name("/dev/"), "");
}

#[test]
fn same_text_compares_characters() {
    assert!(same_text("usb", "usb"));
    assert!(!same_text("usb", "usb2"));
    assert!(!same_text("usb", "ata"));
    assert!(same_text("", ""));
}

#[test]
fn media_path_is_removable_whatever_the_flag() {
    let r = record("/dev/sdb1", "/run/media/user/USBDRIVE");
    assert!(is_removable(&r, &blank()));
    assert!(is_removable(&r, &flagged("0\n")));
    assert!(is_removable(&r, &flagged("1\n")));
    assert!(classify(&r, &flagged("0")).is_some());
    assert!(classify(&record("/dev/sdb1", "/media/x"), &blank()).is_some());
}

#[test]
fn elsewhere_the_flag_decides() {
    let r = record("/dev/sdb1", "/mnt/stick");
    assert!(classify(&r, &flagged("1")).is_some());
    assert!(classify(&r, &flagged("1\n")).is_some());
    assert!(classify(&r, &flagged("  1 \n")).is_some());
    assert!(classify(&r, &flagged("0\n")).is_none());
    assert!(classify(&r, &flagged("11")).is_none());
    assert!(classify(&r, &flagged("1 1")).is_none());
    assert!(classify(&r, &flagged("")).is_none());
    assert!(classify(&r, &flagged("yes")).is_none());
    assert!(classify(&r, &blank()).is_none());
}

#[test]
fn kind_follows_the_bus() {
    assert_eq!(device_kind(&blank()), DeviceType::USB);
    assert_eq!(device_kind(&known(Some("usb"), None)), DeviceType::USB);
    assert_eq!(device_kind(&known(Some("ata"), None)), DeviceType::Disk);
    assert_eq!(device_kind(&known(None, None)), DeviceType::Disk);
}

#[test]
fn label_sources_in_priority_order() {
    let mut probe = known(Some("usb"), Some("FROM_MANAGER"));
    probe.utility_label = Some("FROM_UTILITY".to_string());
    assert_eq!(device_label("/media/stick", &probe), "FROM_MANAGER");
    let mut probe = known(Some("usb"), None);
    probe.utility_label = Some("FROM_UTILITY".to_string());
    assert_eq!(device_label("/media/stick", &probe), "FROM_UTILITY");
    let mut probe = known(Some("usb"), Some(""));
    probe.utility_label = Some("".to_string());
    assert_eq!(device_label("/media/stick", &probe), "stick");
    assert_eq!(device_label("/media/stick", &blank()), "stick");
}

#[test]
fn label_from_mount_point() {
    assert_eq!(mount_point_label("/run/media/user/USBDRIVE"), "USBDRIVE");
    assert_eq!(mount_point_label("/media/stick/"), "stick");
    assert_eq!(mount_point_label("/media/stick//"), "stick");
    assert_eq!(mount_point_label("/ 40 gb drive"), " 40 gb drive");
    assert_eq!(mount_point_label("plain"), "plain");
    assert_eq!(mount_point_label("/"), "/");
    assert_eq!(mount_point_label(""), "");
}

#[test]
fn label_is_never_empty_for_a_mount_point_with_a_segment() {
    for target in ["/media/a", "/media/a/", "/x", "x", "/run/media/u/ "] {
        let d = classify(&record("/dev/sdb1", target), &flagged("1")).unwrap();
        assert!(!d.label().is_empty());
    }
}

#[test]
fn descriptor_carries_kind_label_and_mount_point() {
    let d = classify(&record("/dev/sdb1", "/mnt/stick"), &{
        let mut p = known(Some("ata"), Some("DATA"));
        p.removable_flag = Some("1\n".to_string());
        p
    })
    .unwrap();
    assert_eq!(d.device_type(), DeviceType::Disk);
    assert_eq!(d.label(), "DATA");
    assert_eq!(d.mountpoint(), "/mnt/stick");
    assert!(d.mounted());
}

#[test]
fn device_getters_return_what_was_given() {
    let d = Device::new(DeviceType::Network, "share".to_string(), "/mnt/share".to_string());
    assert_eq!(d.device_type(), DeviceType::Network);
    assert_eq!(d.label(), "share");
    assert_eq!(d.mountpoint(), "/mnt/share");
    assert!(d.mounted());
}

#[test]
fn scenario_usb_drive_on_media_path() {
    let table = "/dev/sdb1 /run/media/user/USBDRIVE ext4 rw 0 0\n";
    let devices = discover(table, &vec![]);
    assert_eq!(devices.len(), 1);
    assert_eq!(devices[0].mountpoint(), "/run/media/user/USBDRIVE");
    assert_eq!(devices[0].label(), "USBDRIVE");
    assert!(devices[0].mounted());
    let devices = discover(table, &vec![known(Some("usb"), Some("My Stick"))]);
    assert_eq!(devices.len(), 1);
    assert_eq!(devices[0].mountpoint(), "/run/media/user/USBDRIVE");
    assert_eq!(devices[0].label(), "My Stick");
    assert_eq!(devices[0].device_type(), DeviceType::USB);
}

#[test]
fn scenario_escaped_spaces_in_mount_point() {
    let table = "/dev/sda1 /\\04040\\040gb\\040drive ext4 rw,relatime 0 0\n";
    let entries = parse_mount_table(table);
    let records = enumerate_mounts(&entries);
    assert_eq!(records.len(), 1);
    assert_eq!(records[0].target, "/ 40 gb drive");
    let devices = get_all_devices(&records, &vec![flagged("1\n")]);
    assert_eq!(devices.len(), 1);
    assert_eq!(devices[0].mountpoint(), "/ 40 gb drive");
    assert_eq!(devices[0].label(), " 40 gb drive");
}

#[test]
fn scenario_host_mirror_is_suppressed() {
    let table = "/dev/sdb1 /run/host/media/x ext4 rw 0 0\n";
    assert_eq!(discover(table, &vec![flagged("1")]).len(), 0);
    let direct = get_all_devices(&vec![record("/dev/sdb1", "/run/host/media/x")], &vec![flagged("1")]);
    assert_eq!(direct.len(), 0);
}

#[test]
fn scenario_only_virtual_filesystems() {
    let table = "proc /proc proc rw,nosuid,nodev,noexec,relatime 0 0\nsysfs /sys sysfs rw,nosuid 0 0\ntmpfs /run tmpfs rw,nosuid,nodev 0 0\n";
    let entries = parse_mount_table(table);
    assert_eq!(entries.len(), 3);
    let records = enumerate_mounts(&entries);
    assert_eq!(records.len(), 3);
    let probes = vec![flagged("0\n"), blank(), blank()];
    assert_eq!(get_all_devices(&records, &probes).len(), 0);
    assert_eq!(discover("", &vec![]).len(), 0);
}

#[test]
fn each_record_is_judged_with_its_own_probe() {
    let records = vec![
        record("/dev/sda1", "/"),
        record("/dev/sdb1", "/mnt/stick"),
        record("/dev/sdc1", "/media/card"),
        record("/dev/sdd1", "/mnt/late"),
    ];
    let probes = vec![flagged("0\n"), flagged("1\n"), known(Some("ata"), Some("CARD"))];
    let devices = get_all_devices(&records, &probes);
    assert_eq!(devices.len(), 2);
    assert_eq!(devices[0].mountpoint(), "/mnt/stick");
    assert_eq!(devices[0].label(), "stick");
    assert_eq!(devices[0].device_type(), DeviceType::USB);
    assert_eq!(devices[1].mountpoint(), "/media/card");
    assert_eq!(devices[1].label(), "CARD");
    assert_eq!(devices[1].device_type(), DeviceType::Disk);
}

#[test]
fn enumeration_is_repeatable() {
    let table = "/dev/sdb1 /run/media/user/A ext4 rw 0 0\n/dev/sdc1 /mnt/b ext4 rw 0 0\n";
    let probes = vec![blank(), flagged("1")];
    let first = discover(table, &probes);
    let second = discover(table, &probes);
    assert_eq!(first.len(), 2);
    assert_eq!(first.len(), second.len());
    for i in 0..first.len() {
        assert_eq!(first[i].mountpoint(), second[i].mountpoint());
        assert_eq!(first[i].label(), second[i].label());
        assert_eq!(first[i].device_type(), second[i].device_type());
    }
}

#[test]
fn block_sources_begin_with_the_device_directory() {
    assert!(is_block_source("/dev/sdb1"));
    assert!(is_block_source("/dev/mapper/root"));
    assert!(is_block_source("/dev/"));
    assert!(!is_block_source("/dev"));
    assert!(!is_block_source("tmpfs"));
    assert!(!is_block_source("//server/share"));
    assert!(!is_block_source("server:/export"));
    assert!(!is_block_source("/mnt/dev/sdb1"));
    assert!(!is_block_source(""));
}

#[test]
fn non_block_source_is_never_classified() {
    let mut everything = known(Some("usb"), Some("SHARE"));
    everything.removable_flag = Some("1\n".to_string());
    everything.utility_label = Some("SHARE".to_string());
    for source in ["tmpfs", "Downloads", "//server/share", "server:/export", "/dev", ""] {
        for target in ["/media/x", "/run/media/user/x", "/mnt/x", "/"] {
            let r = record(source, target);
            assert!(!is_removable(&r, &blank()));
            assert!(!is_removable(&r, &flagged("1")));
            assert!(!is_removable(&r, &everything));
            assert!(classify(&r, &blank()).is_none());
            assert!(classify(&r, &flagged("1\n")).is_none());
            assert!(classify(&r, &everything).is_none());
        }
    }
}

#[test]
fn shared_folder_on_a_media_path_is_not_listed() {
    let table = "Downloads /media/sf_downloads vboxsf rw,nodev,relatime 0 0\ntmpfs /run/media/user/ram tmpfs rw 0 0\n/dev/sdb1 /media/stick vfat rw 0 0\n";
    let entries = parse_mount_table(table);
    let records = enumerate_mounts(&entries);
    assert_eq!(records.len(), 3);
    let devices = get_all_devices(&records, &vec![flagged("1"), flagged("1"), blank()]);
    assert_eq!(devices.len(), 1);
    assert_eq!(devices[0].mountpoint(), "/media/stick");
    assert_eq!(devices[0].label(), "stick");
}
