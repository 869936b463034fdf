use lfs_core::{
    get_label, labelling_of_link, needs_stats, new_disk, parse_sys_bool, Disk, Labelling, Mount,
    MountInfo, RawStats, ReadOptions, Stats, StatsError, Strategy, ParseStrategyError,
};

fn labelling(label: &str, fs_name: &str) -> Labelling {
    Labelling {
        label: label.to_string(),
        fs_name: fs_name.to_string(),
    }
}

#[test]
fn remote_mount_is_excluded_without_remote_stats() {
    let options = ReadOptions::default().remote_stats(false);
    let info = MountInfo::from_str("1 0 0:50 / /mnt rw - nfs4 server:/export rw").unwrap();
    assert!(!needs_stats(&options, &info));
    let mount = Mount::assemble(info, None, None, None, None, &options, None);
    assert_eq!(mount.stats, Err(StatsError::Excluded));
    assert!(mount.stats().is_none());
    assert!(mount.is_remote());
    assert!(!mount.is_unreachable());
}

#[test]
fn stats_are_read_otherwise() {
    let options = ReadOptions::default();
    assert!(options.remote_stats);
    assert!(options.strategy.is_none());
    let remote = MountInfo::from_str("1 0 0:50 / /mnt rw - nfs4 server:/export rw").unwrap();
    assert!(needs_stats(&options, &remote));
    let local = MountInfo::from_str("1 0 8:1 / / rw - ext4 /dev/sda1 rw").unwrap();
    let no_remote = ReadOptions::default().remote_stats(false);
    assert!(needs_stats(&no_remote, &local));
    let raw = RawStats { bsize: 4096, blocks: 100, bfree: 50, bavail: 40, files: 10, ffree: 5, favail: 4 };
    let labels = vec![labelling("other", "/dev/sdb1"), labelling("root", "/dev/sda1"), labelling("dup", "/dev/sda1")];
    let uuids = vec![labelling("1234-ABCD", "/dev/sda1")];
    let mount = Mount::assemble(
        local,
        None,
        Some(&labels),
        Some(&uuids),
        None,
        &no_remote,
        Some(Stats::from_counters(&raw)),
    );
    assert_eq!(mount.fs_label.as_deref(), Some("root"));
    assert_eq!(mount.uuid.as_deref(), Some("1234-ABCD"));
    assert_eq!(mount.part_uuid, None);
    assert_eq!(mount.stats().unwrap().bused, 60);
    assert_eq!(mount.inodes().unwrap().used(), 6);
    let unreachable = Mount::assemble(
        MountInfo::from_str("1 0 8:2 / /x rw - ext4 /dev/sda2 rw").unwrap(),
        None,
        None,
        None,
        None,
        &options,
        Some(Err(StatsError::Unreachable)),
    );
    assert!(unreachable.is_unreachable());
    assert!(unreachable.inodes().is_none());
}

#[test]
fn labels_from_links() {
    let l = labelling_of_link("My\\x20Disk", "../../sda1").unwrap();
    assert_eq!(l.label, "My Disk");
    assert_eq!(l.fs_name, "/dev/sda1");
    assert!(labelling_of_link("x", "/dev/sda1").is_none());
    let ls = vec![l];
    assert_eq!(get_label("/dev/sda1", Some(&ls)), Some("My Disk".to_string()));
    assert_eq!(get_label("/dev/sda2", Some(&ls)), None);
    assert_eq!(get_label("/dev/sda1", None), None);
}

fn disk(ram: bool, image: bool, crypted: bool, lvm: bool, removable: Option<bool>, rotational: Option<bool>) -> Disk {
    Disk {
        name: "sda".to_string(),
        rotational,
        removable,
        read_only: None,
        ram,
        image,
        lvm,
        crypted,
    }
}

#[test]
fn disk_types_by_precedence() {
    assert_eq!(disk(true, true, true, true, Some(true), None).disk_type(), "RAM");
    assert_eq!(disk(false, true, true, true, Some(true), None).disk_type(), "imag");
    assert_eq!(disk(false, false, true, true, Some(true), None).disk_type(), "crypt");
    assert_eq!(disk(false, false, false, true, Some(true), None).disk_type(), "LVM");
    assert_eq!(disk(false, false, false, false, Some(true), Some(false)).disk_type(), "remov");
    assert_eq!(disk(false, false, false, false, Some(false), Some(true)).disk_type(), "HDD");
    assert_eq!(disk(false, false, false, false, Some(false), Some(false)).disk_type(), "SSD");
    assert_eq!(disk(false, false, false, false, None, Some(false)).disk_type(), "");
    assert_eq!(disk(false, false, false, false, Some(false), None).disk_type(), "");
}

#[test]
fn disks_from_attributes() {
    assert_eq!(parse_sys_bool("1\n"), Some(true));
    assert_eq!(parse_sys_bool(" 0 "), Some(false));
    assert_eq!(parse_sys_bool("2"), None);
    let d = new_disk("zram0".to_string(), Some("0\n"), Some("0\n"), None);
    assert!(d.ram);
    assert_eq!(d.disk_type(), "RAM");
    let d = new_disk("dm-1".to_string(), None, Some("0"), Some("CRYPT-LUKS2-abc"));
    assert!(d.crypted && !d.lvm && !d.ram);
    let d = new_disk("dm-2".to_string(), Some("1"), Some("0"), Some("LVM-xyz\n"));
    assert_eq!(d.disk_type(), "LVM");
    let d = new_disk("sda".to_string(), Some("1\n"), Some("0\n"), None);
    assert_eq!(d.rotational, Some(true));
    assert_eq!(d.disk_type(), "HDD");
    let d = new_disk("zramx".to_string(), None, None, None);
    assert!(!d.ram);
}

#[test]
fn strategies_by_name() {
    assert_eq!(Strategy::from_str("iokit"), Ok(Strategy::Iokit));
    assert_eq!(Strategy::from_str("diskutil"), Ok(Strategy::Diskutil));
    assert_eq!(Strategy::from_str("other"), Err(ParseStrategyError));
    let o = ReadOptions::default().strategy(Strategy::Diskutil);
    assert_eq!(o.strategy, Some(Strategy::Diskutil));
    assert!(o.remote_stats);
}
