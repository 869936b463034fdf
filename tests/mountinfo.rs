use lfs_core::{parse_mountinfos, DeviceId, MountInfo, MountOption};

#[allow(clippy::bool_assert_comparison)]
#[test]
fn read_mountinfos_test_from_str() {
    let mi = MountInfo::from_str(
        "47 21 0:41 / /dev/hugepages rw,relatime shared:27 - hugetlbfs hugetlbfs rw,pagesize=2M",
    )
    .unwrap();
    assert_eq!(mi.id, Some(47));
    assert_eq!(mi.dev, DeviceId::new(0, 41));
    assert_eq!(mi.root, "/");
    assert_eq!(mi.mount_point, "/dev/hugepages");
    assert_eq!(mi.options_string(), "rw,relatime,pagesize=2M".to_string());

    let mi = MountInfo::from_str(
        "106 26 8:17 / /home/dys/dev rw,noatime,compress=zstd:3 shared:57 - btrfs /dev/sdb1 rw,attr2,inode64,noquota"
    ).unwrap();
    assert_eq!(mi.id, Some(106));
    assert_eq!(mi.dev, DeviceId::new(8, 17));
    assert_eq!(&mi.fs, "/dev/sdb1");
    assert_eq!(&mi.fs_type, "btrfs");
    let mut options = mi.options.clone().into_iter();
    assert_eq!(options.next(), Some(MountOption::new("rw", None)),);
    assert_eq!(options.next(), Some(MountOption::new("noatime", None)));
    assert_eq!(
        options.next(),
        Some(MountOption::new("compress", Some("zstd:3")))
    );
    assert_eq!(mi.has_option("noatime"), true);
    assert_eq!(mi.has_option("relatime"), false);
    assert_eq!(mi.option_value("thing"), None);
    assert_eq!(mi.option_value("compress"), Some("zstd:3"));
    assert_eq!(
        mi.options_string(),
        "rw,noatime,compress=zstd:3,attr2,inode64,noquota".to_string()
    );

    let mi = MountInfo::from_str(
        "73 2 0:33 /root / rw,relatime shared:1 - btrfs /dev/vda3 rw,seclabel,compress=zstd:1,ssd,space_cache=v2,subvolid=256,subvol=/root"
    ).unwrap();
    assert_eq!(mi.option_value("compress"), Some("zstd:1"));
    assert_eq!(
        mi.options_string(),
        "rw,relatime,seclabel,compress=zstd:1,ssd,space_cache=v2,subvolid=256,subvol=/root"
            .to_string()
    );
}

#[test]
fn hugepages_line_fields() {
    let mi = MountInfo::from_str(
        "47 21 0:41 / /dev/hugepages rw,relatime shared:27 - hugetlbfs hugetlbfs rw,pagesize=2M",
    )
    .unwrap();
    assert_eq!(mi.parent, Some(21));
    assert_eq!(mi.fs_type, "hugetlbfs");
    assert_eq!(mi.fs, "hugetlbfs");
    assert!(!mi.bound);
    assert_eq!(mi.options.len(), 3);
}

#[test]
fn escaped_mount_point_is_decoded() {
    let mi = MountInfo::from_str(
        "90 30 8:33 / /media/dys/USB\\040DISK rw,nosuid - vfat /dev/sdc1 rw,fmask=0022",
    )
    .unwrap();
    assert_eq!(mi.mount_point, "/media/dys/USB DISK");
    assert_eq!(lfs_core::decode_string("/media/dys/USB\\040DISK"), "/media/dys/USB DISK");
    assert_eq!(lfs_core::decode_string("a\\134b\\011c"), "a\\b\tc");
    assert_eq!(lfs_core::decode_string("My\\x20Label"), "My Label");
    assert_eq!(lfs_core::decode_string("no\\x2escape\\9"), "no.scape\\9");
}

#[test]
fn optional_fields_are_skipped() {
    let none = MountInfo::from_str("1 0 8:1 / / rw - ext4 /dev/sda1 rw").unwrap();
    assert_eq!(none.fs_type, "ext4");
    let many = MountInfo::from_str(
        "1 0 8:1 / / rw shared:1 master:2 propagate_from:3 unbindable - ext4 /dev/sda1",
    )
    .unwrap();
    assert_eq!(many.fs, "/dev/sda1");
    assert_eq!(many.options_string(), "rw");
}

#[test]
fn super_options_merge() {
    let mi = MountInfo::from_str("1 0 8:1 / / ro,noatime - ext4 /dev/sda1 rw,noatime=2,errors=remount-ro,ro")
        .unwrap();
    // rw is dropped at the super level, names already present are not repeated
    assert_eq!(mi.options_string(), "ro,noatime,errors=remount-ro");
    let dup = MountInfo::from_str("1 0 8:1 / / a=1,a=2,,=x,b=c=d - ext4 /dev/sda1").unwrap();
    assert_eq!(dup.options_string(), "a=1,b=c");
    assert_eq!(dup.option_value("b"), Some("c"));
}

#[test]
fn malformed_lines_fail() {
    let bad = [
        "",
        "47 21 0:41 / /dev/hugepages rw,relatime shared:27 hugetlbfs hugetlbfs",
        "47 21 0:41 / /dev/hugepages rw - hugetlbfs",
        "x 21 0:41 / /dev/hugepages rw - hugetlbfs hugetlbfs",
        "47 21 0:4a / /dev/hugepages rw - hugetlbfs hugetlbfs",
        "47 -21 0:41 / /dev/hugepages rw - hugetlbfs hugetlbfs",
    ];
    for line in bad {
        let err = MountInfo::from_str(line).unwrap_err();
        assert_eq!(err.line, line);
    }
}

#[test]
fn mapper_and_leaf_names() {
    let mi = MountInfo::from_str("1 0 254:0 / / rw - ext4 /dev/mapper/vg-root rw").unwrap();
    assert_eq!(mi.dm_name(), Some("vg-root"));
    assert_eq!(mi.fs_name(), Some("vg-root"));
    let mi = MountInfo::from_str("1 0 8:1 / / rw - ext4 /dev/sda1 rw").unwrap();
    assert_eq!(mi.dm_name(), None);
    assert_eq!(mi.fs_name(), Some("sda1"));
    let mi = MountInfo::from_str("1 0 8:1 / / rw - ext4 /dev/mapper/a/b rw").unwrap();
    assert_eq!(mi.dm_name(), None);
    let mi = MountInfo::from_str("1 0 8:1 / / rw - ext4 /dev/ rw").unwrap();
    assert_eq!(mi.fs_name(), None);
}

#[test]
fn remote_heuristic() {
    let nfs = MountInfo::from_str("1 0 0:50 / /mnt rw - nfs4 server:/export rw").unwrap();
    assert!(nfs.is_remote());
    let other = MountInfo::from_str("1 0 0:50 / /mnt rw - ext4 server:/export rw").unwrap();
    assert!(other.is_remote());
    let cifs = MountInfo::from_str("1 0 0:51 / /mnt rw - cifs //server/share rw").unwrap();
    assert!(cifs.is_remote());
    let local = MountInfo::from_str("1 0 8:1 / / rw - ext4 /dev/sda1 rw").unwrap();
    assert!(!local.is_remote());
    let share_local_type = MountInfo::from_str("1 0 8:1 / / rw - ext4 //server/share rw").unwrap();
    assert!(!share_local_type.is_remote());
    let afs = MountInfo::from_str("1 0 0:52 / /afs rw - afs AFS rw").unwrap();
    assert!(afs.is_remote());
    let hosts = MountInfo::from_str("1 0 0:53 / /net rw - autofs -hosts rw").unwrap();
    assert!(hosts.is_remote());
}

#[test]
fn table_marks_bound_entries() {
    let table = "\n22 1 8:1 / / rw - ext4 /dev/sda1 rw\n23 22 0:5 / /proc rw - proc proc rw\n24 22 8:1 /home /srv rw - ext4 /dev/sda1 rw\n\n";
    let mounts = parse_mountinfos(table).unwrap();
    assert_eq!(mounts.len(), 3);
    assert!(!mounts[0].bound);
    assert!(!mounts[1].bound);
    assert!(mounts[2].bound);
    assert_eq!(mounts[2].root, "/home");
    let err = parse_mountinfos("22 1 8:1 / / rw - ext4 /dev/sda1 rw\nbroken line").unwrap_err();
    assert_eq!(err.line, "broken line");
    assert!(parse_mountinfos("   ").is_err());
}
