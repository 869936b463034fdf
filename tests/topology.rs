use lfs_core::{BlockDevice, BlockDeviceList, DeviceId};

fn device(name: &str, id: DeviceId, parent: Option<DeviceId>, dm_name: Option<&str>) -> BlockDevice {
    BlockDevice {
        name: name.to_string(),
        dm_name: dm_name.map(|s| s.to_string()),
        id,
        parent,
    }
}

#[test]
fn self_parent_is_its_own_top() {
    let a = DeviceId::new(8, 0);
    let mut list = BlockDeviceList::new();
    assert!(list.insert(device("sda", a, Some(a), None)));
    let top = list.find_top(a, None, None).unwrap();
    assert_eq!(top.name, "sda");
}

#[test]
fn chain_resolves_to_top() {
    let x = DeviceId::new(8, 0);
    let y = DeviceId::new(8, 1);
    let z = DeviceId::new(254, 0);
    let mut list = BlockDeviceList::new();
    assert!(list.insert(device("sda", x, None, None)));
    assert!(list.insert(device("sda1", y, Some(x), None)));
    assert!(list.insert(device("dm-0", z, Some(y), Some("vg-root"))));
    assert_eq!(list.find_top(z, None, None).unwrap().name, "sda");
    let unknown = DeviceId::new(0, 99);
    assert_eq!(list.find_top(unknown, Some("vg-root"), None).unwrap().name, "sda");
    assert_eq!(list.find_top(unknown, None, Some("dm-0")).unwrap().name, "sda");
    assert_eq!(list.find_top(unknown, Some("other"), Some("dm-0")).unwrap().name, "sda");
    assert!(list.find_top(unknown, Some("other"), Some("nothing")).is_none());
    assert_eq!(list.find_by_dm_name("vg-root").unwrap().id, z);
    assert_eq!(list.find_by_name("sda1").unwrap().id, y);
    assert_eq!(list.find_by_id(x).unwrap().name, "sda");
}

#[test]
fn cycles_and_missing_parents_end_the_search() {
    let a = DeviceId::new(1, 0);
    let b = DeviceId::new(1, 1);
    let c = DeviceId::new(1, 2);
    let mut list = BlockDeviceList::new();
    assert!(list.insert(device("a", a, Some(b), None)));
    assert!(list.insert(device("b", b, Some(a), None)));
    assert!(list.insert(device("c", c, Some(DeviceId::new(9, 9)), None)));
    assert!(list.find_top(a, None, None).is_none());
    assert!(list.find_top(c, None, None).is_none());
    assert!(!list.insert(device("again", a, None, None)));
}

#[test]
fn walk_records_children() {
    let mut list = BlockDeviceList::new();
    let sda = list.record_child(None, "sda".to_string(), Some("8:0\n"), None, 0);
    assert_eq!(sda, Some(DeviceId::new(8, 0)));
    let part = list.record_child(sda, "sda1".to_string(), Some("8:1\n"), None, 1);
    assert_eq!(part, Some(DeviceId::new(8, 1)));
    // no device id: skipped
    assert_eq!(list.record_child(sda, "power".to_string(), None, None, 1), None);
    assert_eq!(list.record_child(sda, "queue".to_string(), Some("x"), None, 1), None);
    // already present: skipped
    assert_eq!(list.record_child(part, "loop".to_string(), Some("8:0"), None, 2), None);
    // deeper than the bound: recorded, not walked
    assert_eq!(list.record_child(None, "dm-0".to_string(), Some(" 254:0 "), Some("vg-root\n"), 16), None);
    let dm = list.find_by_id(DeviceId::new(254, 0)).unwrap();
    assert_eq!(dm.dm_name.as_deref(), Some("vg-root"));
    assert_eq!(list.find_top(DeviceId::new(8, 1), None, None).unwrap().name, "sda");
    assert!(list.find_by_name("loop").is_none());
}
