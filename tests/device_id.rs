use lfs_core::{DeviceId, ParseDeviceIdError};

#[test]
fn device_id_test_from_str() {
    assert_eq!(DeviceId::new(8, 16), DeviceId::from_str("8:16").unwrap());
}

#[test]
fn device_id_test_from_u64() {
    assert_eq!(DeviceId::new(8, 16), DeviceId::from(2064u64));
}

#[test]
fn unix_test_from_str() {
    assert_eq!(DeviceId::new(8, 16), DeviceId::from_str("8:16").unwrap());
}

#[test]
fn device_id_single_number() {
    assert_eq!(DeviceId::new(8, 16), DeviceId::from_str("2064").unwrap());
    // bits above the first 20 carry the high parts of both numbers
    let n: u64 = (0x123u64 << 44) | (0x456u64 << 20) | (0xabcu64 << 8) | 0xde;
    assert_eq!(DeviceId::new(0x123abc, 0x456de), DeviceId::from(n));
}

#[test]
fn device_id_rejects_bad_text() {
    let bad = ["", "8:", ":16", "8:16:1", "a:1", "-1:2", "8:4294967296", "+"];
    for s in bad {
        let err: ParseDeviceIdError = DeviceId::from_str(s).unwrap_err();
        assert_eq!(err.string, s);
    }
    assert_eq!(DeviceId::new(8, 16), DeviceId::from_str("+8:016").unwrap());
    assert_eq!(
        DeviceId::new(u32::MAX, 0),
        DeviceId::from_str("4294967295:0").unwrap()
    );
}

#[test]
fn device_id_round_trip() {
    for s in ["8:16", "0:41", "259:3", "4294967295:4294967295", "+7:007"] {
        let id = DeviceId::from_str(s).unwrap();
        let text = id.to_string();
        assert_eq!(DeviceId::from_str(&text).unwrap(), id);
    }
    assert_eq!(DeviceId::new(0, 41).to_string(), "0:41");
    assert_eq!(DeviceId::from_str("+7:007").unwrap().to_string(), "7:7");
}

#[test]
fn parse_through_from_str_trait() {
    let id: DeviceId = "259:1".parse().unwrap();
    assert_eq!(id, DeviceId::new(259, 1));
    assert!("1:2:3".parse::<DeviceId>().is_err());
    let s: lfs_core::Strategy = "iokit".parse().unwrap();
    assert_eq!(s, lfs_core::Strategy::Iokit);
    let mi: lfs_core::MountInfo = "1 0 8:1 / / rw - ext4 /dev/sda1 rw".parse().unwrap();
    assert_eq!(mi.dev, DeviceId::new(8, 1));
}

#[test]
fn error_messages() {
    assert_eq!(lfs_core::Error::UnexpectedFormat.message(), "Unexpected format");
    let e = lfs_core::Error::CantReadDir { path: "/sys/block".to_string() };
    assert_eq!(e.message(), "Could not read dir /sys/block");
}
