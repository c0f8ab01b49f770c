//! Devices and sizes.

use ferrus::device::{list_block_devices, to_device, BlockDevice, RawDevice};
use ferrus::sizes::{fmt_device_size, fmt_size};

fn disk(node: &str) -> RawDevice {
    RawDevice {
        devtype: Some("disk".into()),
        devnode: Some(node.into()),
        size: Some("1024000".into()),
        removable: Some("1".into()),
        ro: Some("0".into()),
        model_db: None,
        model: Some("Ultra_Fit".into()),
        vendor_db: None,
        vendor: Some("SanDisk".into()),
        serial: Some("4C53".into()),
        bus: Some("usb".into()),
    }
}

fn as_double(bytes: u64) -> String {
    let gb = bytes as f64 / 1_000_000_000.0;
    if gb >= 1.0 {
        format!("{gb:.1} GB")
    } else {
        format!("{} MB", (bytes as f64 / 1_000_000.0).round() as u64)
    }
}

fn device_as_double(bytes: u64) -> String {
    let gb = bytes as f64 / 1_000_000_000.0;
    if gb >= 100.0 {
        format!("{gb:.0} GB")
    } else {
        as_double(bytes)
    }
}

#[test]
fn sizes_in_words() {
    assert_eq!(fmt_size(57_300_000_000), "57.3 GB");
    assert_eq!(fmt_size(999_999_999), "1000 MB");
    assert_eq!(fmt_size(0), "0 MB");
    assert_eq!(fmt_size(499_999), "0 MB");
    assert_eq!(fmt_size(500_000), "1 MB");
    assert_eq!(fmt_size(250_000_000_000), "250.0 GB");
    assert_eq!(fmt_device_size(250_000_000_000), "250 GB");
    assert_eq!(fmt_device_size(57_300_000_000), "57.3 GB");
    // A tie that a double cannot hold.
    assert_eq!(fmt_size(1_250_000_000), "1.2 GB");
    assert_eq!(fmt_size(1_350_000_000), "1.4 GB");
    assert_eq!(fmt_device_size(100_500_000_000), "100 GB");
    assert_eq!(fmt_device_size(101_500_000_000), "102 GB");
}

#[test]
fn sizes_are_those_of_doubles() {
    let mut at: Vec<u64> = vec![0, 1, u64::MAX, u64::MAX - 1024, 1 << 53, (1 << 53) + 1];
    for k in 1..400u64 {
        for around in [k * 50_000_000, k * 500_000, k * 250_000_000, k * 500_000_000 + 99_000_000_000] {
            at.push(around);
            at.push(around + 1);
            at.push(around - 1);
        }
    }
    let mut x: u64 = 88172645463325252;
    for shift in 0..64u32 {
        for _ in 0..40 {
            x ^= x << 13;
            x ^= x >> 7;
            x ^= x << 17;
            at.push(x >> shift);
        }
    }
    for n in at {
        assert_eq!(fmt_size(n), as_double(n), "{n}");
        assert_eq!(fmt_device_size(n), device_as_double(n), "{n}");
    }
}

#[test]
fn record_becomes_device() {
    let d = to_device(&disk("/dev/sdb")).unwrap();
    assert_eq!(
        d,
        BlockDevice {
            name: "sdb".into(),
            devnode: "/dev/sdb".into(),
            model: Some("Ultra_Fit".into()),
            vendor: Some("SanDisk".into()),
            serial: Some("4C53".into()),
            size_bytes: 1024000 * 512,
            removable: true,
            read_only: false,
            bus: Some("usb".into()),
        }
    );
    assert!(d.is_usb());
    assert_eq!(d.size_string(), "524 MB");
    assert_eq!(d.display_name(), "Ultra Fit (524 MB) [/dev/sdb]");
}

#[test]
fn names_fall_back() {
    let mut d = to_device(&disk("/dev/sdb")).unwrap();
    d.model = Some(String::new());
    assert_eq!(d.display_name(), "SanDisk (524 MB) [/dev/sdb]");
    d.vendor = None;
    assert_eq!(d.display_name(), "Generic USB Device (524 MB) [/dev/sdb]");
    d.model = None;
    assert_eq!(d.display_name(), "Generic USB Device (524 MB) [/dev/sdb]");
    d.bus = Some("ata".into());
    assert!(!d.is_usb());
}

#[test]
fn database_names_come_first() {
    let mut r = disk("/dev/sdb");
    r.model_db = Some("Ultra Fit".into());
    r.vendor_db = Some("SanDisk Corp.".into());
    let d = to_device(&r).unwrap();
    assert_eq!(d.model.as_deref(), Some("Ultra Fit"));
    assert_eq!(d.vendor.as_deref(), Some("SanDisk Corp."));
}

#[test]
fn only_disks_are_listed_by_name() {
    let mut part = disk("/dev/sda1");
    part.devtype = Some("partition".into());
    let records = vec![
        disk("/dev/sdc"),
        part,
        disk("/dev/loop3"),
        disk("/dev/ram0"),
        disk("/dev/zram0"),
        disk("/dev/sda"),
        disk("/dev/nvme0n1"),
    ];
    let names: Vec<String> = list_block_devices(&records).into_iter().map(|d| d.name).collect();
    assert_eq!(names, ["nvme0n1", "sda", "sdc"]);
}
