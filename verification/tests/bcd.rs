//! Boot stores.

use ferrus::bcd::{
    boot_device, filetime_at, generate_uefi_bcd, generate_uefi_bcd_at, generate_uefi_bcd_vhdx,
    generate_uefi_bcd_vhdx_at, gpt_partition_device, validate_guid_str, vhd_device, BcdError,
    PartitionRef, BOOTMGR_GUID,
};
use ferrus::hive_key::{Key, Val};
use ferrus::hive_store::write_store;

// ---- minimal regf reader (test-side oracle) ------------------------

/// All accessors derive from `data` alone, so lifetimes stay tied to the
/// store buffer rather than to any borrowed reader.
#[derive(Clone, Copy)]
struct TestKey<'a> {
    data: &'a [u8],
    rec: &'a [u8],
}

impl<'a> TestKey<'a> {
    fn hive_root(data: &'a [u8], root_cell: u32) -> TestKey<'a> {
        let probe = TestKey {
            data,
            rec: &data[0..0],
        };
        probe.key(root_cell)
    }
    fn rec_u32(&self, rec_off: usize) -> u32 {
        u32::from_le_bytes(self.rec[rec_off..rec_off + 4].try_into().unwrap())
    }
    fn cell(&self, idx: u32) -> &'a [u8] {
        let base = 4096 + idx as usize;
        let size = i32::from_le_bytes(
            self.data[base..base + 4]
                .try_into()
                .unwrap_or_else(|_| panic!("cell {idx:#x} size oob")),
        )
        .unsigned_abs() as usize;
        self.data
            .get(base + 4..base + size)
            .unwrap_or_else(|| panic!("cell {idx:#x} span {size} oob"))
    }
    fn key(&self, idx: u32) -> TestKey<'a> {
        let k = TestKey {
            data: self.data,
            rec: self.cell(idx),
        };
        assert_eq!(&k.rec[0..2], b"nk", "not an nk at {idx}");
        k
    }
    fn name(&self) -> &'a str {
        let len = u16::from_le_bytes(self.rec[72..74].try_into().unwrap()) as usize;
        std::str::from_utf8(&self.rec[76..76 + len]).unwrap()
    }
    fn child(&self, name: &str) -> Option<TestKey<'a>> {
        if self.rec[28..32] == [0xFF; 4] {
            return None;
        }
        let list = self.cell(self.rec_u32(28));
        assert_eq!(&list[0..2], b"lf");
        let count = u16::from_le_bytes(list[2..4].try_into().unwrap());
        for i in 0..count as usize {
            let cell = u32::from_le_bytes(list[4 + i * 8..8 + i * 8].try_into().unwrap());
            let k = self.key(cell);
            if k.name().eq_ignore_ascii_case(name) {
                return Some(k);
            }
        }
        None
    }
    /// Walk down a path of key names.
    fn path(&self, names: &[&str]) -> TestKey<'a> {
        let mut cur = self.child(names[0]).expect("missing key");
        for n in &names[1..] {
            cur = cur.child(n).expect("missing key");
        }
        cur
    }
    /// Value payload by name; returns (type, bytes).
    fn value(&self, name: &str) -> (u32, Vec<u8>) {
        let nval = u32::from_le_bytes(self.rec[36..40].try_into().unwrap());
        assert!(nval > 0, "no values");
        let vlist = self.cell(self.rec_u32(40));
        for i in 0..nval as usize {
            let vk = u32::from_le_bytes(vlist[i * 4..i * 4 + 4].try_into().unwrap());
            let rec = self.cell(vk);
            assert_eq!(&rec[0..2], b"vk");
            let nlen = u16::from_le_bytes(rec[2..4].try_into().unwrap()) as usize;
            if rec[20..20 + nlen].eq_ignore_ascii_case(name.as_bytes()) {
                let drawsize = u32::from_le_bytes(rec[4..8].try_into().unwrap());
                let doff = u32::from_le_bytes(rec[8..12].try_into().unwrap());
                let rtype = u32::from_le_bytes(rec[12..16].try_into().unwrap());
                if drawsize & 0x8000_0000 != 0 {
                    let len = (drawsize & 0x7FFF_FFFF) as usize;
                    let mut v = vec![0u8; len];
                    let le = doff.to_le_bytes();
                    v[..le.len()].copy_from_slice(&le);
                    return (rtype, v);
                }
                return (
                    rtype,
                    self.cell(doff)[..drawsize as usize].to_vec(),
                );
            }
        }
        panic!("value {name} not found");
    }
}

#[test]
fn device_blob_gpt_matches_bcdedit_ground_truth() {
    // Captured verbatim from a store created by bcdedit:
    // partition={95a270a5-a91f-4abf-8a71-3cdf9367badc},
    // disk={26512254-9215-4eb8-ba3e-760e...}.
    let part_guid: [u8; 16] = [
        0xa5, 0x70, 0xa2, 0x95, 0x1f, 0xa9, 0xbf, 0x4a, 0x8a, 0x71, 0x3c, 0xdf, 0x93,
        0x67, 0xba, 0xdc,
    ];
    let disk_guid: [u8; 16] = [
        0x54, 0x22, 0x51, 0x26, 0x15, 0x92, 0xb8, 0x4e, 0xba, 0x3e, 0x7a, 0x60, 0xe7,
        0x4a, 0x84, 0xa1,
    ];
    let blob = gpt_partition_device(&PartitionRef {
        partition_guid: part_guid,
        disk_guid,
    });
    let mut expected: Vec<u8> = Vec::new();
    expected.extend_from_slice(&[0u8; 16]); // no options object
    expected.extend_from_slice(&6u32.to_le_bytes()); // PartitionDevice
    expected.extend_from_slice(&0u32.to_le_bytes());
    expected.extend_from_slice(&72u32.to_le_bytes()); // additional options size
    expected.extend_from_slice(&0u32.to_le_bytes());
    expected.extend_from_slice(&part_guid);
    expected.extend_from_slice(&0u64.to_le_bytes());
    expected.extend_from_slice(&disk_guid);
    expected.extend_from_slice(&[0u8; 16]);
    assert_eq!(&blob, &expected);
}

#[test]
fn boot_device_blob_matches_media_store() {
    let b = boot_device();
    assert_eq!(b.len(), 88);
    assert_eq!(&b[16..20], &5u32.to_le_bytes());
    assert_eq!(&b[24..28], &72u32.to_le_bytes());
    assert!(b[28..].iter().all(|&v| v == 0));
}

#[test]
fn generated_store_parses_like_systemd_expects() {
    let esp = PartitionRef {
        partition_guid: [1u8; 16],
        disk_guid: [2u8; 16],
    };
    let win = PartitionRef {
        partition_guid: [3u8; 16],
        disk_guid: [2u8; 16],
    };
    let entry = "{12345678-1234-1234-1234-123456789abc}";
    let store =
        generate_uefi_bcd(entry, "Ferrus Windows", &esp, &win, 9).unwrap();

    // Base block invariants (systemd's get_bcd_title checks these).
    assert_eq!(&store[0..4], b"regf");
    assert_eq!(store[20..24], 1u32.to_le_bytes());
    assert_eq!(store[24..28], 3u32.to_le_bytes());
    assert_eq!(store[28..32], 0u32.to_le_bytes());
    assert_eq!(store[4..8], store[8..12]);
    // Checksum recomputes.
    let mut sum: u32 = 0;
    for i in (0..0x1FC).step_by(4) {
        sum ^= u32::from_le_bytes(store[i..i + 4].try_into().unwrap());
    }
    assert_eq!(&store[0x1FC..0x200], sum.to_le_bytes().as_slice());

    let root_cell = u32::from_le_bytes(store[36..40].try_into().unwrap());
    let root = TestKey::hive_root(&store, root_cell);
    assert_eq!(root.name(), "NewStoreRoot");

    // Root description carries KeyName + FirmwareModified like real stores.
    let desc = root.child("Description").unwrap();
    let (t, v) = desc.value("KeyName");
    assert_eq!(t, 1); // REG_SZ
    assert_eq!(
        String::from_utf16_lossy(&bytemuck_wide(&v)).trim_end_matches('\0'),
        "BCD00000000"
    );

    let objects = root.child("Objects").unwrap();

    // {bootmgr}: type + displayorder + timeout + ESP device.
    let bm = objects.child(BOOTMGR_GUID).unwrap();
    let bm_desc = bm.path(&["Description"]);
    let (t, v) = bm_desc.value("Type");
    assert_eq!(t, 4); // inline REG_DWORD
    assert_eq!(u32::from_le_bytes(v[..4].try_into().unwrap()), 0x1010_0002);

    let elems = bm.path(&["Elements"]);
    let (t, dev) = elems
        .child("11000001")
        .unwrap()
        .value("Element");
    assert_eq!(t, 3); // REG_BINARY
    assert_eq!(dev.len(), 88);
    assert_eq!(&dev[16..20], &6u32.to_le_bytes());
    assert_eq!(&dev[32..48], &[1u8; 16]); // partition guid
    assert_eq!(&dev[56..72], &[2u8; 16]); // disk guid

    let (t, order) = elems
        .child("24000001")
        .unwrap()
        .value("Element");
    assert_eq!(t, 7); // REG_MULTI_SZ
    let order_str = String::from_utf16_lossy(&bytemuck_wide(&order));
    assert!(order_str.contains(entry), "{order_str}");

    let (_, to) = elems
        .child("25000004")
        .unwrap()
        .value("Element");
    assert_eq!(u64::from_le_bytes(to[..8].try_into().unwrap()), 9);

    // osloader entry.
    let os = objects.child(entry).unwrap();
    let os_desc = os.path(&["Description"]);
    let (t, v) = os_desc.value("Type");
    assert_eq!(u32::from_le_bytes(v[..4].try_into().unwrap()), 0x1020_0003);
    assert_eq!(t, 4);

    let os_elems = os.path(&["Elements"]);
    let (_, path) = os_elems
        .child("12000002")
        .unwrap()
        .value("Element");
    assert_eq!(
        String::from_utf16_lossy(&bytemuck_wide(&path)),
        "\\Windows\\system32\\winload.efi\0"
    );
    let (_, sr) = os_elems
        .child("22000002")
        .unwrap()
        .value("Element");
    assert_eq!(
        String::from_utf16_lossy(&bytemuck_wide(&sr)),
        "\\Windows\0"
    );
    let (_, dsc) = os_elems
        .child("12000004")
        .unwrap()
        .value("Element");
    assert_eq!(
        String::from_utf16_lossy(&bytemuck_wide(&dsc)),
        "Ferrus Windows\0"
    );
    let (_, osdev) = os_elems
        .child("21000001")
        .unwrap()
        .value("Element");
    assert_eq!(&osdev[32..48], &[3u8; 16]); // win partition guid

    // Every nk must be reachable and cells well-formed:
    // walk whole tree ensuring lf ordering.
    fn check_sorted(k: &TestKey) {
        if k.rec[28..32] == [0xFF; 4] {
            return;
        }
        let list = k.cell(k.rec_u32(28));
        let count = u16::from_le_bytes(list[2..4].try_into().unwrap());
        let mut prev = String::new();
        for i in 0..count as usize {
            let cell =
                u32::from_le_bytes(list[4 + i * 8..8 + i * 8].try_into().unwrap());
            let child = k.key(cell);
            let nm = child.name();
            assert!(nm > prev.as_str(), "lf not sorted: {nm} after {prev}");
            prev = nm.to_string();
            check_sorted(&child);
        }
    }
    check_sorted(&root);
}

fn bytemuck_wide(v: &[u8]) -> Vec<u16> {
    (0..v.len() / 2)
        .map(|i| u16::from_le_bytes([v[2 * i], v[2 * i + 1]]))
        .collect()
}

#[test]
fn bad_guid_rejected() {
    let esp = PartitionRef::default();
    assert!(generate_uefi_bcd("not-a-guid", "x", &esp, &esp, 1).is_err());
    assert!(generate_uefi_bcd("{ZZZZZZZZ-1234-1234-1234-123456789abc}", "x", &esp, &esp, 1).is_err());
}

#[test]
fn vhd_device_blob_matches_ground_truth() {
    // Ground-truth blobs from real bcdedit stores (S/M/L path lengths)
    let disk_guid = [0x95,0xa2,0x70,0xa5,0x1f,0xa9,0xbf,0x4a,0x8a,0x71,0x3c,0xdf,0x93,0x67,0xba,0xdc];
    let part_guid = [0x26,0x51,0x22,0x54,0x15,0x92,0xb8,0x4e,0xba,0x3e,0x7a,0x60,0xe7,0x4a,0x84,0xa1];
    // S: "\w.vhdx" (7 chars) -> 206 bytes
    let s = vhd_device(r"\w.vhdx", &disk_guid, &part_guid, false);
    assert_eq!(s.len(), 206);
    // M: "\ferrus-vhd\windows.vhdx" (24 chars) -> 240 bytes
    let m = vhd_device(r"\ferrus-vhd\windows.vhdx", &disk_guid, &part_guid, false);
    assert_eq!(m.len(), 240);
    // L: "\ferrus-vhd\subdir\windows Ten.vhdx" (35 chars) -> 262 bytes
    let l = vhd_device(r"\ferrus-vhd\subdir\windows Ten.vhdx", &disk_guid, &part_guid, false);
    assert_eq!(l.len(), 262);
    // Device vs osdevice differ only at +0x24 (locate_id)
    let mut dev = vhd_device(r"\windows.vhdx", &disk_guid, &part_guid, false);
    let osdev = vhd_device(r"\windows.vhdx", &disk_guid, &part_guid, true);
    assert_eq!(dev.len(), osdev.len());
    // locate_id at bytes 0x24..0x27: device=0x12000002, osdevice=0x22000002
    assert_eq!(&dev[0x24..0x28], &0x1200_0002u32.to_le_bytes());
    assert_eq!(&osdev[0x24..0x28], &0x2200_0002u32.to_le_bytes());
    // Rest identical
    dev[0x24..0x28].copy_from_slice(&osdev[0x24..0x28]);
    assert_eq!(dev, osdev);
}

fn le32(b: &[u8], at: usize) -> u32 {
    u32::from_le_bytes([b[at], b[at + 1], b[at + 2], b[at + 3]])
}

/// Walks a tree and counts its keys; checks parents and the security index.
fn walk(k: &TestKey, idx: u32, sk: u32) -> u32 {
    assert_eq!(k.rec_u32(44), sk);
    let mut n = 1;
    if k.rec[28..32] == [0xFF; 4] {
        return n;
    }
    let list = k.cell(k.rec_u32(28));
    let count = u16::from_le_bytes([list[2], list[3]]);
    for i in 0..count as usize {
        let cell = le32(list, 4 + 8 * i);
        let child = k.key(cell);
        assert_eq!(child.rec_u32(16), idx);
        let name = child.name().as_bytes();
        for j in 0..4 {
            assert_eq!(list[8 + 8 * i + j], if j < name.len() { name[j] } else { 0 });
        }
        n += walk(&child, cell, sk);
    }
    n
}

fn two_parts() -> (PartitionRef, PartitionRef) {
    (
        PartitionRef { partition_guid: [1u8; 16], disk_guid: [2u8; 16] },
        PartitionRef { partition_guid: [3u8; 16], disk_guid: [2u8; 16] },
    )
}

#[test]
fn store_reads_back_with_links_and_security() {
    let (esp, win) = two_parts();
    let store = generate_uefi_bcd_vhdx_at(
        "{12345678-1234-1234-1234-123456789abc}",
        "Windows To Go",
        &esp,
        &win,
        r"\windows.vhdx",
        10,
        0x1122_3344_5566_7788,
    )
    .unwrap();
    assert_eq!(store.len() % 4096, 0);
    assert_eq!(store[12..20], 0x1122_3344_5566_7788u64.to_le_bytes());
    assert_eq!(le32(&store, 40) as usize, store.len() - 4096);
    for k in 0..(store.len() - 4096) / 4096 {
        let at = 4096 + 4096 * k;
        assert_eq!(&store[at..at + 4], b"hbin");
        assert_eq!(le32(&store, at + 4) as usize, 4096 * k);
        assert_eq!(le32(&store, at + 8), 0x1000);
    }
    let root_cell = le32(&store, 36);
    let root = TestKey::hive_root(&store, root_cell);
    let sk = root.rec_u32(44);
    let n = walk(&root, root_cell, sk);
    let rec = root.cell(sk);
    assert_eq!(&rec[0..2], b"sk");
    assert_eq!(le32(rec, 4), sk);
    assert_eq!(le32(rec, 8), sk);
    assert_eq!(le32(rec, 12), n);
    assert_eq!(le32(rec, 16), 116);
    // root, description, objects, two objects with two keys and nine elements
    assert_eq!(n, 16 + 2);
    let dev = root
        .path(&["Objects", "{12345678-1234-1234-1234-123456789abc}", "Elements", "21000001"])
        .value("Element");
    assert_eq!(dev.0, 3);
    assert_eq!(
        dev.1,
        vhd_device(r"\windows.vhdx", &win.disk_guid, &win.partition_guid, true)
    );
}

#[test]
fn full_page_starts_a_new_one() {
    // Titles of every length around a page: some of them fill a page exactly.
    let (esp, win) = two_parts();
    let entry = "{12345678-1234-1234-1234-123456789abc}";
    let mut len = 0;
    while len < 2029 {
        let title = "x".repeat(len);
        let store = generate_uefi_bcd_at(entry, &title, &esp, &win, 1, 0).unwrap();
        let root = TestKey::hive_root(&store, le32(&store, 36));
        let (t, v) = root
            .path(&["Objects", entry, "Elements", "12000004"])
            .value("Element");
        assert_eq!(t, 1);
        assert_eq!(v.len(), 2 * len + 2);
        assert!(v[..2 * len].chunks(2).all(|c| c[0] == b'x' && c[1] == 0));
        for k in 0..(store.len() - 4096) / 4096 {
            assert_eq!(&store[4096 + 4096 * k..4100 + 4096 * k], b"hbin");
        }
        len += 4;
    }
    let title = "x".repeat(2029);
    assert!(generate_uefi_bcd_at(entry, &title, &esp, &win, 1, 0).is_ok());
}

#[test]
fn objects_are_listed_by_guid() {
    let (esp, win) = two_parts();
    for entry in [
        "{00000000-1234-1234-1234-123456789abc}",
        "{FFFFFFFF-1234-1234-1234-123456789ABC}",
    ] {
        let store = generate_uefi_bcd(entry, "t", &esp, &win, 1).unwrap();
        let root = TestKey::hive_root(&store, le32(&store, 36));
        let objects = root.child("Objects").unwrap();
        let list = objects.cell(objects.rec_u32(28));
        let first = objects.key(le32(list, 4));
        let second = objects.key(le32(list, 12));
        assert!(first.name() < second.name());
        // Names are kept in lower case.
        let lower = entry.to_ascii_lowercase();
        assert!(first.name() == lower || second.name() == lower);
        assert!(first.name() == BOOTMGR_GUID || second.name() == BOOTMGR_GUID);
    }
}

#[test]
fn guid_checks_name_the_text() {
    assert!(validate_guid_str("{12345678-1234-1234-1234-123456789ABC}").is_ok());
    for bad in [
        "",
        "12345678-1234-1234-1234-123456789abc",
        "{12345678x1234-1234-1234-123456789abc}",
        "{12345678-1234-1234-1234-123456789abg}",
        "{12345678-1234-1234-1234-123456789abc)",
        "{12345678-1234-1234-1234-123456789ab\u{e9}}",
    ] {
        match validate_guid_str(bad) {
            Ok(_) => panic!("{bad} accepted"),
            Err(BcdError::BadGuid(g)) => {
                assert_eq!(g, bad);
                let e = BcdError::BadGuid(g);
                assert_eq!(e.message(), format!("invalid BCD entry GUID: {bad}"));
            }
        }
    }
}

#[test]
fn file_times_count_from_1601() {
    assert_eq!(filetime_at(0), 116_444_736_000_000_000);
    assert_eq!(filetime_at(1_700_000_000), 133_444_736_000_000_000);
    assert_eq!(filetime_at(u64::MAX), 11_644_473_599u64.wrapping_mul(10_000_000));
}

#[test]
fn clock_gives_a_present_time() {
    let (esp, win) = two_parts();
    let entry = "{12345678-1234-1234-1234-123456789abc}";
    let store = generate_uefi_bcd(entry, "t", &esp, &win, 1).unwrap();
    let mut t = [0u8; 8];
    t.copy_from_slice(&store[12..20]);
    // Later than 2020, and every key has the same stamp.
    let stamp = u64::from_le_bytes(t);
    assert!(stamp > filetime_at(1_577_836_800));
    assert_eq!(
        store,
        generate_uefi_bcd_at(entry, "t", &esp, &win, 1, stamp).unwrap()
    );
    assert!(generate_uefi_bcd_vhdx("no", "t", &esp, &win, r"\w", 1).is_err());
}

#[test]
fn vhd_device_layout() {
    let disk = [7u8; 16];
    let part = [9u8; 16];
    let b = vhd_device(r"\w.vhdx", &disk, &part, true);
    assert_eq!(&b[0x10..0x18], &8u64.to_le_bytes());
    assert_eq!(&b[0x18..0x20], &((b.len() - 16) as u64).to_le_bytes());
    assert_eq!(&b[0x36..0x38], &(146u16 + 14).to_le_bytes());
    assert_eq!(&b[0x4E..0x50], &(106u16 + 14).to_le_bytes());
    assert_eq!(&b[0x6E..0x70], &(86u16 + 14).to_le_bytes());
    assert_eq!(&b[0x86..0x96], &disk);
    assert_eq!(&b[0x9E..0xAE], &part);
    assert_eq!(b[0xBE], b'\\');
    assert_eq!(&b[b.len() - 4..], &[b'x', 0, 0, 0]);
    // Characters outside the basic plane take two units.
    assert_eq!(vhd_device("\u{1F600}", &disk, &part, false).len(), 190 + 4 + 2);
}

#[test]
fn subkeys_are_listed_in_order() {
    let mut root = Key::new("root");
    for name in ["b", "a", "d", "c"] {
        let mut key = Key::new(name);
        key.set("Value", Val::Dword(7));
        key.add(Key::new("z"));
        key.add(Key::new("y"));
        root.add(key);
    }
    let store = write_store(&root, 0);
    let top = TestKey::hive_root(&store, le32(&store, 36));
    let names = |k: &TestKey| -> Vec<String> {
        let list = k.cell(k.rec_u32(28));
        (0..list[2] as usize)
            .map(|i| k.key(le32(list, 4 + 8 * i)).name().to_string())
            .collect()
    };
    assert_eq!(names(&top), ["a", "b", "c", "d"]);
    for name in ["a", "b", "c", "d"] {
        let key = top.child(name).unwrap();
        assert_eq!(names(&key), ["y", "z"]);
        assert_eq!(key.value("Value"), (4, vec![7, 0, 0, 0]));
        // Flags, and the longest names and values.
        assert_eq!(&key.rec[2..4], &[0x20, 0]);
        assert_eq!((key.rec_u32(52), key.rec_u32(60), key.rec_u32(64)), (1, 5, 4));
    }
    assert_eq!(&top.rec[2..4], &[0x2C, 0]);
}

#[test]
fn case_of_the_entry_does_not_matter() {
    let (esp, win) = two_parts();
    let upper = "{ABCDEF01-1234-1234-1234-123456789ABC}";
    let lower = upper.to_ascii_lowercase();
    let a = generate_uefi_bcd_at(upper, "t", &esp, &win, 1, 5).unwrap();
    let b = generate_uefi_bcd_at(&lower, "t", &esp, &win, 1, 5).unwrap();
    assert_eq!(a, b);
    // Another time changes time stamps and checksum.
    let c = generate_uefi_bcd_at(&lower, "t", &esp, &win, 1, u64::MAX).unwrap();
    let nodes = 18;
    let differ: Vec<usize> = (0..a.len()).filter(|i| a[*i] != c[*i]).collect();
    assert!(differ.len() <= 8 + 4 + 8 * nodes);
    assert!(differ.iter().all(|i| {
        (12..20).contains(i)
            || (0x1FC..0x200).contains(i)
            || (4..12).any(|k| *i > 4096 + k && &a[*i - k..*i - k + 2] == b"nk")
    }));
}
