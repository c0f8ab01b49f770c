//! Disk files: fixed VHDX images and their checksums.

use ferrus::crc::crc32c;
use ferrus::disk_image::{create_fixed_vhdx, create_fixed_vhdx_with, vhdx_capacity_mib, DATA_OFFSET};
use ferrus::vhdx::{build_fixed_vhdx, build_fixed_vhdx_with, VhdxError};

const MIB: usize = 1 << 20;

fn u32_at(b: &[u8], i: usize) -> u32 {
    u32::from_le_bytes([b[i], b[i + 1], b[i + 2], b[i + 3]])
}

fn u64_at(b: &[u8], i: usize) -> u64 {
    u32_at(b, i) as u64 | (u32_at(b, i + 4) as u64) << 32
}

fn guid(first: u8) -> [u8; 16] {
    let mut g = [0u8; 16];
    for (i, b) in g.iter_mut().enumerate() {
        *b = first + i as u8;
    }
    g
}

fn sample(payload: &[u8]) -> Vec<u8> {
    build_fixed_vhdx_with(
        payload,
        32 << 20,
        Some("Ferrus"),
        512,
        4096,
        &guid(0x10),
        &guid(0x30),
        &guid(0x50),
    )
    .unwrap()
}

#[test]
fn crc32c_check_value() {
    assert_eq!(crc32c(b"123456789"), 0xE306_9283);
    assert_eq!(crc32c(b""), 0);
    assert_eq!(crc32c(&[0u8; 32]), 0x8A91_36AA);
    assert_eq!(crc32c(&[0xFFu8; 32]), 0x62A8_AB43);
}

#[test]
fn vhdx_reads_back_its_payload() {
    let payload: Vec<u8> = (0..MIB + 512).map(|i| (i * 7 % 251) as u8).collect();
    let f = sample(&payload);
    assert_eq!(f.len(), 4 * MIB);
    assert_eq!(&f[2 * MIB..2 * MIB + payload.len()], &payload[..]);
    assert!(f[2 * MIB + payload.len()..].iter().all(|b| *b == 0));
    assert_eq!(&f[..8], b"vhdxfile");
    assert_eq!(&f[16..28], b"F\0e\0r\0r\0u\0s\0");
    assert!(f[28..528].iter().all(|b| *b == 0));
}

#[test]
fn vhdx_headers() {
    let f = sample(&[]);
    assert_eq!(f.len(), 2 * MIB);
    for (at, sequence) in [(0x1_0000usize, 2u64), (0x2_0000, 1)] {
        let mut h = f[at..at + 4096].to_vec();
        assert_eq!(&h[..4], b"head");
        assert_eq!(u64_at(&h, 8), sequence);
        assert_eq!(&h[0x10..0x20], &guid(0x10));
        assert_eq!(&h[0x20..0x30], &guid(0x30));
        assert_eq!(&h[0x30..0x40], &[0u8; 16]);
        assert_eq!(u32_at(&h, 0x40), 0x1_0000); // log version 0, version 1
        let stored = u32_at(&h, 4);
        h[4..8].fill(0);
        assert_eq!(crc32c(&h), stored);
    }
    for at in [0x3_0000usize, 0x4_0000] {
        let mut t = f[at..at + 0x1_0000].to_vec();
        assert_eq!(&t[..4], b"regi");
        assert_eq!(u32_at(&t, 8), 1);
        assert_eq!(t[16], 0x06);
        assert_eq!(u64_at(&t, 32), MIB as u64);
        assert_eq!(u64_at(&t, 40), MIB as u64);
        assert_eq!(u32_at(&t, 48), 1);
        let stored = u32_at(&t, 4);
        t[4..8].fill(0);
        assert_eq!(crc32c(&t), stored);
    }
}

#[test]
fn vhdx_metadata() {
    let f = sample(&[9u8; 1024]);
    let m = &f[MIB..2 * MIB];
    assert_eq!(&m[..8], b"metadata");
    assert_eq!(&m[10..12], &[5, 0]);
    let entry = |k: usize| {
        let at = 32 + 32 * k;
        (m[at], u32_at(m, at + 16), u32_at(m, at + 20), u32_at(m, at + 24))
    };
    assert_eq!(entry(0), (0x37, 0x1_0000, 8, 5));
    assert_eq!(entry(1), (0x24, 0x1_0008, 8, 7));
    assert_eq!(entry(2), (0xab, 0x1_0010, 16, 7));
    assert_eq!(entry(3), (0x1d, 0x1_0020, 4, 7));
    assert_eq!(entry(4), (0xc7, 0x1_0028, 4, 7));
    assert_eq!(u32_at(m, 0x1_0000), 32 << 20);
    assert_eq!(u32_at(m, 0x1_0004), 1);
    assert_eq!(u64_at(m, 0x1_0008), 1024);
    assert_eq!(&m[0x1_0010..0x1_0020], &guid(0x50));
    assert_eq!(u32_at(m, 0x1_0020), 512);
    assert_eq!(u32_at(m, 0x1_0024), 0);
    assert_eq!(u32_at(m, 0x1_0028), 4096);
    // Each item stands where its entry says.
    for (k, first) in [(0usize, 32u32 << 20), (1, 1024), (3, 512), (4, 4096)] {
        assert_eq!(u32_at(m, entry(k).1 as usize), first);
    }
}

#[test]
fn vhdx_guids_are_random_version_4() {
    let a = build_fixed_vhdx(&[], 1 << 20, None, 512, 512).unwrap();
    let b = build_fixed_vhdx(&[], 1 << 20, None, 512, 512).unwrap();
    assert!(a[8..528].iter().all(|x| *x == 0));
    for at in [0x1_0010usize, 0x1_0020, MIB + 0x1_0010] {
        let g = &a[at..at + 16];
        assert_eq!(g[7] >> 4, 4);
        assert_eq!(g[8] >> 6, 2);
        assert_ne!(g, &b[at..at + 16]);
    }
    assert_ne!(a[0x1_0010..0x1_0020], a[0x1_0020..0x1_0030]);
    assert_eq!(a[0x1_0010..0x1_0030], a[0x2_0010..0x2_0030]);
}

#[test]
fn creator_is_cut() {
    let f = build_fixed_vhdx(&[], 1 << 20, Some(&"é".repeat(300)), 512, 512).unwrap();
    assert_eq!(&f[16..20], &[0xE9, 0, 0xE9, 0]);
    assert_eq!(&f[526..530], &[0xE9, 0, 0, 0]);
}

#[test]
fn vhdx_refuses_odd_sizes() {
    let e = build_fixed_vhdx(&[0u8; 511], 1 << 20, None, 512, 512).unwrap_err();
    assert_eq!(e, VhdxError::PayloadSize);
    assert_eq!(e.message(), "payload size must be multiple of 512");
    for size in [0u32, 1, 1 << 19, 3 << 20, 1 << 29, u32::MAX] {
        let e = build_fixed_vhdx(&[], size, None, 512, 512).unwrap_err();
        assert_eq!(e, VhdxError::BlockSize);
        assert_eq!(e.message(), "block_size must be power of 2 between 1 MB and 256 MB");
    }
    for k in 20..=28 {
        assert!(build_fixed_vhdx(&[], 1u32 << k, None, 512, 512).is_ok());
    }
}

#[test]
fn fixed_disk_layout() {
    let d = create_fixed_vhdx_with(3, &guid(1), &guid(0x21), &guid(0x41));
    let footer = 0x30_0000u64 + 3 * MIB as u64;
    assert_eq!(DATA_OFFSET, 0x30_0000);
    assert_eq!(d.len, footer + 512);
    let at: Vec<u64> = d.chunks.iter().map(|c| c.offset).collect();
    assert_eq!(at, [0, 0x10_0000, 0x20_0000, footer]);
    assert_eq!(d.chunks[0].bytes, b"vhdxfile");

    let h = &d.chunks[1].bytes;
    assert_eq!(h.len(), MIB);
    assert_eq!(&h[..8], b"vhdxhead");
    assert_eq!(u64_at(h, 12), 1);
    assert_eq!(&h[20..36], &guid(1));
    assert_eq!(&h[52..68], &guid(0x21));

    let r = &d.chunks[2].bytes;
    assert_eq!(&r[..4], b"regt");
    assert_eq!(u64_at(r, 16), DATA_OFFSET);
    assert_eq!(u64_at(r, 24), 3 * MIB as u64);
    assert_eq!(&r[32..48], &guid(0x41));

    let f = &d.chunks[3].bytes;
    assert_eq!(f.len(), 512);
    assert_eq!(&f[..8], b"vhdxfoot");
    assert_eq!(u64_at(f, 28), footer + 512);

    // The checksums are those of the parts with zeros in their place.
    for part in [h, f] {
        let mut clear = part.clone();
        clear[8..12].fill(0);
        assert_eq!(u32_at(part, 8), bitwise_crc32(&clear));
    }
}

fn bitwise_crc32(b: &[u8]) -> u32 {
    let mut c = !0u32;
    for x in b {
        c ^= *x as u32;
        for _ in 0..8 {
            c = if c & 1 == 1 { c >> 1 ^ 0xEDB8_8320 } else { c >> 1 };
        }
    }
    !c
}

#[test]
fn fixed_disks_differ() {
    let a = create_fixed_vhdx(1);
    let b = create_fixed_vhdx(1);
    assert_eq!(a.len, b.len);
    assert_ne!(a.chunks[1].bytes[20..36], b.chunks[1].bytes[20..36]);
    assert_ne!(a.chunks[1].bytes[20..36], [0u8; 16]);
    assert_ne!(a.chunks[1].bytes[52..68], b.chunks[1].bytes[52..68]);
    assert_ne!(a.chunks[2].bytes[32..48], b.chunks[2].bytes[32..48]);
}

#[test]
fn capacity_follows_the_image() {
    assert_eq!(vhdx_capacity_mib(4096, u64::MAX), 4096);
    assert_eq!(vhdx_capacity_mib(0, 0), 65536);
    assert_eq!(vhdx_capacity_mib(0, 5 << 30), 65536);
    assert_eq!(vhdx_capacity_mib(0, 64 << 30), 81920);
    assert_eq!(vhdx_capacity_mib(0, (64 << 30) + 1), 81921);
}
