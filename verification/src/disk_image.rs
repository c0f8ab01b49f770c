//! A minimal fixed virtual disk whose data region is filled in later.
//!
//! Layout: file type identifier at 0, header at 1 MiB, region table at 2 MiB,
//! data region at 3 MiB, and a footer of 512 bytes behind the data.

use crate::bytes::{
    get32, group_le_len, le32, le64, lemma_le32_round_trip, overlay, push_bytes, push_u32,
    push_u64, push_zeros, put_u32, zeros,
};
use crate::crc::{crc32_of, CRC32_POLY};
use vstd::prelude::*;

verus! {

/// `crc32fast::hash` computes the CRC-32 of IEEE 802.3: polynomial 0x04C11DB7
/// in reflected form, register all ones at the start and inverted at the end.
pub assume_specification[ crc32fast::hash ](buf: &[u8]) -> (crc: u32)
    ensures
        crc == crc32_of(CRC32_POLY, buf@),
;

/// `rand::RngCore::fill_bytes` on the thread's generator. The bytes are random
/// and left open.
#[verifier::external_body]
fn random_bytes() -> [u8; 16] {
    let mut b = [0u8; 16];
    rand::RngCore::fill_bytes(&mut rand::thread_rng(), &mut b);
    b
}

/// Where the data region starts.
pub const DATA_OFFSET: u64 = 0x30_0000;

/// Where the footer of a disk of `mib` MiB stands.
pub open spec fn footer_offset(mib: int) -> int {
    0x30_0000 + mib * 0x10_0000
}

/// `b` with its CRC-32 at 8, which counts as zero in the sum.
pub open spec fn with_crc32(b: Seq<u8>) -> Seq<u8> {
    overlay(b, 8, le32(crc32_of(CRC32_POLY, b) as int))
}

/// The header (1 MiB) with zeros for its checksum.
#[verifier::opaque]
pub open spec fn disk_header(write_guid: Seq<u8>, data_guid: Seq<u8>) -> Seq<u8> {
    seq![0x76u8, 0x68, 0x64, 0x78, 0x68, 0x65, 0x61, 0x64]  // "vhdxhead"
         + le32(0) + le64(1) + write_guid + zeros(16) + data_guid + le32(0) + le32(1) + le64(0)
        + le64(0) + zeros(0xF_FFA4)
}

/// The region table (1 MiB) with the data region as its one entry.
#[verifier::opaque]
pub open spec fn disk_regions(mib: int, region_guid: Seq<u8>) -> Seq<u8> {
    seq![0x72u8, 0x65, 0x67, 0x74]  // "regt"
         + le32(0) + le64(1) + le64(0x30_0000) + le64(mib * 0x10_0000) + region_guid + zeros(16)
        + zeros(0xF_FFC0)
}

/// The footer (512 bytes) with zeros for its checksum.
#[verifier::opaque]
pub open spec fn disk_footer(mib: int, data_guid: Seq<u8>) -> Seq<u8> {
    seq![0x76u8, 0x68, 0x64, 0x78, 0x66, 0x6f, 0x6f, 0x74]  // "vhdxfoot"
         + le32(0) + le32(0) + le32(0x206e_6977) + le32(0x000a_0001) + le32(4) + le64(
        footer_offset(mib) + 512,
    ) + data_guid + zeros(16) + le64(0x30_0000) + le64(0) + zeros(428)
}

/// Bytes to write at an offset.
pub struct Chunk {
    pub offset: u64,
    pub bytes: Vec<u8>,
}

/// A file of `len` zero bytes with `chunks` written into it.
pub struct DiskFile {
    pub len: u64,
    pub chunks: Vec<Chunk>,
}

pub open spec fn chunk_models(chunks: Seq<Chunk>) -> Seq<(int, Seq<u8>)> {
    chunks.map_values(|c: Chunk| (c.offset as int, c.bytes@))
}

/// What is written into a disk of `mib` MiB.
pub open spec fn disk_chunks(
    mib: int,
    write_guid: Seq<u8>,
    data_guid: Seq<u8>,
    region_guid: Seq<u8>,
) -> Seq<(int, Seq<u8>)> {
    seq![
        (0int, seq![0x76u8, 0x68, 0x64, 0x78, 0x66, 0x69, 0x6c, 0x65]),  // "vhdxfile"
        (0x10_0000int, with_crc32(disk_header(write_guid, data_guid))),
        (0x20_0000int, disk_regions(mib, region_guid)),
        (footer_offset(mib), with_crc32(disk_footer(mib, data_guid))),
    ]
}

proof fn lemma_disk_lens(
    mib: int,
    write_guid: Seq<u8>,
    data_guid: Seq<u8>,
    region_guid: Seq<u8>,
)
    requires
        write_guid.len() == 16,
        data_guid.len() == 16,
        region_guid.len() == 16,
    ensures
        disk_header(write_guid, data_guid).len() == 0x10_0000,
        disk_regions(mib, region_guid).len() == 0x10_0000,
        disk_footer(mib, data_guid).len() == 512,
{
    broadcast use group_le_len;
    reveal(disk_header);
    reveal(disk_regions);
    reveal(disk_footer);
}

fn set_crc32(b: &mut Vec<u8>)
    requires
        old(b)@.len() >= 12,
    ensures
        final(b)@ == with_crc32(old(b)@),
{
    let crc: u32 = crc32fast::hash(b.as_slice());
    put_u32(b, 8, crc);
}

fn build_disk_header(write_guid: &[u8; 16], data_guid: &[u8; 16]) -> (h: Vec<u8>)
    ensures
        h@ == disk_header(write_guid@, data_guid@),
{
    let mut h: Vec<u8> = Vec::new();
    h.push(0x76);
    h.push(0x68);
    h.push(0x64);
    h.push(0x78);
    h.push(0x68);
    h.push(0x65);
    h.push(0x61);
    h.push(0x64);
    push_u32(&mut h, 0);
    push_u64(&mut h, 1);
    push_bytes(&mut h, write_guid.as_slice());
    push_zeros(&mut h, 16);
    push_bytes(&mut h, data_guid.as_slice());
    push_u32(&mut h, 0);
    push_u32(&mut h, 1);
    push_u64(&mut h, 0);
    push_u64(&mut h, 0);
    push_zeros(&mut h, 0xF_FFA4);
    proof {
        reveal(disk_header);
        assert(h@ =~= disk_header(write_guid@, data_guid@));
    }
    h
}

fn build_disk_regions(size_mib: u64, region_guid: &[u8; 16]) -> (t: Vec<u8>)
    requires
        size_mib <= 0xFFF_FFFF_FFFC,
    ensures
        t@ == disk_regions(size_mib as int, region_guid@),
{
    let mut t: Vec<u8> = Vec::new();
    t.push(0x72);
    t.push(0x65);
    t.push(0x67);
    t.push(0x74);
    push_u32(&mut t, 0);
    push_u64(&mut t, 1);
    push_u64(&mut t, DATA_OFFSET);
    push_u64(&mut t, size_mib * 0x10_0000);
    push_bytes(&mut t, region_guid.as_slice());
    push_zeros(&mut t, 16);
    push_zeros(&mut t, 0xF_FFC0);
    proof {
        reveal(disk_regions);
        assert(t@ =~= disk_regions(size_mib as int, region_guid@));
    }
    t
}

fn build_disk_footer(size_mib: u64, data_guid: &[u8; 16]) -> (f: Vec<u8>)
    requires
        size_mib <= 0xFFF_FFFF_FFFC,
    ensures
        f@ == disk_footer(size_mib as int, data_guid@),
{
    let mut f: Vec<u8> = Vec::new();
    f.push(0x76);
    f.push(0x68);
    f.push(0x64);
    f.push(0x78);
    f.push(0x66);
    f.push(0x6f);
    f.push(0x6f);
    f.push(0x74);
    push_u32(&mut f, 0);
    push_u32(&mut f, 0);
    push_u32(&mut f, 0x206e_6977);
    push_u32(&mut f, 0x000a_0001);
    push_u32(&mut f, 4);
    push_u64(&mut f, DATA_OFFSET + size_mib * 0x10_0000 + 512);
    push_bytes(&mut f, data_guid.as_slice());
    push_zeros(&mut f, 16);
    push_u64(&mut f, DATA_OFFSET);
    push_u64(&mut f, 0);
    push_zeros(&mut f, 428);
    proof {
        reveal(disk_footer);
        assert(f@ =~= disk_footer(size_mib as int, data_guid@));
    }
    f
}

/// A fixed disk of `size_mib` MiB for given GUIDs.
pub fn create_fixed_vhdx_with(
    size_mib: u64,
    write_guid: &[u8; 16],
    data_write_guid: &[u8; 16],
    data_region_guid: &[u8; 16],
) -> (d: DiskFile)
    requires
        size_mib <= 0xFFF_FFFF_FFFC,
    ensures
        d.len == footer_offset(size_mib as int) + 512,
        chunk_models(d.chunks@) == disk_chunks(
            size_mib as int,
            write_guid@,
            data_write_guid@,
            data_region_guid@,
        ),
{
    proof {
        lemma_disk_lens(size_mib as int, write_guid@, data_write_guid@, data_region_guid@);
    }
    let mut id: Vec<u8> = Vec::new();
    id.push(0x76);
    id.push(0x68);
    id.push(0x64);
    id.push(0x78);
    id.push(0x66);
    id.push(0x69);
    id.push(0x6c);
    id.push(0x65);
    assert(id@ =~= seq![0x76u8, 0x68, 0x64, 0x78, 0x66, 0x69, 0x6c, 0x65]);
    let mut header: Vec<u8> = build_disk_header(write_guid, data_write_guid);
    set_crc32(&mut header);
    let regions: Vec<u8> = build_disk_regions(size_mib, data_region_guid);
    let mut footer: Vec<u8> = build_disk_footer(size_mib, data_write_guid);
    set_crc32(&mut footer);
    let footer_at: u64 = DATA_OFFSET + size_mib * 0x10_0000;
    let mut chunks: Vec<Chunk> = Vec::new();
    chunks.push(Chunk { offset: 0, bytes: id });
    chunks.push(Chunk { offset: 0x10_0000, bytes: header });
    chunks.push(Chunk { offset: 0x20_0000, bytes: regions });
    chunks.push(Chunk { offset: footer_at, bytes: footer });
    assert(chunk_models(chunks@) =~= disk_chunks(
        size_mib as int,
        write_guid@,
        data_write_guid@,
        data_region_guid@,
    ));
    DiskFile { len: footer_at + 512, chunks }
}

/// A fixed disk of `size_mib` MiB with random GUIDs.
pub fn create_fixed_vhdx(size_mib: u64) -> (d: DiskFile)
    requires
        size_mib <= 0xFFF_FFFF_FFFC,
    ensures
        d.len == footer_offset(size_mib as int) + 512,
        exists|write_guid: Seq<u8>, data_guid: Seq<u8>, region_guid: Seq<u8>|
            write_guid.len() == 16 && data_guid.len() == 16 && region_guid.len() == 16
                && chunk_models(d.chunks@) == #[trigger] disk_chunks(
                size_mib as int,
                write_guid,
                data_guid,
                region_guid,
            ),
{
    let write_guid: [u8; 16] = random_bytes();
    let data_guid: [u8; 16] = random_bytes();
    let region_guid: [u8; 16] = random_bytes();
    assert(write_guid@.len() == 16 && data_guid@.len() == 16 && region_guid@.len() == 16);
    create_fixed_vhdx_with(size_mib, &write_guid, &data_guid, &region_guid)
}

/// Whether the checksum at 8 is that of `b` with zeros in its place.
pub open spec fn crc32_holds(b: Seq<u8>) -> bool {
    get32(b, 8) == crc32_of(CRC32_POLY, overlay(b, 8, zeros(4)))
}

proof fn lemma_with_crc32(b: Seq<u8>)
    requires
        b.len() >= 12,
        b.subrange(8, 12) == zeros(4),
    ensures
        crc32_holds(with_crc32(b)),
{
    broadcast use group_le_len;
    let crc = crc32_of(CRC32_POLY, b);
    lemma_le32_round_trip(crc as int);
    let c = with_crc32(b);
    assert(get32(c, 8) == get32(le32(crc as int), 0));
    assert forall|i: int| 0 <= i < b.len() implies overlay(c, 8, zeros(4))[i] == b[i] by {
        if 8 <= i < 12 {
            assert(b.subrange(8, 12)[i - 8] == b[i]);
        }
    }
    assert(overlay(c, 8, zeros(4)) =~= b);
}

/// The parts of a disk lie one behind another and end with the file; between
/// the region table and the footer nothing is written, and the checksums of
/// header and footer hold.
pub proof fn law_disk_layout(
    mib: int,
    write_guid: Seq<u8>,
    data_guid: Seq<u8>,
    region_guid: Seq<u8>,
)
    requires
        0 <= mib,
        write_guid.len() == 16,
        data_guid.len() == 16,
        region_guid.len() == 16,
    ensures
        ({
            let c = disk_chunks(mib, write_guid, data_guid, region_guid);
            &&& forall|i: int|
                0 <= i < 3 ==> (#[trigger] c[i]).0 + c[i].1.len() <= c[i + 1].0
            &&& c[2].0 + c[2].1.len() == 0x30_0000
            &&& c[3].0 == 0x30_0000 + mib * 0x10_0000
            &&& c[3].0 + c[3].1.len() == footer_offset(mib) + 512
            &&& crc32_holds(c[1].1)
            &&& crc32_holds(c[3].1)
        }),
{
    broadcast use group_le_len;
    lemma_disk_lens(mib, write_guid, data_guid, region_guid);
    let h = disk_header(write_guid, data_guid);
    let f = disk_footer(mib, data_guid);
    assert(h.subrange(8, 12) =~= zeros(4)) by {
        reveal(disk_header);
        reveal(le32);
    }
    assert(f.subrange(8, 12) =~= zeros(4)) by {
        reveal(disk_footer);
        reveal(le32);
    }
    lemma_with_crc32(h);
    lemma_with_crc32(f);
}

/// The capacity in MiB of a disk for an image of `image_bytes`: as asked for,
/// or the image with a quarter more, rounded up, and at least 64 GiB.
pub open spec fn capacity(asked: int, image_bytes: int) -> int {
    if asked > 0 {
        asked
    } else {
        let need = (image_bytes * 5 + 0x3F_FFFF) / 0x40_0000;
        if need > 65536 {
            need
        } else {
            65536
        }
    }
}

/// A capacity that is chosen automatically holds the image and a quarter more,
/// and is 64 GiB at least; one that is asked for stays as it is.
pub proof fn law_capacity_has_headroom(asked: int, image_bytes: int)
    requires
        0 <= asked,
        0 <= image_bytes,
    ensures
        asked > 0 ==> capacity(asked, image_bytes) == asked,
        asked == 0 ==> capacity(asked, image_bytes) >= 65536,
        asked == 0 ==> 4 * capacity(asked, image_bytes) * 0x10_0000 >= 5 * image_bytes,
{
}

pub fn vhdx_capacity_mib(asked: u64, image_bytes: u64) -> (mib: u64)
    ensures
        mib == capacity(asked as int, image_bytes as int),
{
    if asked > 0 {
        asked
    } else {
        let need: u128 = (image_bytes as u128 * 5 + 0x3F_FFFF) / 0x40_0000;
        if need > 65536 {
            need as u64
        } else {
            65536
        }
    }
}

} // verus!
