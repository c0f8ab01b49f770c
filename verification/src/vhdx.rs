//! Fixed VHDX (Virtual Hard Disk v2) files.
//!
//! Layout:
//!   0x000000  file type identifier
//!   0x010000  header, sequence number 2
//!   0x020000  header, sequence number 1
//!   0x030000  region table with one entry, the metadata region
//!   0x040000  the same region table
//!   0x100000  metadata region (1 MiB)
//!   0x200000  payload, zero-padded to a multiple of 1 MiB
//!
//! Headers and region tables carry a CRC-32C.

use crate::bytes::{
    get32, group_le_len, le16, le32, le64, lemma_le32_round_trip, overlay, push_bytes, push_u16,
    push_u32, push_u64, push_utf16, push_zeros, put_u32, units_le, utf16, zeros,
};
use crate::crc::{crc32_of, crc32c, CRC32C_POLY};
use crate::text::opt_view;
use vstd::prelude::*;

verus! {

#[derive(Debug, Clone, Copy, PartialEq, Eq, Structural)]
pub enum VhdxError {
    PayloadSize,
    BlockSize,
}

impl VhdxError {
    /// The error in words.
    pub fn message(&self) -> (m: String)
        ensures
            m@ == match self {
                VhdxError::PayloadSize => "payload size must be multiple of 512"@,
                VhdxError::BlockSize => "block_size must be power of 2 between 1 MB and 256 MB"@,
            },
    {
        match self {
            VhdxError::PayloadSize => "payload size must be multiple of 512".to_owned(),
            VhdxError::BlockSize =>
                "block_size must be power of 2 between 1 MB and 256 MB".to_owned(),
        }
    }
}

/// A power of two from 1 MiB to 256 MiB.
pub open spec fn valid_block_size(n: int) -> bool {
    ||| n == 0x10_0000
    ||| n == 0x20_0000
    ||| n == 0x40_0000
    ||| n == 0x80_0000
    ||| n == 0x100_0000
    ||| n == 0x200_0000
    ||| n == 0x400_0000
    ||| n == 0x800_0000
    ||| n == 0x1000_0000
}

/// `b` with its CRC-32C in the second dword, which counts as zero in the sum.
pub open spec fn with_crc32c(b: Seq<u8>) -> Seq<u8> {
    overlay(b, 4, le32(crc32_of(CRC32C_POLY, overlay(b, 4, zeros(4))) as int))
}

/// The creator's UTF-16LE bytes, cut or zero-padded to 512.
pub open spec fn creator_field(creator: Option<Seq<char>>) -> Seq<u8> {
    let b = match creator {
        Some(c) => units_le(utf16(c)),
        None => seq![],
    };
    Seq::new(
        512,
        |i: int|
            if i < b.len() {
                b[i]
            } else {
                0
            },
    )
}

/// The file type identifier.
#[verifier::opaque]
pub open spec fn fti(creator: Option<Seq<char>>) -> Seq<u8> {
    seq![0x76u8, 0x68, 0x64, 0x78, 0x66, 0x69, 0x6c, 0x65]  // "vhdxfile"
         + zeros(8) + creator_field(creator)
}

/// A header before its checksum is set.
pub open spec fn header_fields(
    sequence: int,
    file_write: Seq<u8>,
    data_write: Seq<u8>,
    log: Seq<u8>,
    log_version: int,
    version: int,
    log_length: int,
    log_offset: int,
) -> Seq<u8> {
    seq![0x68u8, 0x65, 0x61, 0x64]  // "head"
         + zeros(4) + le64(sequence) + file_write + data_write + log + le16(log_version) + le16(
        version,
    ) + le32(log_length) + le64(log_offset) + zeros(4016)
}

/// A header without a log, version 1.
#[verifier::opaque]
pub open spec fn header(sequence: int, file_write: Seq<u8>, data_write: Seq<u8>) -> Seq<u8> {
    with_crc32c(header_fields(sequence, file_write, data_write, zeros(16), 0, 1, 0, 0))
}

/// A region of the file.
#[derive(Copy, Clone)]
pub struct RegionEntry {
    pub guid: [u8; 16],
    pub file_offset: u64,
    pub length: u64,
    pub required: u32,
}

pub open spec fn region_entry(e: RegionEntry) -> Seq<u8> {
    e.guid@ + le64(e.file_offset as int) + le64(e.length as int) + le32(e.required as int)
}

pub open spec fn region_entries(entries: Seq<RegionEntry>) -> Seq<u8>
    decreases entries.len(),
{
    if entries.len() == 0 {
        seq![]
    } else {
        region_entries(entries.drop_last()) + region_entry(entries.last())
    }
}

/// A region table before its checksum is set.
pub open spec fn region_fields(entries: Seq<RegionEntry>) -> Seq<u8> {
    let b = seq![0x72u8, 0x65, 0x67, 0x69]  // "regi"
         + zeros(4) + le32(entries.len() as int) + zeros(4) + region_entries(entries);
    b + zeros((0x1_0000 - b.len()) as nat)
}

/// GUID of the metadata region.
pub open spec fn metadata_region_guid() -> Seq<u8> {
    seq![
        0x06u8, 0xa2, 0x7c, 0x8b, 0x90, 0x47, 0x9a, 0x4b,
        0xb8, 0xfe, 0x57, 0x5f, 0x05, 0x0f, 0x88, 0x6e,
    ]
}

/// The region table with the metadata region as its one entry.
#[verifier::opaque]
pub open spec fn region_table() -> Seq<u8> {
    with_crc32c(
        seq![0x72u8, 0x65, 0x67, 0x69]  // "regi"
             + zeros(4) + le32(1) + zeros(4) + (metadata_region_guid() + le64(0x10_0000) + le64(
            0x10_0000,
        ) + le32(1)) + zeros(0xFFCC),
    )
}

pub open spec fn file_params_guid() -> Seq<u8> {
    seq![
        0x37u8, 0x67, 0xa1, 0xca, 0x36, 0xfa, 0x43, 0x4d,
        0xb3, 0xb6, 0x33, 0xf0, 0xaa, 0x44, 0xe7, 0x6b,
    ]
}

pub open spec fn disk_size_guid() -> Seq<u8> {
    seq![
        0x24u8, 0x42, 0xa5, 0x2f, 0x1b, 0xcd, 0x76, 0x48,
        0xb2, 0x11, 0x5d, 0xbe, 0xd8, 0x3b, 0xf4, 0xb8,
    ]
}

pub open spec fn disk_id_guid() -> Seq<u8> {
    seq![
        0xabu8, 0x12, 0xca, 0xbe, 0xe6, 0xb2, 0x23, 0x45,
        0x93, 0xef, 0xc3, 0x09, 0xe0, 0x00, 0xc7, 0x46,
    ]
}

pub open spec fn logical_sector_guid() -> Seq<u8> {
    seq![
        0x1du8, 0xbf, 0x41, 0x81, 0x6f, 0xa9, 0x09, 0x47,
        0xba, 0x47, 0xf2, 0x33, 0xa8, 0xfa, 0xab, 0x5f,
    ]
}

pub open spec fn physical_sector_guid() -> Seq<u8> {
    seq![
        0xc7u8, 0x48, 0xa3, 0xcd, 0x5d, 0x44, 0x71, 0x44,
        0x9c, 0xc9, 0xe9, 0x88, 0x52, 0x51, 0xc5, 0x56,
    ]
}

/// An entry of the metadata table: item, offset, length, flags.
pub open spec fn metadata_entry(guid: Seq<u8>, offset: int, length: int, flags: int) -> Seq<u8> {
    guid + le32(offset) + le32(length) + le32(flags) + zeros(4)
}

/// The metadata table with its five entries.
#[verifier::opaque]
pub open spec fn metadata_table() -> Seq<u8> {
    seq![0x6du8, 0x65, 0x74, 0x61, 0x64, 0x61, 0x74, 0x61]  // "metadata"
         + zeros(2) + le16(5) + zeros(20) + metadata_entry(file_params_guid(), 0x1_0000, 8, 5)
        + metadata_entry(disk_size_guid(), 0x1_0008, 8, 7) + metadata_entry(
        disk_id_guid(),
        0x1_0010,
        16,
        7,
    ) + metadata_entry(logical_sector_guid(), 0x1_0020, 4, 7) + metadata_entry(
        physical_sector_guid(),
        0x1_0028,
        4,
        7,
    )
}

/// The metadata items one behind another, each at a multiple of 8.
pub open spec fn metadata_items(
    block_size: int,
    virtual_size: int,
    disk_id: Seq<u8>,
    logical: int,
    physical: int,
) -> Seq<u8> {
    le32(block_size) + le32(1) + le64(virtual_size) + disk_id + le32(logical) + zeros(4) + le32(
        physical,
    )
}

/// The metadata region: the table, the items at 64 KiB, zeros up to 1 MiB.
#[verifier::opaque]
pub open spec fn metadata_region(
    block_size: int,
    virtual_size: int,
    disk_id: Seq<u8>,
    logical: int,
    physical: int,
) -> Seq<u8> {
    metadata_table() + zeros(0xFF40) + metadata_items(
        block_size,
        virtual_size,
        disk_id,
        logical,
        physical,
    ) + zeros(0xE_FFD4)
}

/// The bytes up to the next multiple of 1 MiB.
pub open spec fn pad_to_mib(n: int) -> int {
    (n + 0xF_FFFF) / 0x10_0000 * 0x10_0000 - n
}

/// The whole file for three GUIDs.
pub open spec fn vhdx_file(
    payload: Seq<u8>,
    block_size: int,
    creator: Option<Seq<char>>,
    logical: int,
    physical: int,
    file_write: Seq<u8>,
    data_write: Seq<u8>,
    disk_id: Seq<u8>,
) -> Seq<u8> {
    fti(creator) + zeros(0xFDF0) + header(2, file_write, data_write) + zeros(0xF000) + header(
        1,
        file_write,
        data_write,
    ) + zeros(0xF000) + region_table() + region_table() + zeros(0xB_0000) + metadata_region(
        block_size,
        payload.len() as int,
        disk_id,
        logical,
        physical,
    ) + payload + zeros(pad_to_mib(payload.len() as int) as nat)
}


// ---- lengths -------------------------------------------------------------

pub broadcast proof fn lemma_fti_len(creator: Option<Seq<char>>)
    ensures
        (#[trigger] fti(creator)).len() == 528,
{
    reveal(fti);
}

pub broadcast proof fn lemma_header_len(sequence: int, file_write: Seq<u8>, data_write: Seq<u8>)
    requires
        file_write.len() == 16,
        data_write.len() == 16,
    ensures
        (#[trigger] header(sequence, file_write, data_write)).len() == 4096,
{
    broadcast use group_le_len;
    reveal(header);
}

pub broadcast proof fn lemma_region_table_len()
    ensures
        (#[trigger] region_table()).len() == 0x1_0000,
{
    broadcast use group_le_len;
    reveal(region_table);
}

pub broadcast proof fn lemma_metadata_table_len()
    ensures
        (#[trigger] metadata_table()).len() == 192,
{
    broadcast use group_le_len;
    reveal(metadata_table);
}

pub broadcast proof fn lemma_metadata_region_len(
    block_size: int,
    virtual_size: int,
    disk_id: Seq<u8>,
    logical: int,
    physical: int,
)
    requires
        disk_id.len() == 16,
    ensures
        (#[trigger] metadata_region(block_size, virtual_size, disk_id, logical, physical)).len()
            == 0x10_0000,
{
    broadcast use {group_le_len, lemma_metadata_table_len};
    reveal(metadata_region);
}

pub broadcast group group_vhdx_len {
    lemma_fti_len,
    lemma_header_len,
    lemma_region_table_len,
    lemma_metadata_table_len,
    lemma_metadata_region_len,
}

// ---- writing ---------------------------------------------------------------

/// Sets the CRC-32C in the second dword.
fn set_crc32c(b: &mut Vec<u8>)
    requires
        old(b)@.len() >= 8,
    ensures
        final(b)@ == with_crc32c(old(b)@),
{
    broadcast use group_le_len;
    let ghost start = b@;
    put_u32(b, 4, 0);
    proof {
        assert(le32(0) =~= zeros(4)) by {
            reveal(le32);
        }
    }
    let crc: u32 = crc32c(b.as_slice());
    put_u32(b, 4, crc);
    assert(b@ =~= with_crc32c(start));
}

/// Appends the file type identifier.
fn write_fti(w: &mut Vec<u8>, creator: Option<&str>)
    ensures
        final(w)@ == old(w)@ + fti(
            opt_view(creator),
        ),
{
    let ghost model = opt_view(creator);
    let ghost start = w@;
    w.push(0x76);
    w.push(0x68);
    w.push(0x64);
    w.push(0x78);
    w.push(0x66);
    w.push(0x69);
    w.push(0x6c);
    w.push(0x65);
    push_zeros(w, 8);
    let mut field: Vec<u8> = Vec::new();
    match creator {
        Some(c) => push_utf16(&mut field, c),
        None => {},
    }
    field.truncate(512);
    let n: usize = field.len();
    push_zeros(&mut field, 512 - n);
    assert(field@ =~= creator_field(model));
    w.append(&mut field);
    proof {
        reveal(fti);
        assert(w@ =~= start + fti(model));
    }
}

/// A header (4 KiB) before its checksum is set.
fn build_header(
    sequence_number: u64,
    file_write_guid: &[u8; 16],
    data_write_guid: &[u8; 16],
    log_guid: &[u8; 16],
    log_version: u16,
    version: u16,
    log_length: u32,
    log_offset: u64,
) -> (h: Vec<u8>)
    ensures
        h@ == header_fields(
            sequence_number as int,
            file_write_guid@,
            data_write_guid@,
            log_guid@,
            log_version as int,
            version as int,
            log_length as int,
            log_offset as int,
        ),
        h@.len() == 4096,
{
    broadcast use group_le_len;
    let mut h: Vec<u8> = Vec::new();
    h.push(0x68);
    h.push(0x65);
    h.push(0x61);
    h.push(0x64);
    push_zeros(&mut h, 4);
    push_u64(&mut h, sequence_number);
    push_bytes(&mut h, file_write_guid.as_slice());
    push_bytes(&mut h, data_write_guid.as_slice());
    push_bytes(&mut h, log_guid.as_slice());
    push_u16(&mut h, log_version);
    push_u16(&mut h, version);
    push_u32(&mut h, log_length);
    push_u64(&mut h, log_offset);
    push_zeros(&mut h, 4016);
    assert(h@ =~= header_fields(
        sequence_number as int,
        file_write_guid@,
        data_write_guid@,
        log_guid@,
        log_version as int,
        version as int,
        log_length as int,
        log_offset as int,
    ));
    h
}

proof fn lemma_region_entries_len(entries: Seq<RegionEntry>)
    ensures
        region_entries(entries).len() == 36 * entries.len(),
    decreases entries.len(),
{
    broadcast use group_le_len;
    if entries.len() > 0 {
        lemma_region_entries_len(entries.drop_last());
    }
}

/// A region table (64 KiB) before its checksum is set.
fn build_region_table(entries: &Vec<RegionEntry>) -> (rt: Vec<u8>)
    requires
        36 * entries@.len() + 16 <= 0x1_0000,
    ensures
        rt@ == region_fields(entries@),
        rt@.len() == 0x1_0000,
{
    broadcast use group_le_len;
    let mut rt: Vec<u8> = Vec::new();
    rt.push(0x72);
    rt.push(0x65);
    rt.push(0x67);
    rt.push(0x69);
    push_zeros(&mut rt, 4);
    push_u32(&mut rt, entries.len() as u32);
    push_zeros(&mut rt, 4);
    let ghost head = rt@;
    let mut i: usize = 0;
    assert(rt@ =~= head + region_entries(entries@.take(0)));
    while i < entries.len()
        invariant
            i <= entries@.len(),
            rt@ == head + region_entries(entries@.take(i as int)),
        decreases entries@.len() - i,
    {
        let e: RegionEntry = entries[i];
        let ghost before = rt@;
        push_bytes(&mut rt, e.guid.as_slice());
        push_u64(&mut rt, e.file_offset);
        push_u64(&mut rt, e.length);
        push_u32(&mut rt, e.required);
        proof {
            assert(entries@.take(i + 1).drop_last() =~= entries@.take(i as int));
            assert(entries@.take(i + 1).last() == e);
            assert(rt@ =~= head + region_entries(entries@.take(i + 1)));
        }
        i += 1;
    }
    proof {
        assert(entries@.take(i as int) =~= entries@);
        lemma_region_entries_len(entries@);
    }
    let n: usize = rt.len();
    push_zeros(&mut rt, 0x1_0000 - n);
    assert(rt@ =~= region_fields(entries@));
    rt
}

/// Appends an entry of the metadata table.
fn push_metadata_entry(m: &mut Vec<u8>, guid: &[u8; 16], offset: u32, length: u32, flags: u32)
    ensures
        final(m)@ == old(m)@ + metadata_entry(guid@, offset as int, length as int, flags as int),
{
    push_bytes(m, guid.as_slice());
    push_u32(m, offset);
    push_u32(m, length);
    push_u32(m, flags);
    push_zeros(m, 4);
    assert(m@ =~= old(m)@ + metadata_entry(guid@, offset as int, length as int, flags as int));
}

fn push_metadata_table(m: &mut Vec<u8>)
    ensures
        final(m)@ == old(m)@ + metadata_table(),
{
    let ghost start = m@;
    m.push(0x6d);
    m.push(0x65);
    m.push(0x74);
    m.push(0x61);
    m.push(0x64);
    m.push(0x61);
    m.push(0x74);
    m.push(0x61);
    push_zeros(m, 2);
    push_u16(m, 5);
    push_zeros(m, 20);
    let params: [u8; 16] = [
        0x37, 0x67, 0xa1, 0xca, 0x36, 0xfa, 0x43, 0x4d,
        0xb3, 0xb6, 0x33, 0xf0, 0xaa, 0x44, 0xe7, 0x6b,
    ];
    let size: [u8; 16] = [
        0x24, 0x42, 0xa5, 0x2f, 0x1b, 0xcd, 0x76, 0x48,
        0xb2, 0x11, 0x5d, 0xbe, 0xd8, 0x3b, 0xf4, 0xb8,
    ];
    let id: [u8; 16] = [
        0xab, 0x12, 0xca, 0xbe, 0xe6, 0xb2, 0x23, 0x45,
        0x93, 0xef, 0xc3, 0x09, 0xe0, 0x00, 0xc7, 0x46,
    ];
    let logical: [u8; 16] = [
        0x1d, 0xbf, 0x41, 0x81, 0x6f, 0xa9, 0x09, 0x47,
        0xba, 0x47, 0xf2, 0x33, 0xa8, 0xfa, 0xab, 0x5f,
    ];
    let physical: [u8; 16] = [
        0xc7, 0x48, 0xa3, 0xcd, 0x5d, 0x44, 0x71, 0x44,
        0x9c, 0xc9, 0xe9, 0x88, 0x52, 0x51, 0xc5, 0x56,
    ];
    proof {
        assert(params@ =~= file_params_guid());
        assert(size@ =~= disk_size_guid());
        assert(id@ =~= disk_id_guid());
        assert(logical@ =~= logical_sector_guid());
        assert(physical@ =~= physical_sector_guid());
    }
    push_metadata_entry(m, &params, 0x1_0000, 8, 5);
    push_metadata_entry(m, &size, 0x1_0008, 8, 7);
    push_metadata_entry(m, &id, 0x1_0010, 16, 7);
    push_metadata_entry(m, &logical, 0x1_0020, 4, 7);
    push_metadata_entry(m, &physical, 0x1_0028, 4, 7);
    proof {
        reveal(metadata_table);
        assert(m@ =~= start + metadata_table());
    }
}

/// The metadata region (1 MiB).
fn build_metadata_region(
    block_size: u32,
    virtual_size: u64,
    disk_id: &[u8; 16],
    logical_sector_size: u32,
    physical_sector_size: u32,
) -> (m: Vec<u8>)
    ensures
        m@ == metadata_region(
            block_size as int,
            virtual_size as int,
            disk_id@,
            logical_sector_size as int,
            physical_sector_size as int,
        ),
{
    broadcast use {group_le_len, lemma_metadata_table_len};
    let mut m: Vec<u8> = Vec::new();
    push_metadata_table(&mut m);
    push_zeros(&mut m, 0xFF40);
    push_u32(&mut m, block_size);
    push_u32(&mut m, 1);
    push_u64(&mut m, virtual_size);
    push_bytes(&mut m, disk_id.as_slice());
    push_u32(&mut m, logical_sector_size);
    push_zeros(&mut m, 4);
    push_u32(&mut m, physical_sector_size);
    push_zeros(&mut m, 0xE_FFD4);
    proof {
        reveal(metadata_region);
        assert(m@ =~= metadata_region(
            block_size as int,
            virtual_size as int,
            disk_id@,
            logical_sector_size as int,
            physical_sector_size as int,
        ));
    }
    m
}

/// `Uuid::new_v4` and `Uuid::to_bytes_le`: a random UUID with its first three
/// fields little-endian. Version 4 stands in the high half of byte 7 and the
/// variant in the two high bits of byte 8; the other bits are left open.
#[verifier::external_body]
fn random_guid() -> (g: [u8; 16])
    ensures
        g@[7] & 0xF0 == 0x40,
        g@[8] & 0xC0 == 0x80,
{
    uuid::Uuid::new_v4().to_bytes_le()
}

/// A random (version 4) GUID in the byte order of a GPT.
pub open spec fn is_random_guid(g: Seq<u8>) -> bool {
    &&& g.len() == 16
    &&& g[7] & 0xF0 == 0x40
    &&& g[8] & 0xC0 == 0x80
}

/// The file of `build_fixed_vhdx` for given GUIDs.
pub fn build_fixed_vhdx_with(
    payload: &[u8],
    block_size: u32,
    creator: Option<&str>,
    logical_sector_size: u32,
    physical_sector_size: u32,
    file_write_guid: &[u8; 16],
    data_write_guid: &[u8; 16],
    disk_id: &[u8; 16],
) -> (r: Result<Vec<u8>, VhdxError>)
    requires
        payload@.len() <= usize::MAX - 0x10_0000,
    ensures
        match r {
            Ok(file) => payload@.len() % 512 == 0 && valid_block_size(block_size as int) && file@
                == vhdx_file(
                payload@,
                block_size as int,
                opt_view(creator),
                logical_sector_size as int,
                physical_sector_size as int,
                file_write_guid@,
                data_write_guid@,
                disk_id@,
            ),
            Err(VhdxError::PayloadSize) => payload@.len() % 512 != 0,
            Err(VhdxError::BlockSize) => payload@.len() % 512 == 0 && !valid_block_size(
                block_size as int,
            ),
        },
{
    broadcast use group_le_len;
    if payload.len() % 512 != 0 {
        return Err(VhdxError::PayloadSize);
    }
    let valid: bool = block_size == 0x10_0000 || block_size == 0x20_0000 || block_size == 0x40_0000
        || block_size == 0x80_0000 || block_size == 0x100_0000 || block_size == 0x200_0000
        || block_size == 0x400_0000 || block_size == 0x800_0000 || block_size == 0x1000_0000;
    if !valid {
        return Err(VhdxError::BlockSize);
    }
    let no_log: [u8; 16] = [0u8; 16];
    assert(no_log@ =~= zeros(16));
    let mut current: Vec<u8> = build_header(
        2,
        file_write_guid,
        data_write_guid,
        &no_log,
        0,
        1,
        0,
        0,
    );
    set_crc32c(&mut current);
    let mut other: Vec<u8> = build_header(1, file_write_guid, data_write_guid, &no_log, 0, 1, 0, 0);
    set_crc32c(&mut other);
    let mut rt1: Vec<u8> = build_metadata_table();
    let mut rt2: Vec<u8> = build_metadata_table();
    let mut meta: Vec<u8> = build_metadata_region(
        block_size,
        payload.len() as u64,
        disk_id,
        logical_sector_size,
        physical_sector_size,
    );
    proof {
        reveal(header);
    }

    let mut w: Vec<u8> = Vec::new();
    write_fti(&mut w, creator);
    push_zeros(&mut w, 0xFDF0);
    w.append(&mut current);
    push_zeros(&mut w, 0xF000);
    w.append(&mut other);
    push_zeros(&mut w, 0xF000);
    w.append(&mut rt1);
    w.append(&mut rt2);
    push_zeros(&mut w, 0xB_0000);
    w.append(&mut meta);
    push_bytes(&mut w, payload);
    let pad: usize = (payload.len() + 0xF_FFFF) / 0x10_0000 * 0x10_0000 - payload.len();
    push_zeros(&mut w, pad);
    assert(w@ =~= vhdx_file(
        payload@,
        block_size as int,
        opt_view(creator),
        logical_sector_size as int,
        physical_sector_size as int,
        file_write_guid@,
        data_write_guid@,
        disk_id@,
    ));
    Ok(w)
}

/// The region table with the metadata region as its one entry.
fn build_metadata_table() -> (rt: Vec<u8>)
    ensures
        rt@ == region_table(),
{
    broadcast use group_le_len;
    let guid: [u8; 16] = [
        0x06, 0xa2, 0x7c, 0x8b, 0x90, 0x47, 0x9a, 0x4b,
        0xb8, 0xfe, 0x57, 0x5f, 0x05, 0x0f, 0x88, 0x6e,
    ];
    assert(guid@ =~= metadata_region_guid());
    let mut entries: Vec<RegionEntry> = Vec::new();
    entries.push(RegionEntry { guid, file_offset: 0x10_0000, length: 0x10_0000, required: 1 });
    let mut rt: Vec<u8> = build_region_table(&entries);
    proof {
        reveal(region_table);
        let e = entries@[0];
        assert(entries@ =~= seq![e]);
        assert(entries@.drop_last() =~= seq![]);
        reveal_with_fuel(region_entries, 2);
        assert(region_entries(entries@) =~= region_entry(e));
        assert(rt@ =~= seq![0x72u8, 0x65, 0x67, 0x69] + zeros(4) + le32(1) + zeros(4)
            + region_entry(e) + zeros(0xFFCC));
    }
    set_crc32c(&mut rt);
    rt
}

/// Builds a fixed VHDX file around a raw volume.
///
/// * `payload`: the volume, a multiple of 512 bytes
/// * `block_size`: power of two from 1 MiB to 256 MiB
/// * `creator`: creator string, cut to 512 bytes of UTF-16LE
/// * `logical_sector_size`, `physical_sector_size`: 512 or 4096
///
/// The GUIDs of the file are random.
pub fn build_fixed_vhdx(
    payload: &[u8],
    block_size: u32,
    creator: Option<&str>,
    logical_sector_size: u32,
    physical_sector_size: u32,
) -> (r: Result<Vec<u8>, VhdxError>)
    requires
        payload@.len() <= usize::MAX - 0x10_0000,
    ensures
        match r {
            Ok(file) => payload@.len() % 512 == 0 && valid_block_size(block_size as int) && exists|
                file_write: Seq<u8>,
                data_write: Seq<u8>,
                disk_id: Seq<u8>,
            |
                is_random_guid(file_write) && is_random_guid(data_write) && is_random_guid(disk_id)
                    && file@ == #[trigger] vhdx_file(
                    payload@,
                    block_size as int,
                    opt_view(creator),
                    logical_sector_size as int,
                    physical_sector_size as int,
                    file_write,
                    data_write,
                    disk_id,
                ),
            Err(VhdxError::PayloadSize) => payload@.len() % 512 != 0,
            Err(VhdxError::BlockSize) => payload@.len() % 512 == 0 && !valid_block_size(
                block_size as int,
            ),
        },
{
    let disk_id: [u8; 16] = random_guid();
    let file_write: [u8; 16] = random_guid();
    let data_write: [u8; 16] = random_guid();
    assert(is_random_guid(disk_id@) && is_random_guid(file_write@) && is_random_guid(data_write@));
    build_fixed_vhdx_with(
        payload,
        block_size,
        creator,
        logical_sector_size,
        physical_sector_size,
        &file_write,
        &data_write,
        &disk_id,
    )
}

// ---- laws -------------------------------------------------------------------

/// Where the parts of a file stand; above all, that its payload is read back
/// from 2 MiB on.
pub proof fn law_vhdx_layout(
    payload: Seq<u8>,
    block_size: int,
    creator: Option<Seq<char>>,
    logical: int,
    physical: int,
    file_write: Seq<u8>,
    data_write: Seq<u8>,
    disk_id: Seq<u8>,
)
    requires
        file_write.len() == 16,
        data_write.len() == 16,
        disk_id.len() == 16,
    ensures
        ({
            let f = vhdx_file(
                payload,
                block_size,
                creator,
                logical,
                physical,
                file_write,
                data_write,
                disk_id,
            );
            &&& f.len() % 0x10_0000 == 0
            &&& 0x20_0000 + payload.len() <= f.len() < 0x30_0000 + payload.len()
            &&& f.take(528) == fti(creator)
            &&& f.subrange(0x1_0000, 0x1_1000) == header(2, file_write, data_write)
            &&& f.subrange(0x2_0000, 0x2_1000) == header(1, file_write, data_write)
            &&& f.subrange(0x3_0000, 0x4_0000) == region_table()
            &&& f.subrange(0x4_0000, 0x5_0000) == region_table()
            &&& f.subrange(0x10_0000, 0x20_0000) == metadata_region(
                block_size,
                payload.len() as int,
                disk_id,
                logical,
                physical,
            )
            &&& f.subrange(0x20_0000, 0x20_0000 + payload.len() as int) == payload
            &&& forall|i: int|
                0x20_0000 + payload.len() <= i < f.len() ==> #[trigger] f[i] == 0
        }),
{
    broadcast use group_vhdx_len;
    let f = vhdx_file(
        payload,
        block_size,
        creator,
        logical,
        physical,
        file_write,
        data_write,
        disk_id,
    );
    let m = metadata_region(block_size, payload.len() as int, disk_id, logical, physical);
    assert(f.take(528) =~= fti(creator));
    assert(f.subrange(0x1_0000, 0x1_1000) =~= header(2, file_write, data_write));
    assert(f.subrange(0x2_0000, 0x2_1000) =~= header(1, file_write, data_write));
    assert(f.subrange(0x3_0000, 0x4_0000) =~= region_table());
    assert(f.subrange(0x4_0000, 0x5_0000) =~= region_table());
    assert(f.subrange(0x10_0000, 0x20_0000) =~= m);
    assert(f.subrange(0x20_0000, 0x20_0000 + payload.len() as int) =~= payload);
}

/// The checksum in `b` is that of `b` with zeros in its place.
pub open spec fn checksum_holds(b: Seq<u8>) -> bool {
    get32(b, 4) == crc32_of(CRC32C_POLY, overlay(b, 4, zeros(4)))
}

proof fn lemma_with_crc32c(b: Seq<u8>)
    requires
        b.len() >= 8,
    ensures
        checksum_holds(with_crc32c(b)),
{
    broadcast use group_le_len;
    let crc = crc32_of(CRC32C_POLY, overlay(b, 4, zeros(4)));
    lemma_le32_round_trip(crc as int);
    let c = with_crc32c(b);
    assert(get32(c, 4) == get32(le32(crc as int), 0));
    assert(overlay(c, 4, zeros(4)) =~= overlay(b, 4, zeros(4)));
}

/// The checksums of headers and region tables hold.
pub proof fn law_vhdx_checksums(sequence: int, file_write: Seq<u8>, data_write: Seq<u8>)
    requires
        file_write.len() == 16,
        data_write.len() == 16,
    ensures
        checksum_holds(header(sequence, file_write, data_write)),
        checksum_holds(region_table()),
{
    broadcast use group_le_len;
    reveal(header);
    reveal(region_table);
    lemma_with_crc32c(
        header_fields(sequence, file_write, data_write, zeros(16), 0, 1, 0, 0),
    );
    lemma_with_crc32c(
        seq![0x72u8, 0x65, 0x67, 0x69] + zeros(4) + le32(1) + zeros(4) + (metadata_region_guid()
            + le64(0x10_0000) + le64(0x10_0000) + le32(1)) + zeros(0xFFCC),
    );
}

/// Where the entry of metadata item `k` says that the item stands.
pub open spec fn item_offset(m: Seq<u8>, k: int) -> int {
    get32(m, 32 + 32 * k + 16)
}

/// How long the entry of metadata item `k` says that the item is.
pub open spec fn item_length(m: Seq<u8>, k: int) -> int {
    get32(m, 32 + 32 * k + 20)
}

/// The metadata item `k`, read where its entry says.
pub open spec fn item(m: Seq<u8>, k: int) -> Seq<u8> {
    m.subrange(item_offset(m, k), item_offset(m, k) + item_length(m, k))
}

proof fn lemma_entry_fields(
    head: Seq<u8>,
    guid: Seq<u8>,
    offset: int,
    length: int,
    flags: int,
    tail: Seq<u8>,
)
    requires
        guid.len() == 16,
        0 <= offset < 0x1_0000_0000,
        0 <= length < 0x1_0000_0000,
    ensures
        ({
            let t = head + metadata_entry(guid, offset, length, flags) + tail;
            &&& get32(t, head.len() as int + 16) == offset
            &&& get32(t, head.len() as int + 20) == length
        }),
{
    broadcast use group_le_len;
    lemma_le32_round_trip(offset);
    lemma_le32_round_trip(length);
    let t = head + metadata_entry(guid, offset, length, flags) + tail;
    assert(get32(t, head.len() as int + 16) == get32(le32(offset), 0));
    assert(get32(t, head.len() as int + 20) == get32(le32(length), 0));
}

/// Six pieces, with each of the last five in the middle.
proof fn lemma_pieces(
    h: Seq<u8>,
    a: Seq<u8>,
    b: Seq<u8>,
    c: Seq<u8>,
    d: Seq<u8>,
    e: Seq<u8>,
)
    ensures
        h + a + b + c + d + e == h + a + (b + c + d + e),
        h + a + b + c + d + e == (h + a) + b + (c + d + e),
        h + a + b + c + d + e == (h + a + b) + c + (d + e),
        h + a + b + c + d + e == (h + a + b + c) + d + e,
        h + a + b + c + d + e == (h + a + b + c + d) + e + seq![],
{
    let t = h + a + b + c + d + e;
    assert(t =~= h + a + (b + c + d + e));
    assert(t =~= (h + a) + b + (c + d + e));
    assert(t =~= (h + a + b) + c + (d + e));
    assert(t =~= (h + a + b + c) + d + e);
    assert(t =~= (h + a + b + c + d) + e + seq![]);
}

proof fn lemma_entry_len(guid: Seq<u8>, offset: int, length: int, flags: int)
    requires
        guid.len() == 16,
    ensures
        metadata_entry(guid, offset, length, flags).len() == 32,
{
    broadcast use group_le_len;
}

/// What the five entries of the metadata table say.
proof fn lemma_table_entries()
    ensures
        ({
            let t = metadata_table();
            &&& get32(t, 48) == 0x1_0000 && get32(t, 52) == 8
            &&& get32(t, 80) == 0x1_0008 && get32(t, 84) == 8
            &&& get32(t, 112) == 0x1_0010 && get32(t, 116) == 16
            &&& get32(t, 144) == 0x1_0020 && get32(t, 148) == 4
            &&& get32(t, 176) == 0x1_0028 && get32(t, 180) == 4
        }),
{
    reveal(metadata_table);
    let h = seq![0x6du8, 0x65, 0x74, 0x61, 0x64, 0x61, 0x74, 0x61] + zeros(2) + le16(5) + zeros(20);
    assert(h.len() == 32) by {
        broadcast use group_le_len;
    }
    let a = metadata_entry(file_params_guid(), 0x1_0000, 8, 5);
    let b = metadata_entry(disk_size_guid(), 0x1_0008, 8, 7);
    let c = metadata_entry(disk_id_guid(), 0x1_0010, 16, 7);
    let d = metadata_entry(logical_sector_guid(), 0x1_0020, 4, 7);
    let e = metadata_entry(physical_sector_guid(), 0x1_0028, 4, 7);
    lemma_entry_len(file_params_guid(), 0x1_0000, 8, 5);
    lemma_entry_len(disk_size_guid(), 0x1_0008, 8, 7);
    lemma_entry_len(disk_id_guid(), 0x1_0010, 16, 7);
    lemma_entry_len(logical_sector_guid(), 0x1_0020, 4, 7);
    lemma_pieces(h, a, b, c, d, e);
    lemma_entry_fields(h, file_params_guid(), 0x1_0000, 8, 5, b + c + d + e);
    lemma_entry_fields(h + a, disk_size_guid(), 0x1_0008, 8, 7, c + d + e);
    lemma_entry_fields(h + a + b, disk_id_guid(), 0x1_0010, 16, 7, d + e);
    lemma_entry_fields(h + a + b + c, logical_sector_guid(), 0x1_0020, 4, 7, e);
    lemma_entry_fields(h + a + b + c + d, physical_sector_guid(), 0x1_0028, 4, 7, seq![]);
}

proof fn lemma_items(
    m: Seq<u8>,
    block_size: int,
    virtual_size: int,
    disk_id: Seq<u8>,
    logical: int,
    physical: int,
)
    requires
        disk_id.len() == 16,
        m == metadata_region(block_size, virtual_size, disk_id, logical, physical),
    ensures
        m.len() == 0x10_0000,
        m.take(192) == metadata_table(),
        m.subrange(0x1_0000, 0x1_0008) == le32(block_size) + le32(1),
        m.subrange(0x1_0008, 0x1_0010) == le64(virtual_size),
        m.subrange(0x1_0010, 0x1_0020) == disk_id,
        m.subrange(0x1_0020, 0x1_0024) == le32(logical),
        m.subrange(0x1_0028, 0x1_002C) == le32(physical),
{
    broadcast use {group_le_len, lemma_metadata_table_len};
    reveal(metadata_region);
    assert(m.take(192) =~= metadata_table());
    assert(m.subrange(0x1_0000, 0x1_0008) =~= le32(block_size) + le32(1));
    assert(m.subrange(0x1_0008, 0x1_0010) =~= le64(virtual_size));
    assert(m.subrange(0x1_0010, 0x1_0020) =~= disk_id);
    assert(m.subrange(0x1_0020, 0x1_0024) =~= le32(logical));
    assert(m.subrange(0x1_0028, 0x1_002C) =~= le32(physical));
}

/// Each of the five metadata items stands where its entry in the table says:
/// file parameters, disk size, disk id, logical and physical sector size.
pub proof fn law_vhdx_metadata(
    block_size: int,
    virtual_size: int,
    disk_id: Seq<u8>,
    logical: int,
    physical: int,
)
    requires
        disk_id.len() == 16,
    ensures
        ({
            let m = metadata_region(block_size, virtual_size, disk_id, logical, physical);
            &&& m.len() == 0x10_0000
            &&& m.take(192) == metadata_table()
            &&& item(m, 0) == le32(block_size) + le32(1)
            &&& item(m, 1) == le64(virtual_size)
            &&& item(m, 2) == disk_id
            &&& item(m, 3) == le32(logical)
            &&& item(m, 4) == le32(physical)
            &&& item_offset(m, 4) == 0x1_0028
            &&& forall|k: int|
                0 <= k < 5 ==> (#[trigger] item_offset(m, k)) >= 0x1_0000 && item_offset(m, k) % 8
                    == 0
        }),
{
    let m = metadata_region(block_size, virtual_size, disk_id, logical, physical);
    let t = metadata_table();
    lemma_items(m, block_size, virtual_size, disk_id, logical, physical);
    lemma_table_entries();
    assert forall|i: int| 0 <= i < 192 implies #[trigger] m[i] == t[i] by {
        assert(m.take(192)[i] == m[i]);
    }
    assert forall|i: int| 0 <= i <= 188 implies #[trigger] get32(m, i) == get32(t, i) by {}
    assert(item_offset(m, 0) == 0x1_0000 && item_length(m, 0) == 8);
    assert(item_offset(m, 1) == 0x1_0008 && item_length(m, 1) == 8);
    assert(item_offset(m, 2) == 0x1_0010 && item_length(m, 2) == 16);
    assert(item_offset(m, 3) == 0x1_0020 && item_length(m, 3) == 4);
    assert(item_offset(m, 4) == 0x1_0028 && item_length(m, 4) == 4);
}

} // verus!
