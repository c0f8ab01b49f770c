//! What a reader finds in the files of virtual disks.

use crate::bytes::{
    get16, get32, get64, group_le_len, le16, le32, le64, lemma_le16_round_trip,
    lemma_le32_round_trip, lemma_le64_round_trip, zeros,
};
use crate::crc::{crc32_of, crc_bit, crc_bits, crc_register, CRC32C_POLY, CRC32_POLY};
use crate::disk_image::{
    capacity, disk_chunks, disk_footer, disk_header, disk_regions, law_disk_layout, with_crc32,
};
use crate::vhdx::{
    fti, header, header_fields, law_vhdx_layout, law_vhdx_metadata, metadata_region,
    metadata_table, region_table, valid_block_size, vhdx_file,
};
use vstd::prelude::*;

verus! {

// ---- reading ------------------------------------------------------------------------

proof fn lemma_inside(f: Seq<u8>, at: int, b: Seq<u8>, off: int)
    requires
        0 <= at,
        at + b.len() <= f.len(),
        f.subrange(at, at + b.len()) == b,
        0 <= off,
    ensures
        off + 2 <= b.len() ==> get16(f, at + off) == get16(b, off),
        off + 4 <= b.len() ==> get32(f, at + off) == get32(b, off),
        off + 8 <= b.len() ==> get64(f, at + off) == get64(b, off),
        off + 16 <= b.len() ==> f.subrange(at + off, at + off + 16) == b.subrange(off, off + 16),
        off + 4 <= b.len() ==> f.subrange(at + off, at + off + 4) == b.subrange(off, off + 4),
        off + 8 <= b.len() ==> f.subrange(at + off, at + off + 8) == b.subrange(off, off + 8),
{
    let s = f.subrange(at, at + b.len());
    assert forall|i: int| 0 <= i < b.len() implies #[trigger] b[i] == f[at + i] by {
        assert(s[i] == f[at + i]);
    }
    if off + 16 <= b.len() {
        assert(f.subrange(at + off, at + off + 16) =~= b.subrange(off, off + 16));
    }
    if off + 8 <= b.len() {
        assert(f.subrange(at + off, at + off + 8) =~= b.subrange(off, off + 8));
    }
    if off + 4 <= b.len() {
        assert(f.subrange(at + off, at + off + 4) =~= b.subrange(off, off + 4));
    }
}

// ---- fixed VHDX files --------------------------------------------------------------------

/// Whether a header at `at` has this sequence number and these GUIDs; it has no
/// log and is of version 1.
pub open spec fn header_at(
    f: Seq<u8>,
    at: int,
    sequence: int,
    file_write: Seq<u8>,
    data_write: Seq<u8>,
) -> bool {
    &&& f.subrange(at, at + 4) == seq![0x68u8, 0x65, 0x61, 0x64]
    &&& get64(f, at + 8) == sequence
    &&& f.subrange(at + 16, at + 32) == file_write
    &&& f.subrange(at + 32, at + 48) == data_write
    &&& f.subrange(at + 48, at + 64) == zeros(16)
    &&& get16(f, at + 64) == 0
    &&& get16(f, at + 66) == 1
    &&& get32(f, at + 68) == 0
    &&& get64(f, at + 72) == 0
}

/// Whether a region table at `at` has one entry, the metadata region, which has
/// to be understood: 1 MiB at 1 MiB.
pub open spec fn regions_at(f: Seq<u8>, at: int) -> bool {
    &&& f.subrange(at, at + 4) == seq![0x72u8, 0x65, 0x67, 0x69]
    &&& get32(f, at + 8) == 1
    &&& f.subrange(at + 16, at + 32) == seq![
        0x06u8, 0xa2, 0x7c, 0x8b, 0x90, 0x47, 0x9a, 0x4b,
        0xb8, 0xfe, 0x57, 0x5f, 0x05, 0x0f, 0x88, 0x6e,
    ]
    &&& get64(f, at + 32) == 0x10_0000
    &&& get64(f, at + 40) == 0x10_0000
    &&& get32(f, at + 48) == 1
}

/// Whether the metadata table at `at` has an entry `k` for this item, with these
/// flags.
pub open spec fn item_at(f: Seq<u8>, at: int, k: int, guid: Seq<u8>, flags: int) -> bool {
    &&& f.subrange(at + 32 + 32 * k, at + 48 + 32 * k) == guid
    &&& get32(f, at + 56 + 32 * k) == flags
}

#[verifier::rlimit(40)]
proof fn lemma_header(sequence: int, file_write: Seq<u8>, data_write: Seq<u8>)
    requires
        0 <= sequence < 0x1_0000_0000_0000_0000,
        file_write.len() == 16,
        data_write.len() == 16,
    ensures
        header(sequence, file_write, data_write).len() == 4096,
        header_at(header(sequence, file_write, data_write), 0, sequence, file_write, data_write),
{
    broadcast use group_le_len;
    reveal(header);
    let b = header(sequence, file_write, data_write);
    let x = header_fields(sequence, file_write, data_write, zeros(16), 0, 1, 0, 0);
    assert forall|i: int| 0 <= i < 4096 && !(4 <= i < 8) implies #[trigger] b[i] == x[i] by {}
    lemma_le64_round_trip(sequence);
    lemma_le64_round_trip(0);
    lemma_le32_round_trip(0);
    lemma_le16_round_trip(0);
    lemma_le16_round_trip(1);
    assert(b.subrange(0, 4) =~= seq![0x68u8, 0x65, 0x61, 0x64]);
    assert(get64(b, 8) == get64(le64(sequence), 0));
    assert(b.subrange(16, 32) =~= file_write);
    assert(b.subrange(32, 48) =~= data_write);
    assert(b.subrange(48, 64) =~= zeros(16));
    assert(get16(b, 64) == get16(le16(0), 0));
    assert(get16(b, 66) == get16(le16(1), 0));
    assert(get32(b, 68) == get32(le32(0), 0));
    assert(get64(b, 72) == get64(le64(0), 0));
}

proof fn lemma_header_found(
    f: Seq<u8>,
    at: int,
    sequence: int,
    file_write: Seq<u8>,
    data_write: Seq<u8>,
)
    requires
        0 <= sequence < 0x1_0000_0000_0000_0000,
        file_write.len() == 16,
        data_write.len() == 16,
        0 <= at,
        at + 4096 <= f.len(),
        f.subrange(at, at + 4096) == header(sequence, file_write, data_write),
    ensures
        header_at(f, at, sequence, file_write, data_write),
{
    lemma_header(sequence, file_write, data_write);
    let b = header(sequence, file_write, data_write);
    lemma_inside(f, at, b, 0);
    lemma_inside(f, at, b, 8);
    lemma_inside(f, at, b, 16);
    lemma_inside(f, at, b, 32);
    lemma_inside(f, at, b, 48);
    lemma_inside(f, at, b, 64);
    lemma_inside(f, at, b, 66);
    lemma_inside(f, at, b, 68);
    lemma_inside(f, at, b, 72);
}

#[verifier::rlimit(40)]
proof fn lemma_regions()
    ensures
        region_table().len() == 0x1_0000,
        regions_at(region_table(), 0),
{
    broadcast use group_le_len;
    reveal(region_table);
    let g = crate::vhdx::metadata_region_guid();
    let x = seq![0x72u8, 0x65, 0x67, 0x69] + zeros(4) + le32(1) + zeros(4) + (g + le64(0x10_0000)
        + le64(0x10_0000) + le32(1)) + zeros(0xFFCC);
    let b = region_table();
    assert(x.len() == 0x1_0000);
    assert forall|i: int| 0 <= i < 0x1_0000 && !(4 <= i < 8) implies #[trigger] b[i] == x[i] by {}
    lemma_le64_round_trip(0x10_0000);
    lemma_le32_round_trip(1);
    assert(b.subrange(0, 4) =~= seq![0x72u8, 0x65, 0x67, 0x69]);
    assert(get32(b, 8) == get32(le32(1), 0));
    assert(b.subrange(16, 32) =~= g);
    assert(get64(b, 32) == get64(le64(0x10_0000), 0));
    assert(get64(b, 40) == get64(le64(0x10_0000), 0));
    assert(get32(b, 48) == get32(le32(1), 0));
}

proof fn lemma_regions_found(f: Seq<u8>, at: int)
    requires
        0 <= at,
        at + 0x1_0000 <= f.len(),
        f.subrange(at, at + 0x1_0000) == region_table(),
    ensures
        regions_at(f, at),
{
    lemma_regions();
    let b = region_table();
    lemma_inside(f, at, b, 0);
    lemma_inside(f, at, b, 8);
    lemma_inside(f, at, b, 16);
    lemma_inside(f, at, b, 32);
    lemma_inside(f, at, b, 40);
    lemma_inside(f, at, b, 48);
}

/// Whether a metadata table at `at` lists the five items that a fixed disk
/// needs, each of which has to be understood.
pub open spec fn table_at(f: Seq<u8>, at: int) -> bool {
    &&& f.subrange(at, at + 8) == seq![0x6du8, 0x65, 0x74, 0x61, 0x64, 0x61, 0x74, 0x61]
    &&& get16(f, at + 10) == 5
    &&& item_at(
        f,
        at,
        0,
        seq![
            0x37u8, 0x67, 0xa1, 0xca, 0x36, 0xfa, 0x43, 0x4d,
            0xb3, 0xb6, 0x33, 0xf0, 0xaa, 0x44, 0xe7, 0x6b,
        ],
        5,
    )
    &&& item_at(
        f,
        at,
        1,
        seq![
            0x24u8, 0x42, 0xa5, 0x2f, 0x1b, 0xcd, 0x76, 0x48,
            0xb2, 0x11, 0x5d, 0xbe, 0xd8, 0x3b, 0xf4, 0xb8,
        ],
        7,
    )
    &&& item_at(
        f,
        at,
        2,
        seq![
            0xabu8, 0x12, 0xca, 0xbe, 0xe6, 0xb2, 0x23, 0x45,
            0x93, 0xef, 0xc3, 0x09, 0xe0, 0x00, 0xc7, 0x46,
        ],
        7,
    )
    &&& item_at(
        f,
        at,
        3,
        seq![
            0x1du8, 0xbf, 0x41, 0x81, 0x6f, 0xa9, 0x09, 0x47,
            0xba, 0x47, 0xf2, 0x33, 0xa8, 0xfa, 0xab, 0x5f,
        ],
        7,
    )
    &&& item_at(
        f,
        at,
        4,
        seq![
            0xc7u8, 0x48, 0xa3, 0xcd, 0x5d, 0x44, 0x71, 0x44,
            0x9c, 0xc9, 0xe9, 0x88, 0x52, 0x51, 0xc5, 0x56,
        ],
        7,
    )
}

#[verifier::rlimit(40)]
proof fn lemma_table()
    ensures
        metadata_table().len() == 192,
        table_at(metadata_table(), 0),
{
    broadcast use group_le_len;
    reveal(metadata_table);
    let t = metadata_table();
    lemma_le16_round_trip(5);
    lemma_le32_round_trip(5);
    lemma_le32_round_trip(7);
    assert(t.subrange(0, 8) =~= seq![0x6du8, 0x65, 0x74, 0x61, 0x64, 0x61, 0x74, 0x61]);
    assert(get16(t, 10) == get16(le16(5), 0));
    assert(t.subrange(32, 48) =~= crate::vhdx::file_params_guid());
    assert(t.subrange(64, 80) =~= crate::vhdx::disk_size_guid());
    assert(t.subrange(96, 112) =~= crate::vhdx::disk_id_guid());
    assert(t.subrange(128, 144) =~= crate::vhdx::logical_sector_guid());
    assert(t.subrange(160, 176) =~= crate::vhdx::physical_sector_guid());
    assert(get32(t, 56) == get32(le32(5), 0));
    assert(get32(t, 88) == get32(le32(7), 0));
    assert(get32(t, 120) == get32(le32(7), 0));
    assert(get32(t, 152) == get32(le32(7), 0));
    assert(get32(t, 184) == get32(le32(7), 0));
}

proof fn lemma_table_found(f: Seq<u8>, at: int)
    requires
        0 <= at,
        at + 192 <= f.len(),
        f.subrange(at, at + 192) == metadata_table(),
    ensures
        table_at(f, at),
{
    lemma_table();
    let b = metadata_table();
    lemma_inside(f, at, b, 0);
    lemma_inside(f, at, b, 10);
    lemma_inside(f, at, b, 32);
    lemma_inside(f, at, b, 64);
    lemma_inside(f, at, b, 96);
    lemma_inside(f, at, b, 128);
    lemma_inside(f, at, b, 160);
    lemma_inside(f, at, b, 56);
    lemma_inside(f, at, b, 88);
    lemma_inside(f, at, b, 120);
    lemma_inside(f, at, b, 152);
    lemma_inside(f, at, b, 184);
}

/// What a reader finds in a fixed VHDX file: its type, two headers of which the
/// first is the newer one, two region tables, the metadata table, and in the
/// metadata the sizes and the id that the file was made with; the disk is as large
/// as its payload.
#[verifier::rlimit(40)]
pub proof fn law_vhdx_reads_back(
    payload: Seq<u8>,
    block_size: int,
    creator: Option<Seq<char>>,
    logical: int,
    physical: int,
    file_write: Seq<u8>,
    data_write: Seq<u8>,
    disk_id: Seq<u8>,
)
    requires
        file_write.len() == 16,
        data_write.len() == 16,
        disk_id.len() == 16,
        0 <= block_size < 0x1_0000_0000,
        0 <= logical < 0x1_0000_0000,
        0 <= physical < 0x1_0000_0000,
        payload.len() < 0x1_0000_0000_0000_0000,
    ensures
        ({
            let f = vhdx_file(
                payload,
                block_size,
                creator,
                logical,
                physical,
                file_write,
                data_write,
                disk_id,
            );
            &&& f.take(8) == seq![0x76u8, 0x68, 0x64, 0x78, 0x66, 0x69, 0x6c, 0x65]
            &&& header_at(f, 0x1_0000, 2, file_write, data_write)
            &&& header_at(f, 0x2_0000, 1, file_write, data_write)
            &&& regions_at(f, 0x3_0000)
            &&& regions_at(f, 0x4_0000)
            &&& table_at(f, 0x10_0000)
            &&& get32(f, 0x11_0000) == block_size
            &&& get32(f, 0x11_0004) == 1
            &&& get64(f, 0x11_0008) == payload.len()
            &&& f.subrange(0x11_0010, 0x11_0020) == disk_id
            &&& get32(f, 0x11_0020) == logical
            &&& get32(f, 0x11_0028) == physical
            &&& f.subrange(0x20_0000, 0x20_0000 + payload.len() as int) == payload
        }),
{
    let f = vhdx_file(
        payload,
        block_size,
        creator,
        logical,
        physical,
        file_write,
        data_write,
        disk_id,
    );
    law_vhdx_layout(
        payload,
        block_size,
        creator,
        logical,
        physical,
        file_write,
        data_write,
        disk_id,
    );
    assert(f.take(8) =~= seq![0x76u8, 0x68, 0x64, 0x78, 0x66, 0x69, 0x6c, 0x65]) by {
        reveal(fti);
        assert forall|i: int| 0 <= i < 8 implies #[trigger] f[i] == fti(creator)[i] by {
            assert(f.take(528)[i] == f[i]);
        }
    }
    lemma_header_found(f, 0x1_0000, 2, file_write, data_write);
    lemma_header_found(f, 0x2_0000, 1, file_write, data_write);
    lemma_regions_found(f, 0x3_0000);
    lemma_regions_found(f, 0x4_0000);
    let m = metadata_region(block_size, payload.len() as int, disk_id, logical, physical);
    lemma_metadata_found(f, m, block_size, payload.len() as int, disk_id, logical, physical);
}

#[verifier::rlimit(40)]
proof fn lemma_metadata_found(
    f: Seq<u8>,
    m: Seq<u8>,
    block_size: int,
    size: int,
    disk_id: Seq<u8>,
    logical: int,
    physical: int,
)
    requires
        disk_id.len() == 16,
        0 <= block_size < 0x1_0000_0000,
        0 <= logical < 0x1_0000_0000,
        0 <= physical < 0x1_0000_0000,
        0 <= size < 0x1_0000_0000_0000_0000,
        f.len() >= 0x20_0000,
        m == metadata_region(block_size, size, disk_id, logical, physical),
        f.subrange(0x10_0000, 0x20_0000) == m,
    ensures
        table_at(f, 0x10_0000),
        get32(f, 0x11_0000) == block_size,
        get32(f, 0x11_0004) == 1,
        get64(f, 0x11_0008) == size,
        f.subrange(0x11_0010, 0x11_0020) == disk_id,
        get32(f, 0x11_0020) == logical,
        get32(f, 0x11_0028) == physical,
{
    broadcast use group_le_len;
    law_vhdx_metadata(block_size, size, disk_id, logical, physical);
    assert(f.subrange(0x10_0000, 0x10_00C0) =~= m.take(192)) by {
        assert forall|i: int| 0 <= i < 192 implies #[trigger] m[i] == f[0x10_0000 + i] by {
            assert(f.subrange(0x10_0000, 0x20_0000)[i] == f[0x10_0000 + i]);
        }
    }
    lemma_table_found(f, 0x10_0000);
    lemma_items_stand(m, block_size, size, disk_id, logical, physical);
    lemma_inside(f, 0x10_0000, m, 0x1_0000);
    lemma_inside(f, 0x10_0000, m, 0x1_0004);
    lemma_inside(f, 0x10_0000, m, 0x1_0008);
    lemma_inside(f, 0x10_0000, m, 0x1_0010);
    lemma_inside(f, 0x10_0000, m, 0x1_0020);
    lemma_inside(f, 0x10_0000, m, 0x1_0028);
}

#[verifier::rlimit(40)]
proof fn lemma_items_stand(
    m: Seq<u8>,
    block_size: int,
    size: int,
    disk_id: Seq<u8>,
    logical: int,
    physical: int,
)
    requires
        disk_id.len() == 16,
        0 <= block_size < 0x1_0000_0000,
        0 <= logical < 0x1_0000_0000,
        0 <= physical < 0x1_0000_0000,
        0 <= size < 0x1_0000_0000_0000_0000,
        m == metadata_region(block_size, size, disk_id, logical, physical),
    ensures
        m.len() == 0x10_0000,
        get32(m, 0x1_0000) == block_size,
        get32(m, 0x1_0004) == 1,
        get64(m, 0x1_0008) == size,
        m.subrange(0x1_0010, 0x1_0020) == disk_id,
        get32(m, 0x1_0020) == logical,
        get32(m, 0x1_0028) == physical,
{
    broadcast use group_le_len;
    reveal(metadata_region);
    lemma_table();
    lemma_le32_round_trip(block_size);
    lemma_le32_round_trip(1);
    lemma_le64_round_trip(size);
    lemma_le32_round_trip(logical);
    lemma_le32_round_trip(physical);
    assert(get32(m, 0x1_0000) == get32(le32(block_size), 0));
    assert(get32(m, 0x1_0004) == get32(le32(1), 0));
    assert(get64(m, 0x1_0008) == get64(le64(size), 0));
    assert(m.subrange(0x1_0010, 0x1_0020) =~= disk_id);
    assert(get32(m, 0x1_0020) == get32(le32(logical), 0));
    assert(get32(m, 0x1_0028) == get32(le32(physical), 0));
}

/// The creator's name stands behind the type of the file, as UTF-16 without a
/// terminator, cut to 512 bytes; what it does not fill is zero.
pub proof fn law_creator_is_named(name: Seq<char>, i: int)
    requires
        0 <= i < 512,
    ensures
        ({
            let b = crate::bytes::units_le(crate::bytes::utf16(name));
            &&& fti(Some(name)).len() == 528
            &&& i < b.len() ==> fti(Some(name))[16 + i] == b[i]
            &&& i >= b.len() ==> fti(Some(name))[16 + i] == 0
            &&& fti(None)[16 + i] == 0
            &&& i < 8 ==> fti(Some(name))[8 + i] == 0
        }),
{
    reveal(fti);
}

/// A block is a power of two from 1 MiB to 256 MiB.
pub proof fn law_block_sizes(k: nat)
    ensures
        k <= 8 ==> valid_block_size(0x10_0000 * vstd::arithmetic::power2::pow2(k) as int),
        forall|n: int| #[trigger]
            valid_block_size(n) ==> 0x10_0000 <= n <= 0x1000_0000 && 0x1000_0000int % n == 0,
{
    vstd::arithmetic::power2::lemma2_to64();
}

// ---- disks to be filled ---------------------------------------------------------------

/// What stands in a disk that is to be filled: its type, and at 1, 2 MiB and
/// behind the data the header, the region table and the footer, which agree in
/// where the data are, how large they are, and in the GUID of their last write.
pub proof fn law_disk_reads_back(
    mib: int,
    write_guid: Seq<u8>,
    data_guid: Seq<u8>,
    region_guid: Seq<u8>,
)
    requires
        0 <= mib <= 0xFFF_FFFF_FFFC,
        write_guid.len() == 16,
        data_guid.len() == 16,
        region_guid.len() == 16,
    ensures
        ({
            let c = disk_chunks(mib, write_guid, data_guid, region_guid);
            let h = c[1].1;
            let r = c[2].1;
            let e = c[3].1;
            &&& c.len() == 4
            &&& c[0] == (0int, seq![0x76u8, 0x68, 0x64, 0x78, 0x66, 0x69, 0x6c, 0x65])
            &&& c[1].0 == 0x10_0000
            &&& h.take(8) == seq![0x76u8, 0x68, 0x64, 0x78, 0x68, 0x65, 0x61, 0x64]
            &&& get64(h, 12) == 1
            &&& h.subrange(20, 36) == write_guid
            &&& h.subrange(36, 52) == zeros(16)
            &&& h.subrange(52, 68) == data_guid
            &&& get32(h, 68) == 0 && get32(h, 72) == 1
            &&& get64(h, 76) == 0 && get64(h, 84) == 0
            &&& c[2].0 == 0x20_0000
            &&& r.take(4) == seq![0x72u8, 0x65, 0x67, 0x74]
            &&& get64(r, 8) == 1
            &&& get64(r, 16) == 0x30_0000
            &&& get64(r, 24) == mib * 0x10_0000
            &&& r.subrange(32, 48) == region_guid
            &&& c[3].0 == 0x30_0000 + mib * 0x10_0000
            &&& e.take(8) == seq![0x76u8, 0x68, 0x64, 0x78, 0x66, 0x6f, 0x6f, 0x74]
            &&& get32(e, 16) == 0x206e_6977
            &&& get32(e, 20) == 0x000a_0001
            &&& get32(e, 24) == 4
            &&& get64(e, 28) == 0x30_0000 + mib * 0x10_0000 + 512
            &&& e.subrange(36, 52) == data_guid
            &&& get64(e, 68) == 0x30_0000
            &&& get64(e, 76) == 0
            &&& e.len() == 512
        }),
{
    law_disk_layout(mib, write_guid, data_guid, region_guid);
    lemma_disk_header(write_guid, data_guid);
    lemma_disk_regions(mib, region_guid);
    lemma_disk_footer(mib, data_guid);
}

#[verifier::rlimit(40)]
proof fn lemma_disk_header(write_guid: Seq<u8>, data_guid: Seq<u8>)
    requires
        write_guid.len() == 16,
        data_guid.len() == 16,
    ensures
        ({
            let h = with_crc32(disk_header(write_guid, data_guid));
            &&& h.take(8) == seq![0x76u8, 0x68, 0x64, 0x78, 0x68, 0x65, 0x61, 0x64]
            &&& get64(h, 12) == 1
            &&& h.subrange(20, 36) == write_guid
            &&& h.subrange(36, 52) == zeros(16)
            &&& h.subrange(52, 68) == data_guid
            &&& get32(h, 68) == 0 && get32(h, 72) == 1
            &&& get64(h, 76) == 0 && get64(h, 84) == 0
        }),
{
    broadcast use group_le_len;
    reveal(disk_header);
    let x = disk_header(write_guid, data_guid);
    let h = with_crc32(x);
    assert forall|i: int| 0 <= i < x.len() && !(8 <= i < 12) implies #[trigger] h[i] == x[i] by {}
    lemma_le64_round_trip(1);
    lemma_le64_round_trip(0);
    lemma_le32_round_trip(0);
    lemma_le32_round_trip(1);
    assert(h.take(8) =~= seq![0x76u8, 0x68, 0x64, 0x78, 0x68, 0x65, 0x61, 0x64]);
    assert(get64(h, 12) == get64(le64(1), 0));
    assert(h.subrange(20, 36) =~= write_guid);
    assert(h.subrange(36, 52) =~= zeros(16));
    assert(h.subrange(52, 68) =~= data_guid);
    assert(get32(h, 68) == get32(le32(0), 0));
    assert(get32(h, 72) == get32(le32(1), 0));
    assert(get64(h, 76) == get64(le64(0), 0));
    assert(get64(h, 84) == get64(le64(0), 0));
}

#[verifier::rlimit(40)]
proof fn lemma_disk_regions(mib: int, region_guid: Seq<u8>)
    requires
        0 <= mib <= 0xFFF_FFFF_FFFC,
        region_guid.len() == 16,
    ensures
        ({
            let r = disk_regions(mib, region_guid);
            &&& r.take(4) == seq![0x72u8, 0x65, 0x67, 0x74]
            &&& get64(r, 8) == 1
            &&& get64(r, 16) == 0x30_0000
            &&& get64(r, 24) == mib * 0x10_0000
            &&& r.subrange(32, 48) == region_guid
        }),
{
    broadcast use group_le_len;
    reveal(disk_regions);
    let r = disk_regions(mib, region_guid);
    lemma_le64_round_trip(1);
    lemma_le64_round_trip(0x30_0000);
    lemma_le64_round_trip(mib * 0x10_0000);
    assert(r.take(4) =~= seq![0x72u8, 0x65, 0x67, 0x74]);
    assert(get64(r, 8) == get64(le64(1), 0));
    assert(get64(r, 16) == get64(le64(0x30_0000), 0));
    assert(get64(r, 24) == get64(le64(mib * 0x10_0000), 0));
    assert(r.subrange(32, 48) =~= region_guid);
}

#[verifier::rlimit(40)]
proof fn lemma_disk_footer(mib: int, data_guid: Seq<u8>)
    requires
        0 <= mib <= 0xFFF_FFFF_FFFC,
        data_guid.len() == 16,
    ensures
        ({
            let e = with_crc32(disk_footer(mib, data_guid));
            &&& e.take(8) == seq![0x76u8, 0x68, 0x64, 0x78, 0x66, 0x6f, 0x6f, 0x74]
            &&& get32(e, 16) == 0x206e_6977
            &&& get32(e, 20) == 0x000a_0001
            &&& get32(e, 24) == 4
            &&& get64(e, 28) == 0x30_0000 + mib * 0x10_0000 + 512
            &&& e.subrange(36, 52) == data_guid
            &&& get64(e, 68) == 0x30_0000
            &&& get64(e, 76) == 0
            &&& e.len() == 512
        }),
{
    broadcast use group_le_len;
    reveal(disk_footer);
    let x = disk_footer(mib, data_guid);
    let e = with_crc32(x);
    let end = 0x30_0000 + mib * 0x10_0000 + 512;
    assert forall|i: int| 0 <= i < x.len() && !(8 <= i < 12) implies #[trigger] e[i] == x[i] by {}
    lemma_le32_round_trip(0x206e_6977);
    lemma_le32_round_trip(0x000a_0001);
    lemma_le32_round_trip(4);
    lemma_le64_round_trip(end);
    lemma_le64_round_trip(0x30_0000);
    lemma_le64_round_trip(0);
    assert(e.take(8) =~= seq![0x76u8, 0x68, 0x64, 0x78, 0x66, 0x6f, 0x6f, 0x74]);
    assert(get32(e, 16) == get32(le32(0x206e_6977), 0));
    assert(get32(e, 20) == get32(le32(0x000a_0001), 0));
    assert(get32(e, 24) == get32(le32(4), 0));
    assert(get64(e, 28) == get64(le64(end), 0));
    assert(e.subrange(36, 52) =~= data_guid);
    assert(get64(e, 68) == get64(le64(0x30_0000), 0));
    assert(get64(e, 76) == get64(le64(0), 0));
}

/// An automatic capacity wastes less than a MiB, beyond its minimum.
pub proof fn law_capacity_is_tight(image_bytes: int)
    requires
        0 <= image_bytes,
    ensures
        capacity(0, image_bytes) == 65536 || 4 * (capacity(0, image_bytes) - 1) * 0x10_0000 < 5
            * image_bytes,
        5 * image_bytes <= 4 * 65536 * 0x10_0000 ==> capacity(0, image_bytes) == 65536,
{
}

// ---- checksums -----------------------------------------------------------------------

/// One bit of a checksum's register: half of it, and the polynomial on top where
/// a bit falls out.
pub open spec fn halved(poly: u32, c: u32) -> u32 {
    if c % 2 == 1 {
        (c / 2) ^ poly
    } else {
        c / 2
    }
}

/// Eight bits of it.
pub open spec fn halved_8(poly: u32, c: u32) -> u32 {
    let a = halved(poly, halved(poly, halved(poly, halved(poly, c))));
    halved(poly, halved(poly, halved(poly, halved(poly, a))))
}

/// A checksum grows byte by byte: from one over nothing, whose register is all
/// ones, each byte goes into the low bits of the register, which is then divided
/// by the polynomial eight times. The polynomials are those of Castagnoli and of
/// Ethernet, reflected.
#[verifier::rlimit(40)]
pub proof fn law_checksum_steps(poly: u32, data: Seq<u8>, b: u8)
    ensures
        crc32_of(poly, seq![]) == 0,
        crc32_of(poly, data.push(b)) == !halved_8(poly, !crc32_of(poly, data) ^ (b as u32)),
        CRC32C_POLY == 0x82F6_3B78,
        CRC32_POLY == 0xEDB8_8320,
{
    let r = crc_register(poly, data);
    assert(!0xFFFF_FFFFu32 == 0) by (bit_vector);
    assert(!(!r) == r) by (bit_vector);
    assert(data.push(b).drop_last() =~= data);
    reveal_with_fuel(crc_bits, 9);
    assert forall|c: u32| #[trigger] crc_bit(poly, c) == halved(poly, c) by {
        assert(c & 1 == c % 2) by (bit_vector);
        assert(c >> 1 == c / 2) by (bit_vector);
    }
}

} // verus!
