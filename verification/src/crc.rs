//! Reflected 32-bit cyclic redundancy checks.

use vstd::prelude::*;

verus! {

/// CRC-32C (Castagnoli).
pub const CRC32C_POLY: u32 = 0x82F6_3B78;

/// CRC-32 (IEEE 802.3).
pub const CRC32_POLY: u32 = 0xEDB8_8320;

/// One bit of division by `poly`.
pub open spec fn crc_bit(poly: u32, c: u32) -> u32 {
    if c & 1 != 0 {
        (c >> 1) ^ poly
    } else {
        c >> 1
    }
}

/// `n` bits of division.
pub open spec fn crc_bits(poly: u32, c: u32, n: nat) -> u32
    decreases n,
{
    if n == 0 {
        c
    } else {
        crc_bit(poly, crc_bits(poly, c, (n - 1) as nat))
    }
}

/// The register after `data`, which was all ones before it.
pub open spec fn crc_register(poly: u32, data: Seq<u8>) -> u32
    decreases data.len(),
{
    if data.len() == 0 {
        0xFFFF_FFFF
    } else {
        crc_bits(poly, crc_register(poly, data.drop_last()) ^ (data.last() as u32), 8)
    }
}

/// The checksum: the register, inverted.
pub open spec fn crc32_of(poly: u32, data: Seq<u8>) -> u32 {
    !crc_register(poly, data)
}

/// Division is linear.
proof fn lemma_bit_linear(poly: u32, x: u32, y: u32)
    ensures
        crc_bit(poly, x ^ y) == crc_bit(poly, x) ^ crc_bit(poly, y),
{
    assert((if (x ^ y) & 1 != 0 {
        ((x ^ y) >> 1) ^ poly
    } else {
        (x ^ y) >> 1
    }) == (if x & 1 != 0 {
        (x >> 1) ^ poly
    } else {
        x >> 1
    }) ^ (if y & 1 != 0 {
        (y >> 1) ^ poly
    } else {
        y >> 1
    })) by (bit_vector);
}

proof fn lemma_bits_linear(poly: u32, x: u32, y: u32, n: nat)
    ensures
        crc_bits(poly, x ^ y, n) == crc_bits(poly, x, n) ^ crc_bits(poly, y, n),
    decreases n,
{
    if n > 0 {
        let k = (n - 1) as nat;
        lemma_bits_linear(poly, x, y, k);
        lemma_bit_linear(poly, crc_bits(poly, x, k), crc_bits(poly, y, k));
    }
}

/// Bits that are zero are shifted out and nothing else happens.
proof fn lemma_bits_shift(poly: u32, h: u32, n: nat)
    requires
        h & 0xFF == 0,
        n <= 8,
    ensures
        crc_bits(poly, h, n) == h >> (n as u32),
    decreases n,
{
    if n == 0 {
        assert(h >> 0u32 == h) by (bit_vector);
    } else {
        let k = (n - 1) as u32;
        lemma_bits_shift(poly, h, (n - 1) as nat);
        assert((h >> k) & 1 == 0) by (bit_vector)
            requires
                h & 0xFF == 0,
                k < 8,
        ;
        let m = n as u32;
        assert((h >> k) >> 1 == h >> m) by (bit_vector)
            requires
                k < 8,
                m == k + 1,
        ;
    }
}

/// Eight bits at once, from the low byte and the rest.
proof fn lemma_byte_step(poly: u32, c: u32, b: u32)
    requires
        b < 256,
    ensures
        crc_bits(poly, c ^ b, 8) == crc_bits(poly, (c ^ b) & 0xFF, 8) ^ (c >> 8),
{
    let x = c ^ b;
    let lo = x & 0xFF;
    let hi = x & 0xFFFF_FF00;
    assert(lo ^ hi == x) by (bit_vector)
        requires
            lo == x & 0xFF,
            hi == x & 0xFFFF_FF00,
    ;
    assert(hi & 0xFF == 0) by (bit_vector)
        requires
            hi == x & 0xFFFF_FF00,
    ;
    assert(hi >> 8 == c >> 8) by (bit_vector)
        requires
            hi == x & 0xFFFF_FF00,
            x == c ^ b,
            b < 256,
    ;
    lemma_bits_linear(poly, lo, hi, 8);
    lemma_bits_shift(poly, hi, 8);
}

/// The registers of single bytes.
fn crc_table(poly: u32) -> (t: Vec<u32>)
    ensures
        t@.len() == 256,
        forall|i: int| 0 <= i < 256 ==> #[trigger] t@[i] == crc_bits(poly, i as u32, 8),
{
    let mut t: Vec<u32> = Vec::new();
    let mut i: u32 = 0;
    while i < 256
        invariant
            i <= 256,
            t@.len() == i,
            forall|j: int| 0 <= j < i ==> #[trigger] t@[j] == crc_bits(poly, j as u32, 8),
        decreases 256 - i,
    {
        let mut c: u32 = i;
        let mut k: u32 = 0;
        while k < 8
            invariant
                k <= 8,
                c == crc_bits(poly, i, k as nat),
            decreases 8 - k,
        {
            if c & 1 != 0 {
                c = (c >> 1) ^ poly;
            } else {
                c = c >> 1;
            }
            k += 1;
        }
        t.push(c);
        i += 1;
    }
    t
}

/// The CRC-32C of `data`.
pub fn crc32c(data: &[u8]) -> (crc: u32)
    ensures
        crc == crc32_of(CRC32C_POLY, data@),
{
    let tab: Vec<u32> = crc_table(CRC32C_POLY);
    let mut c: u32 = 0xFFFF_FFFF;
    let mut i: usize = 0;
    while i < data.len()
        invariant
            i <= data@.len(),
            tab@.len() == 256,
            forall|i: int| 0 <= i < 256 ==> #[trigger] tab@[i] == crc_bits(CRC32C_POLY, i as u32, 8),
            c == crc_register(CRC32C_POLY, data@.take(i as int)),
        decreases data@.len() - i,
    {
        let b: u32 = data[i] as u32;
        let low: u32 = (c ^ b) & 0xFF;
        proof {
            lemma_byte_step(CRC32C_POLY, c, b);
            assert(low < 256) by (bit_vector)
                requires
                    low == (c ^ b) & 0xFF,
            ;
            assert(data@.take(i + 1).drop_last() =~= data@.take(i as int));
            assert(data@.take(i + 1).last() == data@[i as int]);
        }
        c = tab[low as usize] ^ (c >> 8);
        i += 1;
    }
    assert(data@.take(i as int) =~= data@);
    !c
}

} // verus!
