//! Little-endian integers and UTF-16 text inside byte buffers.

use vstd::prelude::*;

verus! {

/// The two little-endian bytes of `x` modulo 2^16.
#[verifier::opaque]
pub open spec fn le16(x: int) -> Seq<u8> {
    seq![(x % 256) as u8, (x / 256 % 256) as u8]
}

/// The four little-endian bytes of `x` modulo 2^32.
#[verifier::opaque]
pub open spec fn le32(x: int) -> Seq<u8> {
    seq![
        (x % 256) as u8,
        (x / 256 % 256) as u8,
        (x / 65536 % 256) as u8,
        (x / 16777216 % 256) as u8,
    ]
}

/// The eight little-endian bytes of `x` modulo 2^64.
pub open spec fn le64(x: int) -> Seq<u8> {
    le32(x % 4294967296) + le32(x / 4294967296)
}

/// The integer whose little-endian bytes start at `at`, two of them.
pub open spec fn get16(b: Seq<u8>, at: int) -> int {
    b[at] + 256 * b[at + 1]
}

/// The integer whose little-endian bytes start at `at`, four of them.
pub open spec fn get32(b: Seq<u8>, at: int) -> int {
    b[at] + 256 * b[at + 1] + 65536 * b[at + 2] + 16777216 * b[at + 3]
}

/// The integer whose little-endian bytes start at `at`, eight of them.
pub open spec fn get64(b: Seq<u8>, at: int) -> int {
    get32(b, at) + 4294967296 * get32(b, at + 4)
}

/// `n` zero bytes.
pub open spec fn zeros(n: nat) -> Seq<u8> {
    Seq::new(n, |i: int| 0u8)
}

/// `b` with the bytes from `at` on replaced by `v`.
pub open spec fn overlay(b: Seq<u8>, at: int, v: Seq<u8>) -> Seq<u8> {
    Seq::new(
        b.len(),
        |i: int| if at <= i < at + v.len() { v[i - at] } else { b[i] },
    )
}

pub broadcast proof fn lemma_le16_len(x: int)
    ensures
        #[trigger] le16(x).len() == 2,
{
    reveal(le16);
}

pub broadcast proof fn lemma_le32_len(x: int)
    ensures
        #[trigger] le32(x).len() == 4,
{
    reveal(le32);
}

pub broadcast group group_le_len {
    lemma_le16_len,
    lemma_le32_len,
}

/// Two bytes read give back what was written.
pub proof fn lemma_le16_round_trip(x: int)
    requires
        0 <= x < 0x1_0000,
    ensures
        le16(x).len() == 2,
        get16(le16(x), 0) == x,
{
    reveal(le16);
}

/// Four bytes read give back what was written.
pub proof fn lemma_le32_round_trip(x: int)
    requires
        0 <= x < 0x1_0000_0000,
    ensures
        le32(x).len() == 4,
        get32(le32(x), 0) == x,
{
    reveal(le32);
}

/// Eight bytes read give back what was written.
pub proof fn lemma_le64_round_trip(x: int)
    requires
        0 <= x < 0x1_0000_0000_0000_0000,
    ensures
        le64(x).len() == 8,
        get64(le64(x), 0) == x,
{
    lemma_le32_round_trip(x % 4294967296);
    lemma_le32_round_trip(x / 4294967296);
    let b = le64(x);
    assert(get32(b, 0) == get32(le32(x % 4294967296), 0));
    assert(get32(b, 4) == get32(le32(x / 4294967296), 0));
}

pub fn push_u16(v: &mut Vec<u8>, x: u16)
    ensures
        final(v)@ == old(v)@ + le16(x as int),
{
    reveal(le16);
    v.push((x % 256) as u8);
    v.push((x / 256) as u8);
}

pub fn push_u32(v: &mut Vec<u8>, x: u32)
    ensures
        final(v)@ == old(v)@ + le32(x as int),
{
    reveal(le32);
    v.push((x % 256) as u8);
    v.push((x / 256 % 256) as u8);
    v.push((x / 65536 % 256) as u8);
    v.push((x / 16777216) as u8);
}

pub fn push_u64(v: &mut Vec<u8>, x: u64)
    ensures
        final(v)@ == old(v)@ + le64(x as int),
{
    push_u32(v, (x % 4294967296) as u32);
    push_u32(v, (x / 4294967296) as u32);
    assert(v@ =~= old(v)@ + le64(x as int));
}

/// Appends the bytes of `s`.
pub fn push_bytes(v: &mut Vec<u8>, s: &[u8])
    ensures
        final(v)@ == old(v)@ + s@,
{
    v.extend_from_slice(s);
    assert(v@ =~= old(v)@ + s@);
}

/// Appends `n` zero bytes.
pub fn push_zeros(v: &mut Vec<u8>, n: usize)
    ensures
        final(v)@ == old(v)@ + zeros(n as nat),
{
    let mut i: usize = 0;
    while i < n
        invariant
            i <= n,
            v@ == old(v)@ + zeros(i as nat),
        decreases n - i,
    {
        v.push(0);
        i += 1;
        assert(v@ =~= old(v)@ + zeros(i as nat));
    }
}

/// Overwrites the bytes from `at` on with `s`.
pub fn put_bytes(v: &mut Vec<u8>, at: usize, s: &[u8])
    requires
        at + s@.len() <= old(v).len(),
    ensures
        final(v)@ == overlay(old(v)@, at as int, s@),
{
    let mut i: usize = 0;
    assert(v@ =~= overlay(old(v)@, at as int, s@.take(0)));
    while i < s.len()
        invariant
            i <= s@.len(),
            at + s@.len() <= v.len(),
            v@ == overlay(old(v)@, at as int, s@.take(i as int)),
        decreases s@.len() - i,
    {
        v[at + i] = s[i];
        i += 1;
        assert(v@ =~= overlay(old(v)@, at as int, s@.take(i as int)));
    }
    assert(s@.take(i as int) =~= s@);
}

/// Overwrites the four bytes from `at` on with `x`.
pub fn put_u32(v: &mut Vec<u8>, at: usize, x: u32)
    requires
        at + 4 <= old(v).len(),
    ensures
        final(v)@ == overlay(old(v)@, at as int, le32(x as int)),
{
    reveal(le32);
    v[at] = (x % 256) as u8;
    v[at + 1] = (x / 256 % 256) as u8;
    v[at + 2] = (x / 65536 % 256) as u8;
    v[at + 3] = (x / 16777216) as u8;
    assert(v@ =~= overlay(old(v)@, at as int, le32(x as int)));
}

/// The four bytes from `at` on as an integer.
pub fn read_u32(v: &Vec<u8>, at: usize) -> (x: u32)
    requires
        at + 4 <= v.len(),
    ensures
        x == get32(v@, at as int),
{
    v[at] as u32 + 256 * (v[at + 1] as u32) + 65536 * (v[at + 2] as u32)
        + 16777216 * (v[at + 3] as u32)
}

/// The UTF-16 code units of one character.
pub open spec fn utf16_char(c: char) -> Seq<u16> {
    let v = c as int;
    if v < 0x1_0000 {
        seq![v as u16]
    } else {
        seq![(0xD800 + (v - 0x1_0000) / 0x400) as u16, (0xDC00 + (v - 0x1_0000) % 0x400) as u16]
    }
}

/// The UTF-16 code units of `s`.
pub open spec fn utf16(s: Seq<char>) -> Seq<u16>
    decreases s.len(),
{
    if s.len() == 0 {
        seq![]
    } else {
        utf16(s.drop_last()) + utf16_char(s.last())
    }
}

/// Little-endian bytes of a sequence of code units.
pub open spec fn units_le(u: Seq<u16>) -> Seq<u8>
    decreases u.len(),
{
    if u.len() == 0 {
        seq![]
    } else {
        units_le(u.drop_last()) + le16(u.last() as int)
    }
}

/// `s` as NUL-terminated UTF-16LE.
pub open spec fn utf16_nul_bytes(s: Seq<char>) -> Seq<u8> {
    units_le(utf16(s)) + seq![0u8, 0u8]
}

/// A character is a code point below 0x110000.
pub proof fn lemma_char_range(c: char)
    ensures
        0 <= c as int <= 0x10_FFFF,
        c as u32 == c as int,
{
}

pub proof fn lemma_units_le_push(u: Seq<u16>, x: u16)
    ensures
        units_le(u.push(x)) == units_le(u) + le16(x as int),
        units_le(u.push(x)).len() == units_le(u).len() + 2,
{
    broadcast use group_le_len;
    assert(u.push(x).drop_last() =~= u);
}

pub proof fn lemma_units_le_len(u: Seq<u16>)
    ensures
        units_le(u).len() == 2 * u.len(),
    decreases u.len(),
{
    broadcast use group_le_len;
    if u.len() > 0 {
        lemma_units_le_len(u.drop_last());
    }
}

/// UTF-16 takes at least one unit and at most two for each character.
pub proof fn lemma_utf16_len(s: Seq<char>)
    ensures
        s.len() <= utf16(s).len() <= 2 * s.len(),
    decreases s.len(),
{
    if s.len() > 0 {
        lemma_utf16_len(s.drop_last());
    }
}

/// Appends the UTF-16LE bytes of `s`, without a terminator.
pub fn push_utf16(v: &mut Vec<u8>, s: &str)
    ensures
        final(v)@ == old(v)@ + units_le(utf16(s@)),
{
    for c in it: s.chars()
        invariant
            it.seq() == s@,
            v@ == old(v)@ + units_le(utf16(s@.take(it.index()))),
    {
        let ghost k = it.index();
        let ghost before = v@;
        proof {
            lemma_char_range(c);
        }
        let x: u32 = c as u32;
        proof {
            assert(s@.take(k + 1).drop_last() =~= s@.take(k));
            assert(s@.take(k + 1).last() == c);
        }
        let ghost units = utf16(s@.take(k));
        if x < 0x1_0000 {
            let u: u16 = x as u16;
            push_u16(v, u);
            proof {
                lemma_units_le_push(units, u);
                assert(utf16(s@.take(k + 1)) =~= units.push(u));
            }
        } else {
            let hi: u16 = (0xD800 + (x - 0x1_0000) / 0x400) as u16;
            let lo: u16 = (0xDC00 + (x - 0x1_0000) % 0x400) as u16;
            push_u16(v, hi);
            push_u16(v, lo);
            proof {
                lemma_units_le_push(units, hi);
                lemma_units_le_push(units.push(hi), lo);
                assert(utf16(s@.take(k + 1)) =~= units.push(hi).push(lo));
            }
        }
        assert(v@ =~= old(v)@ + units_le(utf16(s@.take(k + 1))));
    }
    assert(s@.take(s@.len() as int) =~= s@);
}

/// `s` as NUL-terminated UTF-16LE.
pub fn utf16_nul(s: &str) -> (v: Vec<u8>)
    ensures
        v@ == utf16_nul_bytes(s@),
{
    let mut v: Vec<u8> = Vec::new();
    push_utf16(&mut v, s);
    v.push(0);
    v.push(0);
    assert(v@ =~= utf16_nul_bytes(s@));
    v
}

} // verus!
