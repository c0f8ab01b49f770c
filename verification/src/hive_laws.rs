//! The records of a hive, field by field.

use crate::bcd::filetime;
use crate::bytes::{
    get16, get32, get64, group_le_len, le16, le32, le64, lemma_le16_round_trip,
    lemma_le32_round_trip, lemma_le64_round_trip, utf16_nul_bytes, zeros,
};
use crate::hive::{base_block, cell_size, hbin_header, max_payload, Bins};
use crate::hive_key::{
    key_cells, key_fits, longest_child_name, longest_value_data, longest_value_name,
    multi_sz_items, name_hint, nk_record, vk_record, KeyModel, ValModel,
};
use crate::hive_read::law_store_frame;
use crate::hive_store::{security_descriptor, store_file};
use vstd::prelude::*;
use vstd::utf8::encode_utf8;

verus! {

/// The record of a value: its mark, the length of its name, the size word, the
/// data or where they are, the type, and that the name is ASCII.
#[verifier::rlimit(40)]
pub proof fn law_value_record(name: Seq<char>, val: ValModel, field: int)
    requires
        encode_utf8(name).len() < 0x1_0000,
        0 <= field < 0x1_0000_0000,
        val.data().len() < 0x8000_0000,
    ensures
        ({
            let r = vk_record(name, val, field);
            let n = encode_utf8(name).len() as int;
            &&& r.len() == 20 + n
            &&& r[0] == 0x76 && r[1] == 0x6b
            &&& get16(r, 2) == n
            &&& val is Dword ==> get32(r, 4) == 0x8000_0004
            &&& !(val is Dword) ==> get32(r, 4) == val.data().len()
            &&& get32(r, 8) == field
            &&& val is Sz ==> get32(r, 12) == 1
            &&& val is Binary ==> get32(r, 12) == 3
            &&& val is Dword ==> get32(r, 12) == 4
            &&& val is MultiSz ==> get32(r, 12) == 7
            &&& get16(r, 16) == 1
            &&& get16(r, 18) == 0
            &&& r.skip(20) == encode_utf8(name)
        }),
{
    broadcast use group_le_len;
    let r = vk_record(name, val, field);
    let n = encode_utf8(name).len() as int;
    lemma_le16_round_trip(n);
    lemma_le32_round_trip(val.size_word());
    lemma_le32_round_trip(field);
    lemma_le32_round_trip(val.kind());
    lemma_le16_round_trip(1);
    lemma_le16_round_trip(0);
    assert(get16(r, 2) == get16(le16(n), 0));
    assert(get32(r, 4) == get32(le32(val.size_word()), 0));
    assert(get32(r, 8) == get32(le32(field), 0));
    assert(get32(r, 12) == get32(le32(val.kind()), 0));
    assert(get16(r, 16) == get16(le16(1), 0));
    assert(get16(r, 18) == get16(le16(0), 0));
    assert(r.skip(20) =~= encode_utf8(name));
}

/// The bytes of a value: text ends in a zero, a list of texts in one more, and
/// numbers are little-endian.
pub proof fn law_value_bytes(s: Seq<char>, items: Seq<Seq<char>>, b: Seq<u8>, v: int)
    requires
        0 <= v < 0x1_0000_0000,
    ensures
        ValModel::Sz(s).data() == utf16_nul_bytes(s),
        ValModel::Binary(b).data() == b,
        ValModel::Dword(v).data().len() == 4 && get32(ValModel::Dword(v).data(), 0) == v,
        ValModel::MultiSz(seq![]).data() == seq![0u8, 0u8],
        multi_sz_items(items.push(s)) == multi_sz_items(items) + utf16_nul_bytes(s),
        ValModel::MultiSz(items).data() == multi_sz_items(items) + seq![0u8, 0u8],
{
    lemma_le32_round_trip(v);
    assert(items.push(s).drop_last() =~= items);
    assert(ValModel::MultiSz(seq![]).data() =~= seq![0u8, 0u8]);
}

/// The node of a key: its mark and flags, the time stamp, counts and lists of
/// subkeys and values, the security record, the longest names and values, and its
/// own name; it has neither volatile subkeys nor a class.
#[verifier::rlimit(40)]
pub proof fn law_key_node(
    key: KeyModel,
    root: bool,
    t: int,
    sk: int,
    sublist: int,
    vlist: int,
)
    requires
        0 <= t < 0x1_0000_0000_0000_0000,
        0 <= sk < 0x1_0000_0000,
        0 <= sublist < 0x1_0000_0000,
        0 <= vlist < 0x1_0000_0000,
        key.children.len() < 0x1_0000_0000,
        key.values.len() < 0x1_0000_0000,
        encode_utf8(key.name).len() < 0x1_0000,
        0 <= longest_child_name(key.children) < 0x1_0000_0000,
        0 <= longest_value_name(key.values) < 0x1_0000_0000,
        0 <= longest_value_data(key.values) < 0x1_0000_0000,
    ensures
        ({
            let r = nk_record(key, root, t, sk, sublist, vlist);
            let n = encode_utf8(key.name).len() as int;
            &&& r.len() == 76 + n
            &&& r[0] == 0x6e && r[1] == 0x6b
            &&& root ==> get16(r, 2) == 0x2C
            &&& !root ==> get16(r, 2) == 0x20
            &&& get64(r, 4) == t
            &&& get32(r, 12) == 0
            &&& get32(r, 20) == key.children.len()
            &&& get32(r, 24) == 0
            &&& get32(r, 28) == sublist
            &&& get32(r, 32) == 0xFFFF_FFFF
            &&& get32(r, 36) == key.values.len()
            &&& get32(r, 40) == vlist
            &&& get32(r, 44) == sk
            &&& get32(r, 48) == 0xFFFF_FFFF
            &&& get32(r, 52) == longest_child_name(key.children)
            &&& get32(r, 56) == 0
            &&& get32(r, 60) == longest_value_name(key.values)
            &&& get32(r, 64) == longest_value_data(key.values)
            &&& get32(r, 68) == 0
            &&& get16(r, 72) == n
            &&& get16(r, 74) == 0
            &&& r.skip(76) == encode_utf8(key.name)
        }),
{
    broadcast use group_le_len;
    reveal(nk_record);
    let r = nk_record(key, root, t, sk, sublist, vlist);
    let n = encode_utf8(key.name).len() as int;
    let flags = if root {
        0x2Cint
    } else {
        0x20
    };
    lemma_le16_round_trip(flags);
    lemma_le64_round_trip(t);
    lemma_le32_round_trip(0);
    lemma_le32_round_trip(key.children.len() as int);
    lemma_le32_round_trip(sublist);
    lemma_le32_round_trip(0xFFFF_FFFF);
    lemma_le32_round_trip(key.values.len() as int);
    lemma_le32_round_trip(vlist);
    lemma_le32_round_trip(sk);
    lemma_le32_round_trip(longest_child_name(key.children));
    lemma_le32_round_trip(longest_value_name(key.values));
    lemma_le32_round_trip(longest_value_data(key.values));
    lemma_le16_round_trip(n);
    lemma_le16_round_trip(0);
    assert(get16(r, 2) == get16(le16(flags), 0));
    assert(get64(r, 4) == get64(le64(t), 0));
    assert(get32(r, 12) == get32(le32(0), 0));
    assert(get32(r, 20) == get32(le32(key.children.len() as int), 0));
    assert(get32(r, 24) == get32(le32(0), 0));
    assert(get32(r, 28) == get32(le32(sublist), 0));
    assert(get32(r, 32) == get32(le32(0xFFFF_FFFF), 0));
    assert(get32(r, 36) == get32(le32(key.values.len() as int), 0));
    assert(get32(r, 40) == get32(le32(vlist), 0));
    assert(get32(r, 44) == get32(le32(sk), 0));
    assert(get32(r, 48) == get32(le32(0xFFFF_FFFF), 0));
    assert(get32(r, 52) == get32(le32(longest_child_name(key.children)), 0));
    assert(get32(r, 56) == get32(le32(0), 0));
    assert(get32(r, 60) == get32(le32(longest_value_name(key.values)), 0));
    assert(get32(r, 64) == get32(le32(longest_value_data(key.values)), 0));
    assert(get32(r, 68) == get32(le32(0), 0));
    assert(get16(r, 72) == get16(le16(n), 0));
    assert(get16(r, 74) == get16(le16(0), 0));
    assert(r.skip(76) =~= encode_utf8(key.name));
}

/// The hint of a name is its first four bytes, with zeros behind a shorter one.
pub proof fn law_name_hint(name: Seq<char>)
    ensures
        name_hint(name).len() == 4,
        encode_utf8(name).len() >= 4 ==> name_hint(name) == encode_utf8(name).take(4),
        encode_utf8(name).len() < 4 ==> name_hint(name) == encode_utf8(name) + zeros(
            (4 - encode_utf8(name).len()) as nat,
        ),
{
    let b = encode_utf8(name);
    if b.len() >= 4 {
        assert(name_hint(name) =~= b.take(4));
    } else {
        assert(name_hint(name) =~= b + zeros((4 - b.len()) as nat));
    }
}

/// The longest subkey name is as long as one of them, and none is longer.
pub proof fn law_longest_child(children: Seq<KeyModel>, i: int)
    requires
        0 <= i < children.len(),
    ensures
        encode_utf8(children[i].name).len() <= longest_child_name(children),
        exists|k: int|
            0 <= k < children.len() && encode_utf8((#[trigger] children[k]).name).len()
                == longest_child_name(children),
    decreases children.len(),
{
    let front = children.drop_last();
    assert(children.last() == children[children.len() - 1]);
    if front.len() > 0 {
        law_longest_child(
            front,
            if i < front.len() {
                i
            } else {
                0
            },
        );
        let k = choose|k: int|
            0 <= k < front.len() && encode_utf8((#[trigger] front[k]).name).len()
                == longest_child_name(front);
        assert(children[k] == front[k]);
        if i < front.len() {
            assert(front[i] == children[i]);
        }
    } else {
        assert(longest_child_name(front) == 0);
    }
}

/// The longest value name and the longest value are as long as one of them, and
/// none is longer.
pub proof fn law_longest_value(values: Seq<(Seq<char>, ValModel)>, i: int)
    requires
        0 <= i < values.len(),
    ensures
        encode_utf8(values[i].0).len() <= longest_value_name(values),
        values[i].1.data().len() <= longest_value_data(values),
        exists|k: int|
            0 <= k < values.len() && encode_utf8((#[trigger] values[k]).0).len()
                == longest_value_name(values),
        exists|k: int|
            0 <= k < values.len() && (#[trigger] values[k]).1.data().len() == longest_value_data(
                values,
            ),
    decreases values.len(),
{
    let front = values.drop_last();
    assert(values.last() == values[values.len() - 1]);
    if front.len() > 0 {
        law_longest_value(
            front,
            if i < front.len() {
                i
            } else {
                0
            },
        );
        let k = choose|k: int|
            0 <= k < front.len() && encode_utf8((#[trigger] front[k]).0).len()
                == longest_value_name(front);
        let m = choose|m: int|
            0 <= m < front.len() && (#[trigger] front[m]).1.data().len() == longest_value_data(
                front,
            );
        assert(values[k] == front[k] && values[m] == front[m]);
        if i < front.len() {
            assert(front[i] == values[i]);
        }
    } else {
        assert(longest_value_name(front) == 0);
        assert(longest_value_data(front) == 0);
    }
}

/// The security descriptor: self-relative, with a list of two grants. Its owner
/// and the first grant are BUILTIN\Administrators (S-1-5-32-544), who may read;
/// the second is SYSTEM (S-1-5-18), which may do everything.
#[verifier::rlimit(40)]
pub proof fn law_security_descriptor()
    ensures
        ({
            let d = security_descriptor();
            let admins = seq![
                1u8, 2, 0, 0, 0, 0, 0, 5, 0x20, 0, 0, 0, 0x20, 2, 0, 0,
            ];
            &&& d.len() == 116
            &&& d[0] == 1
            &&& get16(d, 2) == 0x8004
            &&& get32(d, 4) == 0x48 && get32(d, 8) == 0x58 && get32(d, 12) == 0 && get32(d, 16)
                == 0x14
            &&& d[0x14] == 2 && get16(d, 0x16) == 0x34 && get16(d, 0x18) == 2
            &&& get16(d, 0x1E) == 0x18 && get32(d, 0x20) == 0x0006_0019
            &&& d.subrange(0x24, 0x34) == admins
            &&& get16(d, 0x36) == 0x14 && get32(d, 0x38) == 0x000F_003F
            &&& d.subrange(0x3C, 0x48) == seq![1u8, 1, 0, 0, 0, 0, 0, 5, 0x12, 0, 0, 0]
            &&& d.subrange(0x48, 0x58) == admins
            &&& d.subrange(0x58, 0x64) == seq![1u8, 5, 0, 0, 0, 0, 0, 5, 0x15, 0, 0, 0]
            &&& get32(d, 0x70) == 1001
        }),
{
    reveal(security_descriptor);
    let d = security_descriptor();
    let admins = seq![1u8, 2, 0, 0, 0, 0, 0, 5, 0x20, 0, 0, 0, 0x20, 2, 0, 0];
    assert(d.subrange(0x24, 0x34) =~= admins);
    assert(d.subrange(0x3C, 0x48) =~= seq![1u8, 1, 0, 0, 0, 0, 0, 5, 0x12, 0, 0, 0]);
    assert(d.subrange(0x48, 0x58) =~= admins);
    assert(d.subrange(0x58, 0x64) =~= seq![1u8, 5, 0, 0, 0, 0, 0, 5, 0x15, 0, 0, 0]);
}

/// The header of a page: its mark, where it stands and that it has 4096 bytes.
pub proof fn law_page_header(k: int)
    requires
        0 <= k,
        4096 * k < 0x1_0000_0000,
    ensures
        ({
            let h = hbin_header(4096 * k);
            &&& h.len() == 12
            &&& h.take(4) == seq![0x68u8, 0x62, 0x69, 0x6e]
            &&& get32(h, 4) == 4096 * k
            &&& get32(h, 8) == 4096
        }),
{
    broadcast use group_le_len;
    let h = hbin_header(4096 * k);
    lemma_le32_round_trip(4096 * k);
    lemma_le32_round_trip(4096);
    assert(h.take(4) =~= seq![0x68u8, 0x62, 0x69, 0x6e]);
    assert(get32(h, 4) == get32(le32(4096 * k), 0));
    assert(get32(h, 8) == get32(le32(4096), 0));
}

/// The base block of a hive: its mark, two sequence numbers that agree, the time
/// stamp, version 1.3, the root, the length of the pages, and that it is a BCD.
#[verifier::rlimit(40)]
pub proof fn law_base_block(t: int, root: int, n: int)
    requires
        0 <= t < 0x1_0000_0000_0000_0000,
        0 <= root < 0x1_0000_0000,
        0 <= n < 0x1_0000_0000,
    ensures
        ({
            let b = base_block(t, root, n);
            &&& b.len() == 4096
            &&& b.take(4) == seq![0x72u8, 0x65, 0x67, 0x66]
            &&& get32(b, 4) == 1 && get32(b, 8) == 1
            &&& get64(b, 12) == t
            &&& get32(b, 20) == 1 && get32(b, 24) == 3
            &&& get32(b, 28) == 0 && get32(b, 32) == 1
            &&& get32(b, 36) == root
            &&& get32(b, 40) == n
            &&& get32(b, 44) == 1
            &&& b.subrange(48, 51) == seq![0x42u8, 0x43, 0x44]
            &&& forall|i: int| 51 <= i < 4096 ==> #[trigger] b[i] == 0
        }),
{
    broadcast use group_le_len;
    reveal(base_block);
    let b = base_block(t, root, n);
    lemma_le32_round_trip(1);
    lemma_le64_round_trip(t);
    lemma_le32_round_trip(3);
    lemma_le32_round_trip(0);
    lemma_le32_round_trip(root);
    lemma_le32_round_trip(n);
    assert(b.take(4) =~= seq![0x72u8, 0x65, 0x67, 0x66]);
    assert(get32(b, 4) == get32(le32(1), 0));
    assert(get32(b, 8) == get32(le32(1), 0));
    assert(get64(b, 12) == get64(le64(t), 0));
    assert(get32(b, 20) == get32(le32(1), 0));
    assert(get32(b, 24) == get32(le32(3), 0));
    assert(get32(b, 28) == get32(le32(0), 0));
    assert(get32(b, 32) == get32(le32(1), 0));
    assert(get32(b, 36) == get32(le32(root), 0));
    assert(get32(b, 40) == get32(le32(n), 0));
    assert(get32(b, 44) == get32(le32(1), 0));
    assert(b.subrange(48, 51) =~= seq![0x42u8, 0x43, 0x44]);
}

/// A cell has room for its size and its payload, wastes less than 8 bytes and is
/// a multiple of 8; the largest one fills a page behind its header.
pub proof fn law_cell_sizes(n: int)
    requires
        0 <= n,
    ensures
        n + 4 <= cell_size(n) < n + 12,
        cell_size(n) % 8 == 0,
        cell_size(max_payload()) == 4096 - 32,
        cell_size(max_payload() + 1) > 4096 - 32,
{
}

/// A new page leaves the rest of the one before it as a free cell.
pub proof fn law_rest_is_free(b: Bins)
    requires
        b.wf(),
        b.next < b.bytes.len(),
    ensures
        ({
            let c = b.new_page();
            &&& c.wf()
            &&& c.bytes.len() == b.bytes.len() + 4096
            &&& c.next == b.bytes.len() + 0x20
            &&& get32(c.bytes, b.next) == b.bytes.len() - b.next
        }),
{
    broadcast use group_le_len;
    let pad = b.bytes.len() - b.next;
    let c = b.new_page();
    lemma_le32_round_trip(pad);
    assert(get32(c.bytes, b.next) == get32(le32(pad), 0));
}

/// File times: 1970 is 11644473600 seconds after their start, and a second has
/// ten million of their steps.
pub proof fn law_file_times(secs: int)
    requires
        0 <= secs < 0x100_0000_0000,
    ensures
        filetime(0) == 116_444_736_000_000_000,
        0 <= filetime(secs) < 0x1_0000_0000_0000_0000,
        secs <= 1_000_000_000_000 ==> filetime(secs) == 116_444_736_000_000_000 + secs * 10_000_000,
{
}

/// Every page of a store starts with a header of its own.
pub proof fn law_store_pages(tree: KeyModel, t: int, k: int)
    requires
        key_fits(tree),
        8192 * key_cells(tree) <= 0x6000_0000,
        0 <= t < 0x1_0000_0000_0000_0000,
        0 <= k < (store_file(tree, t).len() - 4096) / 4096,
        4096 * k < 0x1_0000_0000,
    ensures
        ({
            let f = store_file(tree, t);
            let p = 4096 + 4096 * k;
            &&& f.subrange(p, p + 4) == seq![0x68u8, 0x62, 0x69, 0x6e]
            &&& get32(f, p + 4) == 4096 * k
            &&& get32(f, p + 8) == 4096
        }),
{
    law_store_frame(tree, t);
    law_page_header(k);
    let f = store_file(tree, t);
    let p = 4096 + 4096 * k;
    let h = hbin_header(4096 * k);
    assert(f.subrange(p, p + 12) == h);
    assert forall|i: int| 0 <= i < 12 implies #[trigger] h[i] == f[p + i] by {
        assert(f.subrange(p, p + 12)[i] == f[p + i]);
    }
    assert(h.take(4) =~= f.subrange(p, p + 4));
}

} // verus!
