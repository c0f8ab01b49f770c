//! A whole hive file: a key tree, one shared security record, the base block.

use crate::bytes::{group_le_len, le16, le32, push_bytes, push_u16, push_u32};
use crate::hive::{hive_file, lemma_alloc, Bins, Hive};
use crate::hive_key::{
    key_cells, key_fits, lemma_patch_each_shape, lemma_put_key_grown, lemma_put_keys_grown,
    patch_each, put_key, put_keys, put_sublist, put_value, put_values, put_vlist, write_key, Key,
    KeyModel, ValModel, nk_record, value_fits, lf_record, cell_list, vk_record,
    lemma_lf_entries_len, lemma_cell_list_len, lemma_nk_record_len, lemma_put_values_grown,
};
use crate::hive_order::{lemma_ordered_fits, ordered};
use vstd::prelude::*;

verus! {

/// Self-relative security descriptor: owner BUILTIN\Administrators, group
/// SYSTEM, protected DACL.
#[verifier::opaque]
pub open spec fn security_descriptor() -> Seq<u8> {
    seq![
        0x01, 0x00, 0x04, 0x80, 0x48, 0x00, 0x00, 0x00, 0x58, 0x00, 0x00, 0x00,
        0x00, 0x00, 0x00, 0x00, 0x14, 0x00, 0x00, 0x00, 0x02, 0x00, 0x34, 0x00,
        0x02, 0x00, 0x00, 0x00, 0x00, 0x00, 0x18, 0x00, 0x19, 0x00, 0x06, 0x00,
        0x01, 0x02, 0x00, 0x00, 0x00, 0x00, 0x00, 0x05, 0x20, 0x00, 0x00, 0x00,
        0x20, 0x02, 0x00, 0x00, 0x00, 0x00, 0x14, 0x00, 0x3f, 0x00, 0x0f, 0x00,
        0x01, 0x01, 0x00, 0x00, 0x00, 0x00, 0x00, 0x05, 0x12, 0x00, 0x00, 0x00,
        0x01, 0x02, 0x00, 0x00, 0x00, 0x00, 0x00, 0x05, 0x20, 0x00, 0x00, 0x00,
        0x20, 0x02, 0x00, 0x00, 0x01, 0x05, 0x00, 0x00, 0x00, 0x00, 0x00, 0x05,
        0x15, 0x00, 0x00, 0x00, 0xd1, 0xf8, 0x51, 0xc0, 0x17, 0xa3, 0x1a, 0x0d,
        0x1b, 0x9c, 0x9a, 0x56, 0xe9, 0x03, 0x00, 0x00,
    ]
}

fn security_descriptor_bytes() -> (d: [u8; 116])
    ensures
        d@ == security_descriptor(),
{
    let d: [u8; 116] = [
        0x01, 0x00, 0x04, 0x80, 0x48, 0x00, 0x00, 0x00, 0x58, 0x00, 0x00, 0x00,
        0x00, 0x00, 0x00, 0x00, 0x14, 0x00, 0x00, 0x00, 0x02, 0x00, 0x34, 0x00,
        0x02, 0x00, 0x00, 0x00, 0x00, 0x00, 0x18, 0x00, 0x19, 0x00, 0x06, 0x00,
        0x01, 0x02, 0x00, 0x00, 0x00, 0x00, 0x00, 0x05, 0x20, 0x00, 0x00, 0x00,
        0x20, 0x02, 0x00, 0x00, 0x00, 0x00, 0x14, 0x00, 0x3f, 0x00, 0x0f, 0x00,
        0x01, 0x01, 0x00, 0x00, 0x00, 0x00, 0x00, 0x05, 0x12, 0x00, 0x00, 0x00,
        0x01, 0x02, 0x00, 0x00, 0x00, 0x00, 0x00, 0x05, 0x20, 0x00, 0x00, 0x00,
        0x20, 0x02, 0x00, 0x00, 0x01, 0x05, 0x00, 0x00, 0x00, 0x00, 0x00, 0x05,
        0x15, 0x00, 0x00, 0x00, 0xd1, 0xf8, 0x51, 0xc0, 0x17, 0xa3, 0x1a, 0x0d,
        0x1b, 0x9c, 0x9a, 0x56, 0xe9, 0x03, 0x00, 0x00,
    ];
    proof {
        reveal(security_descriptor);
        assert(d@ =~= security_descriptor());
    }
    d
}

pub broadcast proof fn lemma_security_descriptor_len()
    ensures
        (#[trigger] security_descriptor()).len() == 116,
{
    reveal(security_descriptor);
}

/// The security record shared by `refs` keys; its list pointers are still
/// open.
pub open spec fn sk_record(refs: int) -> Seq<u8> {
    seq![0x73u8, 0x6b]  // "sk"
         + le16(0) + seq![0xffu8, 0xff, 0xff, 0xff] + le32(0) + le32(refs) + le32(116)
        + security_descriptor()
}

/// The pages with the security record behind the key tree, linked to itself
/// and from every key.
#[verifier::opaque]
pub open spec fn secured(b: Bins) -> Bins {
    let rec = sk_record(b.nks.len() as int);
    let sk = b.cell_at(rec);
    patch_each(b.alloc_cell(rec).patch(sk, 0x04, sk).patch(sk, 0x08, sk), b.nks, 44, sk)
}

/// The hive file that holds `tree`, its subkeys as they are.
pub open spec fn tree_file(tree: KeyModel, filetime: int) -> Seq<u8> {
    let (b, root) = put_key(Bins::empty(), tree, true, filetime, 0);
    hive_file(secured(b), filetime, root)
}

/// The hive file that holds `tree`, the subkeys of every key in ascending order
/// of their names.
pub open spec fn store_file(tree: KeyModel, filetime: int) -> Seq<u8> {
    tree_file(ordered(tree), filetime)
}

// ---- where key nodes lie --------------------------------------------------

/// Key nodes lie one behind another, each with room for its fixed part.
pub open spec fn nks_apart(b: Bins) -> bool {
    &&& forall|i: int|
        0 <= i < b.nks.len() ==> 0x20 <= #[trigger] b.nks[i] && b.nks[i] + 80 <= b.next
    &&& forall|i: int, j: int|
        0 <= i < j < b.nks.len() ==> #[trigger] b.nks[i] + 80 <= #[trigger] b.nks[j]
}

/// `c` has the key nodes of `b` and more, all of them behind those of `b`.
pub open spec fn nks_extend(b: Bins, c: Bins) -> bool {
    &&& b.nks.len() <= c.nks.len()
    &&& forall|i: int| 0 <= i < b.nks.len() ==> #[trigger] c.nks[i] == b.nks[i]
    &&& forall|i: int| b.nks.len() <= i < c.nks.len() ==> b.next <= #[trigger] c.nks[i]
    &&& nks_apart(c)
}

pub proof fn lemma_put_value_nks(b: Bins, name: Seq<char>, val: ValModel)
    requires
        b.wf(),
        value_fits(name, val),
    ensures
        put_value(b, name, val).0.nks == b.nks,
{
    broadcast use group_le_len;
    match val {
        ValModel::Dword(v) => {
            lemma_alloc(b, vk_record(name, val, v));
        },
        _ => {
            lemma_alloc(b, val.data());
            lemma_alloc(
                b.alloc_cell(val.data()),
                vk_record(name, val, b.cell_at(val.data())),
            );
        },
    }
}

pub proof fn lemma_put_values_nks(b: Bins, values: Seq<(Seq<char>, ValModel)>)
    requires
        b.wf(),
        forall|i: int|
            0 <= i < values.len() ==> value_fits((#[trigger] values[i]).0, values[i].1),
    ensures
        put_values(b, values).0.nks == b.nks,
    decreases values.len(),
{
    if values.len() > 0 {
        let front = values.drop_last();
        assert forall|i: int| 0 <= i < front.len() implies value_fits(
            (#[trigger] front[i]).0,
            front[i].1,
        ) by {
            assert(front[i] == values[i]);
        }
        lemma_put_values_nks(b, front);
        lemma_put_values_grown(b, front);
        assert(values.last() == values[values.len() - 1]);
        lemma_put_value_nks(put_values(b, front).0, values.last().0, values.last().1);
    }
}

pub proof fn lemma_put_keys_nks(b: Bins, children: Seq<KeyModel>, filetime: int, sk: int)
    requires
        b.wf(),
        nks_apart(b),
        forall|i: int| 0 <= i < children.len() ==> key_fits(#[trigger] children[i]),
    ensures
        nks_extend(b, put_keys(b, children, filetime, sk).0),
    decreases children,
{
    if children.len() > 0 {
        let front = children.drop_last();
        assert forall|i: int| 0 <= i < front.len() implies key_fits(#[trigger] front[i]) by {
            assert(front[i] == children[i]);
        }
        lemma_put_keys_nks(b, front, filetime, sk);
        lemma_put_keys_grown(b, front, filetime, sk);
        assert(children.last() == children[children.len() - 1]);
        let b1 = put_keys(b, front, filetime, sk).0;
        lemma_put_key_nks(b1, children.last(), false, filetime, sk);
    }
}

pub proof fn lemma_put_key_nks(b: Bins, key: KeyModel, root: bool, filetime: int, sk: int)
    requires
        b.wf(),
        nks_apart(b),
        key_fits(key),
    ensures
        nks_extend(b, put_key(b, key, root, filetime, sk).0),
        put_key(b, key, root, filetime, sk).0.nks.len() > 0,
        put_key(b, key, root, filetime, sk).0.nks.last() == put_key(b, key, root, filetime, sk).1,
    decreases key,
{
    broadcast use group_le_len;
    lemma_put_keys_grown(b, key.children, filetime, sk);
    lemma_put_keys_nks(b, key.children, filetime, sk);
    let (b1, kids) = put_keys(b, key.children, filetime, sk);
    let (b2, sublist) = put_sublist(b1, key.children, kids);
    lemma_lf_entries_len(key.children, kids);
    if key.children.len() > 0 {
        lemma_alloc(b1, lf_record(key.children, kids));
    }
    lemma_put_values_grown(b2, key.values);
    lemma_put_values_nks(b2, key.values);
    let (b3, vks) = put_values(b2, key.values);
    lemma_cell_list_len(vks);
    let (b4, vlist) = put_vlist(b3, vks);
    if vks.len() > 0 {
        lemma_alloc(b3, cell_list(vks));
    }
    let rec = nk_record(key, root, filetime, sk, sublist, vlist);
    lemma_nk_record_len(key, root, filetime, sk, sublist, vlist);
    lemma_alloc(b4, rec);
    let idx = b4.cell_at(rec);
    let b5 = b4.alloc_cell(rec).with_nk(idx);
    lemma_patch_each_shape(b5, kids, 0x10, idx);
    assert(b5.nks == b1.nks.push(idx));
}

/// The hive file that holds `root`, the subkeys of every key in ascending order
/// of their names.
pub fn write_store(root: &Key, filetime: u64) -> (out: Vec<u8>)
    requires
        key_fits(root@),
        8192 * key_cells(root@) <= 0x6000_0000,
    ensures
        out@ == store_file(root@, filetime as int),
{
    broadcast use {group_le_len, lemma_security_descriptor_len};
    let mut hive = Hive::new();
    let ghost b0 = hive@;
    let root_idx: u32 = write_key(&mut hive, 0, root, true, filetime);
    let ghost b = hive@;
    proof {
        lemma_ordered_fits(root@);
        lemma_put_key_grown(b0, ordered(root@), true, filetime as int, 0);
        lemma_put_key_nks(b0, ordered(root@), true, filetime as int, 0);
        lemma_nk_count(b);
    }
    // Shared security record, linked to itself; one reference for each key.
    let n: usize = hive.nk_count();
    let mut rec: Vec<u8> = Vec::new();
    rec.push(0x73);
    rec.push(0x6b);
    push_u16(&mut rec, 0);
    rec.push(0xff);
    rec.push(0xff);
    rec.push(0xff);
    rec.push(0xff);
    push_u32(&mut rec, 0);
    push_u32(&mut rec, n as u32);
    push_u32(&mut rec, 116);
    let descriptor = security_descriptor_bytes();
    push_bytes(&mut rec, descriptor.as_slice());
    assert(rec@ =~= sk_record(n as int));
    proof {
        lemma_alloc(b, rec@);
    }
    let sk: u32 = hive.alloc_cell(rec.as_slice());
    hive.patch_u32(sk, 0x04, sk);
    hive.patch_u32(sk, 0x08, sk);
    let ghost b1 = hive@;
    let mut i: usize = 0;
    assert(b.nks.take(0) =~= seq![]);
    while i < n
        invariant
            i <= n == b.nks.len(),
            b1.nks == b.nks,
            b1.bytes.len() <= 0x7FFF_0000,
            b1.wf(),
            nks_apart(b),
            b.next <= b1.next,
            hive@ == patch_each(b1, b.nks.take(i as int), 44, sk as int),
        decreases n - i,
    {
        proof {
            lemma_patch_each_shape(b1, b.nks.take(i as int), 44, sk as int);
            assert(b.nks.take(i + 1).drop_last() =~= b.nks.take(i as int));
            assert(b.nks.take(i + 1).last() == b.nks[i as int]);
            assert(b.nks[i as int] + 80 <= b.next);
        }
        let nk: u32 = hive.nk(i);
        hive.patch_u32(nk, 44, sk);
        i += 1;
    }
    proof {
        reveal(secured);
        assert(b.nks.take(n as int) =~= b.nks);
        lemma_patch_each_shape(b1, b.nks, 44, sk as int);
    }
    hive.finish(filetime, root_idx)
}

/// There are no more key nodes than fit in front of the free space.
pub proof fn lemma_nk_count(b: Bins)
    requires
        nks_apart(b),
    ensures
        80 * b.nks.len() <= b.next || b.nks.len() == 0,
{
    assert forall|k: int| 0 <= k < b.nks.len() implies 80 * k <= #[trigger] b.nks[k] by {
        lemma_nk_rank(b, k);
    }
    if b.nks.len() > 0 {
        assert(80 * (b.nks.len() - 1) <= b.nks[b.nks.len() - 1]);
    }
}

proof fn lemma_nk_rank(b: Bins, k: int)
    requires
        nks_apart(b),
        0 <= k < b.nks.len(),
    ensures
        80 * k <= b.nks[k],
    decreases k,
{
    if k > 0 {
        lemma_nk_rank(b, k - 1);
        assert(b.nks[k - 1] + 80 <= b.nks[k]);
    }
}

} // verus!
