//! Where the time stamps of a hive file stand: two files of one tree differ in
//! their time stamps and in the checksum that covers the first of them, and
//! nowhere else.

use crate::bytes::group_le_len;
use crate::hive::{base_block, hive_file, stamped, Bins};
use crate::hive_key::{
    cell_list, lf_record, nk_record, patch_each, put_key, put_keys, put_sublist, put_value,
    put_values, put_vlist, vk_record, KeyModel, ValModel,
};
use crate::hive_order::ordered;
use crate::hive_store::{secured, sk_record, store_file};
use vstd::prelude::*;

verus! {

/// Whether `p` lies in the time stamp of one of the key nodes `nks`.
pub open spec fn in_stamp(nks: Seq<int>, p: int) -> bool {
    exists|k: int| 0 <= k < nks.len() && #[trigger] nks[k] + 8 <= p < nks[k] + 16
}

/// The same pages but for the time stamps of key nodes.
pub open spec fn alike(b: Bins, c: Bins) -> bool {
    &&& b.next == c.next
    &&& b.nks == c.nks
    &&& b.bytes.len() == c.bytes.len()
    &&& forall|p: int|
        0 <= p < b.bytes.len() && !in_stamp(b.nks, p) ==> #[trigger] b.bytes[p] == c.bytes[p]
}

proof fn lemma_alloc_alike(b: Bins, c: Bins, payload: Seq<u8>)
    requires
        alike(b, c),
    ensures
        alike(b.alloc_cell(payload), c.alloc_cell(payload)),
        b.cell_at(payload) == c.cell_at(payload),
        b.alloc_cell(payload).nks == b.nks,
{
    reveal(Bins::alloc_cell);
    reveal(Bins::cell_at);
}

proof fn lemma_patch_alike(b: Bins, c: Bins, cell: int, off: int, v: int)
    requires
        alike(b, c),
    ensures
        alike(b.patch(cell, off, v), c.patch(cell, off, v)),
{
}

proof fn lemma_patch_each_alike(b: Bins, c: Bins, cells: Seq<int>, off: int, v: int)
    requires
        alike(b, c),
    ensures
        alike(patch_each(b, cells, off, v), patch_each(c, cells, off, v)),
    decreases cells.len(),
{
    if cells.len() > 0 {
        let front = cells.drop_last();
        lemma_patch_each_alike(b, c, front, off, v);
        lemma_patch_alike(
            patch_each(b, front, off, v),
            patch_each(c, front, off, v),
            cells.last(),
            off,
            v,
        );
    }
}

proof fn lemma_value_alike(b: Bins, c: Bins, name: Seq<char>, val: ValModel)
    requires
        alike(b, c),
    ensures
        alike(put_value(b, name, val).0, put_value(c, name, val).0),
        put_value(b, name, val).1 == put_value(c, name, val).1,
{
    match val {
        ValModel::Dword(v) => {
            lemma_alloc_alike(b, c, vk_record(name, val, v));
        },
        _ => {
            lemma_alloc_alike(b, c, val.data());
            lemma_alloc_alike(
                b.alloc_cell(val.data()),
                c.alloc_cell(val.data()),
                vk_record(name, val, b.cell_at(val.data())),
            );
        },
    }
}

proof fn lemma_values_alike(b: Bins, c: Bins, values: Seq<(Seq<char>, ValModel)>)
    requires
        alike(b, c),
    ensures
        alike(put_values(b, values).0, put_values(c, values).0),
        put_values(b, values).1 == put_values(c, values).1,
    decreases values.len(),
{
    if values.len() > 0 {
        let front = values.drop_last();
        lemma_values_alike(b, c, front);
        lemma_value_alike(
            put_values(b, front).0,
            put_values(c, front).0,
            values.last().0,
            values.last().1,
        );
    }
}

/// Key nodes of two times differ in the stamp.
proof fn lemma_records_differ(
    key: KeyModel,
    root: bool,
    s: int,
    t: int,
    sk: int,
    sublist: int,
    vlist: int,
)
    ensures
        ({
            let x = nk_record(key, root, s, sk, sublist, vlist);
            let y = nk_record(key, root, t, sk, sublist, vlist);
            &&& x.len() == y.len()
            &&& forall|i: int| 0 <= i < x.len() && !(4 <= i < 12) ==> #[trigger] x[i] == y[i]
        }),
{
    broadcast use group_le_len;
    reveal(nk_record);
}

/// A key node of another time leaves the pages alike.
proof fn lemma_node_alike(b: Bins, c: Bins, x: Seq<u8>, y: Seq<u8>)
    requires
        alike(b, c),
        x.len() == y.len(),
        forall|i: int| 0 <= i < x.len() && !(4 <= i < 12) ==> #[trigger] x[i] == y[i],
    ensures
        b.cell_at(x) == c.cell_at(y),
        alike(
            b.alloc_cell(x).with_nk(b.cell_at(x)),
            c.alloc_cell(y).with_nk(c.cell_at(y)),
        ),
{
    reveal(Bins::alloc_cell);
    reveal(Bins::cell_at);
    let idx = b.cell_at(x);
    let d = b.alloc_cell(x).with_nk(idx);
    let e = c.alloc_cell(y).with_nk(idx);
    assert forall|p: int| 0 <= p < d.bytes.len() && !in_stamp(d.nks, p) implies
        #[trigger] d.bytes[p] == e.bytes[p] by {
        assert(d.nks[b.nks.len() as int] == idx);
        assert(!(idx + 8 <= p < idx + 16));
        if in_stamp(b.nks, p) {
            let k = choose|k: int| 0 <= k < b.nks.len() && #[trigger] b.nks[k] + 8 <= p < b.nks[k]
                + 16;
            assert(d.nks[k] == b.nks[k]);
        }
        if idx + 4 <= p < idx + 4 + x.len() {
            assert(x[p - idx - 4] == y[p - idx - 4]);
        }
    }
}

proof fn lemma_keys_alike(b: Bins, c: Bins, children: Seq<KeyModel>, s: int, t: int, sk: int)
    requires
        alike(b, c),
    ensures
        alike(put_keys(b, children, s, sk).0, put_keys(c, children, t, sk).0),
        put_keys(b, children, s, sk).1 == put_keys(c, children, t, sk).1,
    decreases children,
{
    if children.len() > 0 {
        let front = children.drop_last();
        let last = children[children.len() - 1];
        assert(children.last() == last);
        lemma_keys_alike(b, c, front, s, t, sk);
        lemma_key_alike(
            put_keys(b, front, s, sk).0,
            put_keys(c, front, t, sk).0,
            last,
            false,
            s,
            t,
            sk,
        );
    }
}

proof fn lemma_key_alike(
    b: Bins,
    c: Bins,
    key: KeyModel,
    root: bool,
    s: int,
    t: int,
    sk: int,
)
    requires
        alike(b, c),
    ensures
        alike(put_key(b, key, root, s, sk).0, put_key(c, key, root, t, sk).0),
        put_key(b, key, root, s, sk).1 == put_key(c, key, root, t, sk).1,
    decreases key,
{
    lemma_keys_alike(b, c, key.children, s, t, sk);
    let (b1, kids) = put_keys(b, key.children, s, sk);
    let c1 = put_keys(c, key.children, t, sk).0;
    lemma_alloc_alike(b1, c1, lf_record(key.children, kids));
    let (b2, sublist) = put_sublist(b1, key.children, kids);
    let c2 = put_sublist(c1, key.children, kids).0;
    lemma_values_alike(b2, c2, key.values);
    let (b3, vks) = put_values(b2, key.values);
    let c3 = put_values(c2, key.values).0;
    lemma_alloc_alike(b3, c3, cell_list(vks));
    let (b4, vlist) = put_vlist(b3, vks);
    let c4 = put_vlist(c3, vks).0;
    let x = nk_record(key, root, s, sk, sublist, vlist);
    let y = nk_record(key, root, t, sk, sublist, vlist);
    lemma_records_differ(key, root, s, t, sk, sublist, vlist);
    lemma_node_alike(b4, c4, x, y);
    let idx = b4.cell_at(x);
    lemma_patch_each_alike(
        b4.alloc_cell(x).with_nk(idx),
        c4.alloc_cell(y).with_nk(idx),
        kids,
        0x10,
        idx,
    );
}

proof fn lemma_secured_alike(b: Bins, c: Bins)
    requires
        alike(b, c),
    ensures
        alike(secured(b), secured(c)),
        secured(b).nks == b.nks,
{
    reveal(secured);
    let rec = sk_record(b.nks.len() as int);
    let sk = b.cell_at(rec);
    lemma_alloc_alike(b, c, rec);
    let b1 = b.alloc_cell(rec);
    let c1 = c.alloc_cell(rec);
    lemma_patch_alike(b1, c1, sk, 0x04, sk);
    lemma_patch_alike(b1.patch(sk, 0x04, sk), c1.patch(sk, 0x04, sk), sk, 0x08, sk);
    let b2 = b1.patch(sk, 0x04, sk).patch(sk, 0x08, sk);
    let c2 = c1.patch(sk, 0x04, sk).patch(sk, 0x08, sk);
    lemma_patch_each_alike(b2, c2, b.nks, 44, sk);
    crate::hive_key::lemma_patch_each_shape(b2, b.nks, 44, sk);
}

/// The key nodes of the store for `tree`.
pub open spec fn nodes_of(tree: KeyModel, filetime: int) -> Seq<int> {
    put_key(Bins::empty(), ordered(tree), true, filetime, 0).0.nks
}

/// Two stores of one tree with different times have the same length and the
/// same key nodes, and differ at most in the time stamp of the base block (12 to
/// 20), in those of the key nodes, and in the checksum (0x1FC to 0x200).
pub proof fn law_only_time_stamps_differ(tree: KeyModel, s: int, t: int)
    ensures
        ({
            let f = store_file(tree, s);
            let g = store_file(tree, t);
            &&& f.len() == g.len()
            &&& nodes_of(tree, s) == nodes_of(tree, t)
            &&& forall|i: int|
                0 <= i < f.len() && !(12 <= i < 20) && !(0x1FC <= i < 0x200) && !in_stamp(
                    nodes_of(tree, s),
                    i - 4096,
                ) ==> #[trigger] f[i] == g[i]
        }),
{
    broadcast use group_le_len;
    let k = ordered(tree);
    let e = Bins::empty();
    lemma_key_alike(e, e, k, true, s, t, 0);
    let (b, root) = put_key(e, k, true, s, 0);
    let c = put_key(e, k, true, t, 0).0;
    lemma_secured_alike(b, c);
    let d = secured(b);
    let h = secured(c);
    let n = d.bytes.len() as int;
    let x = base_block(s, root, n);
    let y = base_block(t, root, n);
    let f = store_file(tree, s);
    let g = store_file(tree, t);
    assert(x.len() == 4096 && y.len() == 4096 && forall|i: int|
        0 <= i < 4096 && !(12 <= i < 20) ==> #[trigger] x[i] == y[i]) by {
        reveal(base_block);
    }
    assert(f == hive_file(d, s, root) && g == hive_file(h, t, root));
    assert forall|i: int|
        0 <= i < f.len() && !(12 <= i < 20) && !(0x1FC <= i < 0x200) && !in_stamp(
            nodes_of(tree, s),
            i - 4096,
        ) implies #[trigger] f[i] == g[i] by {
        if i >= 4096 {
            assert(f[i] == stamped(d.bytes)[i - 4096]);
            assert(g[i] == stamped(h.bytes)[i - 4096]);
            assert(d.bytes[i - 4096] == h.bytes[i - 4096]);
        } else {
            assert(f[i] == x[i]);
            assert(g[i] == y[i]);
        }
    }
}

} // verus!
