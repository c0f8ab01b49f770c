//! What a reader finds in a hive file, and that it is what was written.

use crate::bytes::{
    get16, get32, get64, group_le_len, le16, le32, le64, lemma_le16_round_trip,
    lemma_le32_round_trip, lemma_le64_round_trip, overlay,
};
use crate::hive::{
    base_block, cell_size, hbin_header, lemma_alloc, max_payload, stamped, xor_dwords, Bins,
};
use crate::hive_key::{
    cell_list, key_cells, key_fits, lemma_cell_list_len, lemma_lf_entries_len, lemma_nk_record_len,
    lemma_patch_each_shape, lemma_put_key_grown, lemma_put_keys_grown, lemma_put_value_grown,
    lemma_put_values_grown, lf_entries, lf_record, longest_child_name, longest_value_data,
    longest_value_name, name_hint, nk_record, patch_each, put_key, put_keys, put_sublist, put_value, put_values, put_vlist, value_fits, vk_record, KeyModel,
    ValModel,
};
use crate::hive_store::{
    lemma_security_descriptor_len, lemma_put_key_nks, lemma_put_keys_nks, lemma_put_values_nks,
    nks_apart, nks_extend, secured, security_descriptor, sk_record, store_file, tree_file,
};
use crate::hive_order::{law_ordered_is_sorted, lemma_ordered_fits, ordered, tree_sorted};
use vstd::prelude::*;
use vstd::utf8::encode_utf8;

verus! {

/// The payload of the cell at `idx`, padding and all.
pub open spec fn cell_payload(bins: Seq<u8>, idx: int) -> Seq<u8> {
    bins.subrange(idx + 4, idx + 0x1_0000_0000 - get32(bins, idx))
}

/// Whether an allocated cell stands at `idx`: its size is a multiple of 8,
/// and it lies in one page, behind the page's header.
#[verifier::opaque]
pub open spec fn is_cell(bins: Seq<u8>, idx: int) -> bool {
    let size = 0x1_0000_0000 - get32(bins, idx);
    &&& 0 <= idx
    &&& idx % 8 == 0
    &&& size >= 8
    &&& size % 8 == 0
    &&& idx + size <= bins.len()
    &&& 0x20 <= idx % 4096
    &&& idx % 4096 + size <= 4096
}

/// Whether the cell at `idx` is a value record for `name` and `val`.
pub open spec fn holds_value(bins: Seq<u8>, idx: int, name: Seq<char>, val: ValModel) -> bool {
    let rec = cell_payload(bins, idx);
    let len = encode_utf8(name).len() as int;
    &&& is_cell(bins, idx)
    &&& rec.len() >= 20 + len
    &&& rec[0] == 0x76 && rec[1] == 0x6b  // "vk"
    &&& get16(rec, 2) == len
    &&& get32(rec, 12) == val.kind()
    &&& rec.subrange(20, 20 + len) == encode_utf8(name)
    &&& match val {
        ValModel::Dword(v) => get32(rec, 4) == 0x8000_0004 && get32(rec, 8) == v,
        _ => {
            let data = cell_payload(bins, get32(rec, 8));
            &&& get32(rec, 4) == val.data().len()
            &&& is_cell(bins, get32(rec, 8))
            &&& data.len() >= val.data().len()
            &&& data.take(val.data().len() as int) == val.data()
        },
    }
}

/// Whether a key node has the flags of a root or of another key, and tells the
/// lengths of the longest subkey name, value name and value.
pub open spec fn node_tells(rec: Seq<u8>, key: KeyModel, root: bool) -> bool {
    &&& get16(rec, 2) == if root {
        0x2Cint
    } else {
        0x20
    }
    &&& get32(rec, 52) == longest_child_name(key.children)
    &&& get32(rec, 60) == longest_value_name(key.values)
    &&& get32(rec, 64) == longest_value_data(key.values)
}

/// Whether the cell at `idx` is a key node for `key`, with the security
/// record `sk`, its values and, below it, its subkeys.
pub open spec fn holds_key(bins: Seq<u8>, sk: int, idx: int, key: KeyModel, root: bool) -> bool
    decreases key,
{
    let rec = cell_payload(bins, idx);
    let len = encode_utf8(key.name).len() as int;
    let list = cell_payload(bins, get32(rec, 28));
    let vlist = cell_payload(bins, get32(rec, 40));
    &&& is_cell(bins, idx)
    &&& rec.len() >= 76 + len
    &&& rec[0] == 0x6e && rec[1] == 0x6b  // "nk"
    &&& node_tells(rec, key, root)
    &&& get16(rec, 72) == len
    &&& rec.subrange(76, 76 + len) == encode_utf8(key.name)
    &&& get32(rec, 44) == sk
    &&& get32(rec, 20) == key.children.len()
    &&& if key.children.len() == 0 {
        get32(rec, 28) == 0xFFFF_FFFF
    } else {
        &&& is_cell(bins, get32(rec, 28))
        &&& list.len() >= 4 + 8 * key.children.len()
        &&& list[0] == 0x6c && list[1] == 0x66  // "lf"
        &&& get16(list, 2) == key.children.len()
    }
    &&& forall|i: int|
        0 <= i < key.children.len() ==> {
            let cell = get32(list, 4 + 8 * i);
            &&& list.subrange(8 + 8 * i, 12 + 8 * i) == name_hint(
                (#[trigger] key.children[i]).name,
            )
            &&& get32(cell_payload(bins, cell), 16) == idx
            &&& holds_key(bins, sk, cell, key.children[i], false)
        }
    &&& get32(rec, 36) == key.values.len()
    &&& if key.values.len() == 0 {
        get32(rec, 40) == 0xFFFF_FFFF
    } else {
        &&& is_cell(bins, get32(rec, 40))
        &&& vlist.len() >= 4 * key.values.len()
    }
    &&& forall|i: int|
        0 <= i < key.values.len() ==> holds_value(
            bins,
            get32(vlist, 4 * i),
            (#[trigger] key.values[i]).0,
            key.values[i].1,
        )
}

// ---- what later writes leave alone --------------------------------------

/// `c` has the bytes of `b` in front of `b.next`.
pub open spec fn keeps(b: Bins, c: Bins) -> bool {
    &&& b.bytes.len() <= c.bytes.len()
    &&& b.next <= c.next
    &&& forall|p: int| 0 <= p < b.next ==> #[trigger] c.bytes[p] == b.bytes[p]
}

proof fn lemma_put_value_keeps(b: Bins, name: Seq<char>, val: ValModel)
    requires
        b.wf(),
        value_fits(name, val),
    ensures
        keeps(b, put_value(b, name, val).0),
{
    broadcast use group_le_len;
    match val {
        ValModel::Dword(v) => {
            lemma_alloc(b, vk_record(name, val, v));
        },
        _ => {
            lemma_alloc(b, val.data());
            lemma_alloc(
                b.alloc_cell(val.data()),
                vk_record(name, val, b.cell_at(val.data())),
            );
        },
    }
}

proof fn lemma_put_values_keeps(b: Bins, values: Seq<(Seq<char>, ValModel)>)
    requires
        b.wf(),
        forall|i: int|
            0 <= i < values.len() ==> value_fits((#[trigger] values[i]).0, values[i].1),
    ensures
        keeps(b, put_values(b, values).0),
    decreases values.len(),
{
    if values.len() > 0 {
        let front = values.drop_last();
        assert forall|i: int| 0 <= i < front.len() implies value_fits(
            (#[trigger] front[i]).0,
            front[i].1,
        ) by {
            assert(front[i] == values[i]);
        }
        lemma_put_values_keeps(b, front);
        lemma_put_values_grown(b, front);
        assert(values.last() == values[values.len() - 1]);
        lemma_put_value_keeps(put_values(b, front).0, values.last().0, values.last().1);
    }
}

/// Whether `p` lies in the four bytes at `off` of the payload of one of
/// `cells`.
pub open spec fn in_field(cells: Seq<int>, off: int, p: int) -> bool {
    exists|i: int|
        0 <= i < cells.len() && #[trigger] cells[i] + 4 + off <= p < cells[i] + 8 + off
}

/// Key nodes with room between them.
pub open spec fn apart(cells: Seq<int>) -> bool {
    forall|i: int, j: int|
        0 <= i < j < cells.len() ==> #[trigger] cells[i] + 80 <= #[trigger] cells[j]
}

/// Patching changes the patched fields and nothing else.
#[verifier::rlimit(40)]
proof fn lemma_patch_each(b: Bins, cells: Seq<int>, off: int, v: int)
    requires
        apart(cells),
        0 <= off <= 72,
        forall|i: int|
            0 <= i < cells.len() ==> 0 <= #[trigger] cells[i] && cells[i] + 80 <= b.bytes.len(),
    ensures
        forall|p: int|
            0 <= p < b.bytes.len() && !in_field(cells, off, p)
                ==> #[trigger] patch_each(b, cells, off, v).bytes[p] == b.bytes[p],
        forall|i: int|
            0 <= i < cells.len() ==> patch_each(b, cells, off, v).bytes.subrange(
                (#[trigger] cells[i]) + 4 + off,
                cells[i] + 8 + off,
            ) == le32(v),
    decreases cells.len(),
{
    broadcast use group_le_len;
    lemma_patch_each_shape(b, cells, off, v);
    if cells.len() > 0 {
        let front = cells.drop_last();
        assert forall|i: int, j: int| 0 <= i < j < front.len() implies #[trigger] front[i] + 80
            <= #[trigger] front[j] by {
            assert(front[i] == cells[i] && front[j] == cells[j]);
        }
        assert forall|i: int| 0 <= i < front.len() implies 0 <= #[trigger] front[i] && front[i] + 80
            <= b.bytes.len() by {
            assert(front[i] == cells[i]);
        }
        lemma_patch_each(b, front, off, v);
        lemma_patch_each_shape(b, front, off, v);
        let c = patch_each(b, front, off, v);
        let d = patch_each(b, cells, off, v);
        let last = cells[cells.len() - 1];
        assert(cells.last() == last);
        assert forall|p: int| 0 <= p < b.bytes.len() && !in_field(cells, off, p) implies
            #[trigger] d.bytes[p] == b.bytes[p] by {
            assert(!(last + 4 + off <= p < last + 8 + off));
            assert(!in_field(front, off, p)) by {
                if in_field(front, off, p) {
                    let i = choose|i: int|
                        0 <= i < front.len() && #[trigger] front[i] + 4 + off <= p < front[i] + 8
                            + off;
                    assert(cells[i] == front[i]);
                }
            }
            assert(c.bytes[p] == b.bytes[p]);
        }
        assert forall|i: int| 0 <= i < cells.len() implies d.bytes.subrange(
            (#[trigger] cells[i]) + 4 + off,
            cells[i] + 8 + off,
        ) == le32(v) by {
            if i < front.len() {
                assert(front[i] == cells[i]);
                assert(cells[i] + 80 <= cells[cells.len() - 1]);
                assert(d.bytes.subrange(cells[i] + 4 + off, cells[i] + 8 + off)
                    =~= c.bytes.subrange(front[i] + 4 + off, front[i] + 8 + off));
            } else {
                assert(d.bytes.subrange(last + 4 + off, last + 8 + off) =~= le32(v));
            }
        }
    }
}

/// The subkeys lie apart and behind the start; earlier bytes stay.
proof fn lemma_put_keys_keeps(b: Bins, children: Seq<KeyModel>, filetime: int, sk: int)
    requires
        b.wf(),
        forall|i: int| 0 <= i < children.len() ==> key_fits(#[trigger] children[i]),
    ensures
        keeps(b, put_keys(b, children, filetime, sk).0),
        apart(put_keys(b, children, filetime, sk).1),
    decreases children,
{
    if children.len() > 0 {
        let front = children.drop_last();
        assert forall|i: int| 0 <= i < front.len() implies key_fits(#[trigger] front[i]) by {
            assert(front[i] == children[i]);
        }
        lemma_put_keys_keeps(b, front, filetime, sk);
        lemma_put_keys_grown(b, front, filetime, sk);
        assert(children.last() == children[children.len() - 1]);
        let b1 = put_keys(b, front, filetime, sk).0;
        lemma_put_key_keeps(b1, children.last(), false, filetime, sk);
        lemma_put_key_grown(b1, children.last(), false, filetime, sk);
    }
}

proof fn lemma_put_key_keeps(b: Bins, key: KeyModel, root: bool, filetime: int, sk: int)
    requires
        b.wf(),
        key_fits(key),
    ensures
        keeps(b, put_key(b, key, root, filetime, sk).0),
    decreases key,
{
    broadcast use group_le_len;
    lemma_put_keys_grown(b, key.children, filetime, sk);
    lemma_put_keys_keeps(b, key.children, filetime, sk);
    let (b1, kids) = put_keys(b, key.children, filetime, sk);
    let (b2, sublist) = put_sublist(b1, key.children, kids);
    lemma_lf_entries_len(key.children, kids);
    if key.children.len() > 0 {
        lemma_alloc(b1, lf_record(key.children, kids));
    }
    lemma_put_values_grown(b2, key.values);
    lemma_put_values_keeps(b2, key.values);
    let (b3, vks) = put_values(b2, key.values);
    lemma_cell_list_len(vks);
    let (b4, vlist) = put_vlist(b3, vks);
    if vks.len() > 0 {
        lemma_alloc(b3, cell_list(vks));
    }
    let rec = nk_record(key, root, filetime, sk, sublist, vlist);
    lemma_nk_record_len(key, root, filetime, sk, sublist, vlist);
    lemma_alloc(b4, rec);
    let idx = b4.cell_at(rec);
    let b5 = b4.alloc_cell(rec).with_nk(idx);
    lemma_patch_each_shape(b5, kids, 0x10, idx);
    lemma_patch_each(b5, kids, 0x10, idx);
    let c = patch_each(b5, kids, 0x10, idx);
    assert forall|p: int| 0 <= p < b.next implies #[trigger] c.bytes[p] == b.bytes[p] by {
        assert(!in_field(kids, 16, p));
        assert(b5.bytes[p] == b4.bytes[p]);
        assert(b4.bytes[p] == b3.bytes[p]);
        assert(b3.bytes[p] == b2.bytes[p]);
        assert(b2.bytes[p] == b1.bytes[p]);
    }
}

// ---- reading cells --------------------------------------------------------

/// `f` shows the bytes of `c` from `lo` to `hi`, page headers aside.
spec fn shows(f: Seq<u8>, c: Bins, lo: int, hi: int) -> bool {
    &&& f.len() >= hi
    &&& forall|p: int| lo <= p < hi && p % 4096 >= 0x20 ==> #[trigger] f[p] == c.bytes[p]
}

/// A cell with `payload` stands at `idx`.
spec fn cell_seen(f: Seq<u8>, idx: int, payload: Seq<u8>) -> bool {
    let rec = cell_payload(f, idx);
    &&& is_cell(f, idx)
    &&& rec.len() >= payload.len()
    &&& forall|j: int| 0 <= j < payload.len() ==> #[trigger] rec[j] == payload[j]
}

proof fn lemma_size_word(f: Seq<u8>, idx: int, n: int)
    requires
        0 <= n <= max_payload(),
        0 <= idx,
        idx + 4 <= f.len(),
        forall|j: int| 0 <= j < 4 ==> #[trigger] f[idx + j] == le32(0x1_0000_0000 - cell_size(n))[j],
    ensures
        get32(f, idx) == 0x1_0000_0000 - cell_size(n),
{
    lemma_le32_round_trip(0x1_0000_0000 - cell_size(n));
    let w = le32(0x1_0000_0000 - cell_size(n));
    assert(f[idx + 0] == w[0]);
    assert(f[idx + 1] == w[1]);
    assert(f[idx + 2] == w[2]);
    assert(f[idx + 3] == w[3]);
}

/// A cell that was allocated is seen wherever its bytes are shown.
proof fn lemma_seen(b: Bins, payload: Seq<u8>, f: Seq<u8>)
    requires
        b.wf(),
        payload.len() <= max_payload(),
        shows(
            f,
            b.alloc_cell(payload),
            b.cell_at(payload),
            b.alloc_cell(payload).next,
        ),
    ensures
        cell_seen(f, b.cell_at(payload), payload),
        cell_payload(f, b.cell_at(payload)).take(payload.len() as int) == payload,
{
    broadcast use group_le_len;
    lemma_alloc(b, payload);
    let c = b.alloc_cell(payload);
    let idx = b.cell_at(payload);
    let size = cell_size(payload.len() as int);
    assert forall|p: int| idx <= p < idx + size implies #[trigger] f[p] == c.bytes[p] by {
        assert(p / 4096 == idx / 4096);
    }
    let head = c.bytes.subrange(idx, idx + 4);
    assert forall|j: int| 0 <= j < 4 implies #[trigger] f[idx + j] == le32(
        0x1_0000_0000 - size,
    )[j] by {
        assert(head[j] == c.bytes[idx + j]);
    }
    lemma_size_word(f, idx, payload.len() as int);
    reveal(is_cell);
    let rec = cell_payload(f, idx);
    assert forall|j: int| 0 <= j < payload.len() implies #[trigger] rec[j] == payload[j] by {
        assert(c.bytes.subrange(idx + 4, idx + 4 + payload.len())[j] == c.bytes[idx + 4 + j]);
    }
    assert(rec.take(payload.len() as int) =~= payload);
}

/// What the fields of a value record hold.
proof fn lemma_vk_fields(name: Seq<char>, val: ValModel, field: int)
    requires
        value_fits(name, val),
        0 <= field < 0x1_0000_0000,
    ensures
        ({
            let rec = vk_record(name, val, field);
            let len = encode_utf8(name).len() as int;
            &&& rec.len() == 20 + len
            &&& rec[0] == 0x76 && rec[1] == 0x6b
            &&& get16(rec, 2) == len
            &&& get32(rec, 4) == val.size_word()
            &&& get32(rec, 8) == field
            &&& get32(rec, 12) == val.kind()
            &&& rec.subrange(20, 20 + len) == encode_utf8(name)
        }),
{
    broadcast use group_le_len;
    let rec = vk_record(name, val, field);
    let len = encode_utf8(name).len() as int;
    lemma_le16_round_trip(len);
    lemma_le32_round_trip(val.size_word());
    lemma_le32_round_trip(field);
    lemma_le32_round_trip(val.kind());
    assert(get16(rec, 2) == get16(le16(len), 0));
    assert(get32(rec, 4) == get32(le32(val.size_word()), 0));
    assert(get32(rec, 8) == get32(le32(field), 0));
    assert(get32(rec, 12) == get32(le32(val.kind()), 0));
    assert(rec.subrange(20, 20 + len) =~= encode_utf8(name));
}

proof fn lemma_value_read(b: Bins, name: Seq<char>, val: ValModel, f: Seq<u8>)
    requires
        b.wf(),
        value_fits(name, val),
        put_value(b, name, val).0.next <= 0x7000_0000,
        shows(f, put_value(b, name, val).0, b.next, put_value(b, name, val).0.next),
    ensures
        holds_value(f, put_value(b, name, val).1, name, val),
{
    broadcast use group_le_len;
    lemma_put_value_grown(b, name, val);
    match val {
        ValModel::Dword(v) => {
            let rec = vk_record(name, val, v);
            lemma_alloc(b, rec);
            lemma_seen(b, rec, f);
            lemma_vk_fields(name, val, v);
            lemma_value_from_record(f, b.cell_at(rec), name, val, v);
        },
        _ => {
            let b1 = b.alloc_cell(val.data());
            let field = b.cell_at(val.data());
            lemma_alloc(b, val.data());
            let rec = vk_record(name, val, field);
            lemma_alloc(b1, rec);
            lemma_seen(b1, rec, f);
            lemma_vk_fields(name, val, field);
            assert(shows(f, b1, field, b1.next));
            lemma_seen(b, val.data(), f);
            lemma_value_from_record(f, b1.cell_at(rec), name, val, field);
        },
    }
}

proof fn lemma_value_from_record(
    f: Seq<u8>,
    idx: int,
    name: Seq<char>,
    val: ValModel,
    field: int,
)
    requires
        value_fits(name, val),
        0 <= field < 0x1_0000_0000,
        cell_seen(f, idx, vk_record(name, val, field)),
        match val {
            ValModel::Dword(v) => field == v,
            _ => cell_seen(f, field, val.data()) && cell_payload(f, field).take(
                val.data().len() as int,
            ) == val.data(),
        },
    ensures
        holds_value(f, idx, name, val),
{
    lemma_vk_fields(name, val, field);
    let rec = vk_record(name, val, field);
    let seen = cell_payload(f, idx);
    let len = encode_utf8(name).len() as int;
    assert(get16(seen, 2) == get16(rec, 2));
    assert(get32(seen, 4) == get32(rec, 4));
    assert(get32(seen, 8) == get32(rec, 8));
    assert(get32(seen, 12) == get32(rec, 12));
    assert(seen.subrange(20, 20 + len) =~= rec.subrange(20, 20 + len));
}

proof fn lemma_values_read(b: Bins, values: Seq<(Seq<char>, ValModel)>, f: Seq<u8>)
    requires
        b.wf(),
        forall|i: int|
            0 <= i < values.len() ==> value_fits((#[trigger] values[i]).0, values[i].1),
        put_values(b, values).0.next <= 0x7000_0000,
        shows(f, put_values(b, values).0, b.next, put_values(b, values).0.next),
    ensures
        forall|i: int|
            0 <= i < values.len() ==> holds_value(
                f,
                put_values(b, values).1[i],
                (#[trigger] values[i]).0,
                values[i].1,
            ),
        forall|i: int|
            0 <= i < values.len() ==> 0 <= #[trigger] put_values(b, values).1[i] < 0x7000_0000,
    decreases values.len(),
{
    if values.len() > 0 {
        let front = values.drop_last();
        assert forall|i: int| 0 <= i < front.len() implies value_fits(
            (#[trigger] front[i]).0,
            front[i].1,
        ) by {
            assert(front[i] == values[i]);
        }
        lemma_put_values_grown(b, front);
        lemma_put_values_grown(b, values);
        let (b1, cells) = put_values(b, front);
        let last = values[values.len() - 1];
        assert(values.last() == last);
        lemma_put_value_grown(b1, last.0, last.1);
        lemma_put_value_keeps(b1, last.0, last.1);
        lemma_put_values_keeps(b, front);
        lemma_values_read(b, front, f);
        lemma_value_read(b1, last.0, last.1, f);
        let all = put_values(b, values).1;
        assert forall|i: int| 0 <= i < values.len() implies holds_value(
            f,
            all[i],
            (#[trigger] values[i]).0,
            values[i].1,
        ) by {
            if i < front.len() {
                assert(front[i] == values[i]);
                assert(all[i] == cells[i]);
            }
        }
        assert forall|i: int| 0 <= i < values.len() implies 0 <= #[trigger] all[i]
            < 0x7000_0000 by {
            if i < front.len() {
                assert(all[i] == cells[i]);
            }
        }
    }
}

/// Offsets are read back from a list of them.
proof fn lemma_cell_list_read(cells: Seq<int>, i: int)
    requires
        0 <= i < cells.len(),
        0 <= cells[i] < 0x1_0000_0000,
    ensures
        get32(cell_list(cells), 4 * i) == cells[i],
    decreases cells.len(),
{
    broadcast use group_le_len;
    lemma_cell_list_len(cells);
    lemma_cell_list_len(cells.drop_last());
    if i < cells.len() - 1 {
        lemma_cell_list_read(cells.drop_last(), i);
        assert(get32(cell_list(cells), 4 * i) == get32(cell_list(cells.drop_last()), 4 * i));
    } else {
        lemma_le32_round_trip(cells[i]);
        assert(get32(cell_list(cells), 4 * i) == get32(le32(cells[i]), 0));
    }
}

/// Offsets and hints are read back from a list of subkeys.
proof fn lemma_lf_read(children: Seq<KeyModel>, cells: Seq<int>, i: int)
    requires
        0 <= i < children.len() == cells.len(),
        0 <= cells[i] < 0x1_0000_0000,
    ensures
        get32(lf_entries(children, cells), 8 * i) == cells[i],
        lf_entries(children, cells).subrange(8 * i + 4, 8 * i + 8) == name_hint(children[i].name),
    decreases children.len(),
{
    broadcast use group_le_len;
    lemma_lf_entries_len(children, cells);
    let front = lf_entries(children.drop_last(), cells.drop_last());
    lemma_lf_entries_len(children.drop_last(), cells.drop_last());
    let all = lf_entries(children, cells);
    if i < cells.len() - 1 {
        lemma_lf_read(children.drop_last(), cells.drop_last(), i);
        assert(get32(all, 8 * i) == get32(front, 8 * i));
        assert(all.subrange(8 * i + 4, 8 * i + 8) =~= front.subrange(8 * i + 4, 8 * i + 8));
    } else {
        lemma_le32_round_trip(cells[i]);
        assert(get32(all, 8 * i) == get32(le32(cells[i]), 0));
        assert(all.subrange(8 * i + 4, 8 * i + 8) =~= name_hint(children[i].name));
    }
}

/// The longest names and values of a key that fits are short.
proof fn lemma_longest(key: KeyModel)
    requires
        key_fits(key),
    ensures
        0 <= longest_child_name(key.children) <= max_payload(),
        0 <= longest_value_name(key.values) <= max_payload(),
        0 <= longest_value_data(key.values) <= max_payload(),
{
    assert forall|i: int| 0 <= i < key.children.len() implies encode_utf8(
        (#[trigger] key.children[i]).name,
    ).len() <= max_payload() by {
        assert(key_fits(key.children[i]));
    }
    lemma_longest_child(key.children);
    lemma_longest_value(key.values);
}

proof fn lemma_longest_child(children: Seq<KeyModel>)
    requires
        forall|i: int|
            0 <= i < children.len() ==> encode_utf8((#[trigger] children[i]).name).len()
                <= max_payload(),
    ensures
        0 <= longest_child_name(children) <= max_payload(),
    decreases children.len(),
{
    if children.len() > 0 {
        let front = children.drop_last();
        assert forall|i: int| 0 <= i < front.len() implies encode_utf8(
            (#[trigger] front[i]).name,
        ).len() <= max_payload() by {
            assert(front[i] == children[i]);
        }
        lemma_longest_child(front);
        assert(encode_utf8(children[children.len() - 1].name).len() <= max_payload());
    }
}

proof fn lemma_longest_value(values: Seq<(Seq<char>, ValModel)>)
    requires
        forall|i: int|
            0 <= i < values.len() ==> value_fits((#[trigger] values[i]).0, values[i].1),
    ensures
        0 <= longest_value_name(values) <= max_payload(),
        0 <= longest_value_data(values) <= max_payload(),
    decreases values.len(),
{
    if values.len() > 0 {
        let front = values.drop_last();
        assert forall|i: int| 0 <= i < front.len() implies value_fits(
            (#[trigger] front[i]).0,
            front[i].1,
        ) by {
            assert(front[i] == values[i]);
        }
        lemma_longest_value(front);
        let last = values[values.len() - 1];
        assert(value_fits(last.0, last.1));
    }
}

/// What the fields of a key node hold.
proof fn lemma_nk_fields(
    key: KeyModel,
    root: bool,
    filetime: int,
    sk: int,
    sublist: int,
    vlist: int,
)
    requires
        key_fits(key),
        0 <= sublist < 0x1_0000_0000,
        0 <= vlist < 0x1_0000_0000,
    ensures
        ({
            let rec = nk_record(key, root, filetime, sk, sublist, vlist);
            let len = encode_utf8(key.name).len() as int;
            &&& rec.len() == 76 + len
            &&& rec[0] == 0x6e && rec[1] == 0x6b
            &&& node_tells(rec, key, root)
            &&& get32(rec, 20) == key.children.len()
            &&& get32(rec, 28) == sublist
            &&& get32(rec, 36) == key.values.len()
            &&& get32(rec, 40) == vlist
            &&& get16(rec, 72) == len
            &&& rec.subrange(76, 76 + len) == encode_utf8(key.name)
        }),
{
    broadcast use group_le_len;
    reveal(nk_record);
    let rec = nk_record(key, root, filetime, sk, sublist, vlist);
    let len = encode_utf8(key.name).len() as int;
    lemma_le32_round_trip(key.children.len() as int);
    lemma_le32_round_trip(sublist);
    lemma_le32_round_trip(key.values.len() as int);
    lemma_le32_round_trip(vlist);
    lemma_le16_round_trip(len);
    let flags = if root { 0x2Cint } else { 0x20 };
    lemma_le16_round_trip(flags);
    lemma_longest(key);
    lemma_le32_round_trip(longest_child_name(key.children));
    lemma_le32_round_trip(longest_value_name(key.values));
    lemma_le32_round_trip(longest_value_data(key.values));
    assert(get16(rec, 2) == get16(le16(flags), 0));
    assert(get32(rec, 52) == get32(le32(longest_child_name(key.children)), 0));
    assert(get32(rec, 60) == get32(le32(longest_value_name(key.values)), 0));
    assert(get32(rec, 64) == get32(le32(longest_value_data(key.values)), 0));
    assert(get32(rec, 20) == get32(le32(key.children.len() as int), 0));
    assert(get32(rec, 28) == get32(le32(sublist), 0));
    assert(get32(rec, 36) == get32(le32(key.values.len() as int), 0));
    assert(get32(rec, 40) == get32(le32(vlist), 0));
    assert(get16(rec, 72) == get16(le16(len), 0));
    assert(rec.subrange(76, 76 + len) =~= encode_utf8(key.name));
}

// ---- reading keys ---------------------------------------------------------

/// `f` shows the bytes of `c` from `lo` to `hi` but for page headers,
/// security fields and the parent fields of `open`.
spec fn shows_tree(f: Seq<u8>, c: Bins, lo: int, hi: int, open: Seq<int>) -> bool {
    &&& f.len() >= hi
    &&& forall|p: int|
        lo <= p < hi && p % 4096 >= 0x20 && !in_field(c.nks, 44, p) && !in_field(open, 16, p)
            ==> #[trigger] f[p] == c.bytes[p]
}

/// The key nodes of `c` behind those of `b` have `sk` in their security field.
spec fn shows_security(f: Seq<u8>, b: Bins, c: Bins, sk: int) -> bool {
    forall|k: int|
        b.nks.len() <= k < c.nks.len() ==> get32(f, #[trigger] c.nks[k] + 48) == sk
}

/// A key node lies in one page, its fixed part too.
spec fn well_placed(idx: int) -> bool {
    0x20 <= idx % 4096 && idx % 4096 + 80 <= 4096 && idx >= 0
}

proof fn lemma_put_key_placed(b: Bins, key: KeyModel, root: bool, filetime: int, sk: int)
    requires
        b.wf(),
        key_fits(key),
    ensures
        well_placed(put_key(b, key, root, filetime, sk).1),
{
    broadcast use group_le_len;
    lemma_put_keys_grown(b, key.children, filetime, sk);
    let (b1, kids) = put_keys(b, key.children, filetime, sk);
    let (b2, sublist) = put_sublist(b1, key.children, kids);
    lemma_lf_entries_len(key.children, kids);
    if key.children.len() > 0 {
        lemma_alloc(b1, lf_record(key.children, kids));
    }
    lemma_put_values_grown(b2, key.values);
    let (b3, vks) = put_values(b2, key.values);
    lemma_cell_list_len(vks);
    let (b4, vlist) = put_vlist(b3, vks);
    if vks.len() > 0 {
        lemma_alloc(b3, cell_list(vks));
    }
    let rec = nk_record(key, root, filetime, sk, sublist, vlist);
    lemma_nk_record_len(key, root, filetime, sk, sublist, vlist);
    lemma_alloc(b4, rec);
}

proof fn lemma_put_keys_placed(b: Bins, children: Seq<KeyModel>, filetime: int, sk: int)
    requires
        b.wf(),
        forall|i: int| 0 <= i < children.len() ==> key_fits(#[trigger] children[i]),
    ensures
        forall|i: int|
            0 <= i < children.len() ==> well_placed(
                #[trigger] put_keys(b, children, filetime, sk).1[i],
            ),
    decreases children.len(),
{
    if children.len() > 0 {
        let front = children.drop_last();
        assert forall|i: int| 0 <= i < front.len() implies key_fits(#[trigger] front[i]) by {
            assert(front[i] == children[i]);
        }
        lemma_put_keys_placed(b, front, filetime, sk);
        lemma_put_keys_grown(b, front, filetime, sk);
        assert(children.last() == children[children.len() - 1]);
        let (b1, cells) = put_keys(b, front, filetime, sk);
        lemma_put_key_placed(b1, children.last(), false, filetime, sk);
        let all = put_keys(b, children, filetime, sk).1;
        assert forall|i: int| 0 <= i < children.len() implies well_placed(#[trigger] all[i]) by {
            if i < front.len() {
                assert(all[i] == cells[i]);
            }
        }
    }
}

/// A key is read from its node, its lists, and what they point to.
proof fn lemma_key_from_parts(
    f: Seq<u8>,
    sk: int,
    idx: int,
    key: KeyModel,
    root: bool,
    rec: Seq<u8>,
    sublist: int,
    kids: Seq<int>,
    vlist: int,
    vks: Seq<int>,
)
    requires
        key_fits(key),
        kids.len() == key.children.len(),
        vks.len() == key.values.len(),
        ({
            let len = encode_utf8(key.name).len() as int;
            &&& rec.len() == 76 + len
            &&& rec[0] == 0x6e && rec[1] == 0x6b
            &&& node_tells(rec, key, root)
            &&& get32(rec, 20) == key.children.len()
            &&& get32(rec, 28) == sublist
            &&& get32(rec, 36) == key.values.len()
            &&& get32(rec, 40) == vlist
            &&& get16(rec, 72) == len
            &&& rec.subrange(76, 76 + len) == encode_utf8(key.name)
        }),
        is_cell(f, idx),
        cell_payload(f, idx).len() >= rec.len(),
        forall|j: int|
            0 <= j < rec.len() && !(16 <= j < 20) && !(44 <= j < 48) ==> #[trigger] cell_payload(
                f,
                idx,
            )[j] == rec[j],
        get32(cell_payload(f, idx), 44) == sk,
        key.children.len() == 0 ==> sublist == 0xFFFF_FFFF,
        key.children.len() > 0 ==> cell_seen(f, sublist, lf_record(key.children, kids)),
        key.values.len() == 0 ==> vlist == 0xFFFF_FFFF,
        key.values.len() > 0 ==> cell_seen(f, vlist, cell_list(vks)),
        forall|i: int|
            0 <= i < kids.len() ==> 0 <= (#[trigger] kids[i]) < 0x7000_0000 && holds_key(
                f,
                sk,
                kids[i],
                key.children[i],
                false,
            ) && get32(cell_payload(f, kids[i]), 16) == idx,
        forall|i: int| 0 <= i < vks.len() ==> 0 <= #[trigger] vks[i] < 0x7000_0000,
        forall|i: int|
            0 <= i < key.values.len() ==> holds_value(
                f,
                vks[i],
                (#[trigger] key.values[i]).0,
                key.values[i].1,
            ),
    ensures
        holds_key(f, sk, idx, key, root),
{
    broadcast use group_le_len;
    let seen = cell_payload(f, idx);
    let len = encode_utf8(key.name).len() as int;
    assert(get16(seen, 2) == get16(rec, 2));
    assert(get32(seen, 52) == get32(rec, 52));
    assert(get32(seen, 60) == get32(rec, 60));
    assert(get32(seen, 64) == get32(rec, 64));
    assert(get32(seen, 20) == get32(rec, 20));
    assert(get32(seen, 28) == get32(rec, 28));
    assert(get32(seen, 36) == get32(rec, 36));
    assert(get32(seen, 40) == get32(rec, 40));
    assert(get16(seen, 72) == get16(rec, 72));
    assert(seen.subrange(76, 76 + len) =~= rec.subrange(76, 76 + len));
    if key.children.len() > 0 {
        lemma_sublist_head(f, key.children, sublist, kids);
    }
    assert forall|i: int| 0 <= i < key.children.len() implies ({
        let list = cell_payload(f, sublist);
        let cell = get32(list, 4 + 8 * i);
        &&& list.subrange(8 + 8 * i, 12 + 8 * i) == name_hint((#[trigger] key.children[i]).name)
        &&& get32(cell_payload(f, cell), 16) == idx
        &&& holds_key(f, sk, cell, key.children[i], false)
    }) by {
        assert(0 <= kids[i] < 0x7000_0000);
        lemma_sublist_entry(f, key.children, sublist, kids, i);
    }
    lemma_cell_list_len(vks);
    assert forall|i: int| 0 <= i < key.values.len() implies holds_value(
        f,
        get32(cell_payload(f, vlist), 4 * i),
        (#[trigger] key.values[i]).0,
        key.values[i].1,
    ) by {
        assert(0 <= vks[i] < 0x7000_0000);
        lemma_cell_list_read(vks, i);
        assert(get32(cell_payload(f, vlist), 4 * i) == get32(cell_list(vks), 4 * i));
    }
}

/// The head of a list of subkeys, as it is seen.
proof fn lemma_sublist_head(f: Seq<u8>, children: Seq<KeyModel>, sublist: int, kids: Seq<int>)
    requires
        children.len() == kids.len(),
        0 < children.len() < 0x1_0000,
        cell_seen(f, sublist, lf_record(children, kids)),
    ensures
        ({
            let list = cell_payload(f, sublist);
            &&& list.len() >= 4 + 8 * children.len()
            &&& list[0] == 0x6c && list[1] == 0x66
            &&& get16(list, 2) == children.len()
        }),
{
    broadcast use group_le_len;
    let list = cell_payload(f, sublist);
    let lf = lf_record(children, kids);
    let n = children.len() as int;
    lemma_lf_entries_len(children, kids);
    lemma_le16_round_trip(n);
    assert(get16(lf, 2) == get16(le16(n), 0));
    assert(get16(list, 2) == get16(lf, 2));
    assert(list[0] == lf[0] && list[1] == lf[1]);
}

/// An entry of a list of subkeys, as it is seen.
proof fn lemma_sublist_entry(
    f: Seq<u8>,
    children: Seq<KeyModel>,
    sublist: int,
    kids: Seq<int>,
    i: int,
)
    requires
        0 <= i < children.len() == kids.len(),
        0 <= kids[i] < 0x1_0000_0000,
        cell_seen(f, sublist, lf_record(children, kids)),
    ensures
        get32(cell_payload(f, sublist), 4 + 8 * i) == kids[i],
        cell_payload(f, sublist).subrange(8 + 8 * i, 12 + 8 * i) == name_hint(children[i].name),
{
    broadcast use group_le_len;
    let list = cell_payload(f, sublist);
    let lf = lf_record(children, kids);
    let entries = lf_entries(children, kids);
    lemma_lf_entries_len(children, kids);
    lemma_lf_read(children, kids, i);
    assert(get32(lf, 4 + 8 * i) == get32(entries, 8 * i));
    assert(get32(list, 4 + 8 * i) == get32(lf, 4 + 8 * i));
    assert(list.subrange(8 + 8 * i, 12 + 8 * i) =~= entries.subrange(8 * i + 4, 8 * i + 8));
}

proof fn lemma_keys_read(
    b: Bins,
    children: Seq<KeyModel>,
    filetime: int,
    sk0: int,
    f: Seq<u8>,
    sk: int,
)
    requires
        b.wf(),
        nks_apart(b),
        forall|i: int| 0 <= i < children.len() ==> key_fits(#[trigger] children[i]),
        ({
            let (c, cells) = put_keys(b, children, filetime, sk0);
            &&& c.next <= 0x7000_0000
            &&& shows_tree(f, c, b.next, c.next, cells)
            &&& shows_security(f, b, c, sk)
        }),
    ensures
        ({
            let cells = put_keys(b, children, filetime, sk0).1;
            forall|i: int|
                0 <= i < children.len() ==> 0 <= (#[trigger] cells[i]) < 0x7000_0000 && holds_key(
                    f,
                    sk,
                    cells[i],
                    children[i],
                    false,
                )
        }),
    decreases children,
{
    if children.len() > 0 {
        let front = children.drop_last();
        assert forall|i: int| 0 <= i < front.len() implies key_fits(#[trigger] front[i]) by {
            assert(front[i] == children[i]);
        }
        let last = children[children.len() - 1];
        assert(children.last() == last);
        let (b1, cells1) = put_keys(b, front, filetime, sk0);
        let (c, cell) = put_key(b1, last, false, filetime, sk0);
        let cells = cells1.push(cell);
        assert((c, cells) == put_keys(b, children, filetime, sk0));
        lemma_put_keys_grown(b, front, filetime, sk0);
        lemma_put_keys_nks(b, front, filetime, sk0);
        lemma_put_key_grown(b1, last, false, filetime, sk0);
        lemma_put_key_nks(b1, last, false, filetime, sk0);
        lemma_put_key_keeps(b1, last, false, filetime, sk0);
        assert(shows_tree(f, b1, b.next, b1.next, cells1)) by {
            assert forall|p: int|
                b.next <= p < b1.next && p % 4096 >= 0x20 && !in_field(b1.nks, 44, p) && !in_field(cells1, 16, p) implies #[trigger] f[p] == b1.bytes[p] by {
                if in_field(c.nks, 44, p) {
                    let k = choose|k: int|
                        0 <= k < c.nks.len() && #[trigger] c.nks[k] + 4 + 44 <= p < c.nks[k] + 8 + 44;
                    if k < b1.nks.len() {
                        assert(b1.nks[k] == c.nks[k]);
                    }
                }
                if in_field(cells, 16, p) {
                    let i = choose|i: int|
                        0 <= i < cells.len() && #[trigger] cells[i] + 4 + 16 <= p < cells[i] + 8 + 16;
                    if i < cells1.len() {
                        assert(cells1[i] == cells[i]);
                    }
                }
                assert(f[p] == c.bytes[p]);
            }
        }
        assert(shows_security(f, b, b1, sk)) by {
            assert forall|k: int| b.nks.len() <= k < b1.nks.len() implies get32(
                f,
                #[trigger] b1.nks[k] + 48,
            ) == sk by {
                assert(c.nks[k] == b1.nks[k]);
            }
        }
        lemma_keys_read(b, front, filetime, sk0, f, sk);
        assert(shows_tree(f, c, b1.next, c.next, seq![cell])) by {
            assert forall|p: int|
                b1.next <= p < c.next && p % 4096 >= 0x20 && !in_field(c.nks, 44, p) && !in_field(seq![cell], 16, p) implies #[trigger] f[p] == c.bytes[p] by {
                if in_field(cells, 16, p) {
                    let i = choose|i: int|
                        0 <= i < cells.len() && #[trigger] cells[i] + 4 + 16 <= p < cells[i] + 8 + 16;
                    if i < cells1.len() {
                        assert(cells1[i] == cells[i]);
                    } else {
                        assert(seq![cell][0] == cells[i]);
                    }
                }
            }
        }
        assert(shows_security(f, b1, c, sk));
        lemma_key_read(b1, last, false, filetime, sk0, f, sk);
        assert forall|i: int| 0 <= i < children.len() implies 0 <= (#[trigger] cells[i])
            < 0x7000_0000 && holds_key(f, sk, cells[i], children[i], false) by {
            if i < front.len() {
                assert(cells[i] == cells1[i]);
                assert(front[i] == children[i]);
            }
        }
    }
}

/// The stages in which a key is written.
struct Stages {
    b1: Bins,
    kids: Seq<int>,
    b2: Bins,
    sublist: int,
    b3: Bins,
    vks: Seq<int>,
    b4: Bins,
    vlist: int,
    rec: Seq<u8>,
    idx: int,
    c: Bins,
}

spec fn stages(b: Bins, key: KeyModel, root: bool, filetime: int, sk: int) -> Stages {
    let (b1, kids) = put_keys(b, key.children, filetime, sk);
    let (b2, sublist) = put_sublist(b1, key.children, kids);
    let (b3, vks) = put_values(b2, key.values);
    let (b4, vlist) = put_vlist(b3, vks);
    let rec = nk_record(key, root, filetime, sk, sublist, vlist);
    let idx = b4.cell_at(rec);
    let c = put_key(b, key, root, filetime, sk).0;
    Stages { b1, kids, b2, sublist, b3, vks, b4, vlist, rec, idx, c }
}

/// What the stages have to do with one another.
spec fn staged(b: Bins, key: KeyModel, s: Stages) -> bool {
    let d = s.b4.alloc_cell(s.rec);
    &&& s.b1.wf() && s.b2.wf() && s.b3.wf() && s.b4.wf() && s.c.wf()
    &&& s.kids.len() == key.children.len()
    &&& s.vks.len() == key.values.len()
    &&& s.rec.len() == 76 + encode_utf8(key.name).len()
    &&& keeps(b, s.b1) && keeps(s.b1, s.b2) && keeps(s.b2, s.b3) && keeps(s.b3, s.b4)
    &&& s.b4.next <= s.idx
    &&& s.idx + 80 <= s.c.next
    &&& s.c.next == d.next
    &&& s.c.bytes.len() >= s.c.next
    &&& s.c.nks == s.b1.nks.push(s.idx)
    &&& nks_extend(b, s.b1)
    &&& nks_apart(s.c)
    &&& forall|i: int|
        0 <= i < s.kids.len() ==> b.next <= #[trigger] s.kids[i] && s.kids[i] + 80 <= s.b1.next
            && well_placed(s.kids[i])
    &&& forall|p: int|
        0 <= p < s.b1.next && !in_field(s.kids, 16, p) ==> #[trigger] s.c.bytes[p] == s.b1.bytes[p]
    &&& forall|p: int| s.b1.next <= p < s.c.next ==> #[trigger] s.c.bytes[p] == d.bytes[p]
    &&& forall|p: int| 0 <= p < s.b4.next ==> #[trigger] d.bytes[p] == s.b4.bytes[p]
    &&& forall|i: int|
        0 <= i < s.kids.len() ==> s.c.bytes.subrange(
            (#[trigger] s.kids[i]) + 20,
            s.kids[i] + 24,
        ) == le32(s.idx)
}

#[verifier::rlimit(30)]
proof fn lemma_staged(b: Bins, key: KeyModel, root: bool, filetime: int, sk: int)
    requires
        b.wf(),
        nks_apart(b),
        key_fits(key),
    ensures
        staged(b, key, stages(b, key, root, filetime, sk)),
        put_key(b, key, root, filetime, sk).1 == stages(b, key, root, filetime, sk).idx,
        key.children.len() > 0 ==> lf_record(
            key.children,
            stages(b, key, root, filetime, sk).kids,
        ).len() <= max_payload(),
        cell_list(stages(b, key, root, filetime, sk).vks).len() <= max_payload(),
{
    broadcast use group_le_len;
    lemma_put_keys_grown(b, key.children, filetime, sk);
    lemma_put_keys_nks(b, key.children, filetime, sk);
    lemma_put_keys_keeps(b, key.children, filetime, sk);
    lemma_put_keys_placed(b, key.children, filetime, sk);
    lemma_put_key_nks(b, key, root, filetime, sk);
    let (b1, kids) = put_keys(b, key.children, filetime, sk);
    let (b2, sublist) = put_sublist(b1, key.children, kids);
    lemma_lf_entries_len(key.children, kids);
    if key.children.len() > 0 {
        lemma_alloc(b1, lf_record(key.children, kids));
    }
    lemma_put_values_grown(b2, key.values);
    lemma_put_values_keeps(b2, key.values);
    lemma_put_values_nks(b2, key.values);
    let (b3, vks) = put_values(b2, key.values);
    lemma_cell_list_len(vks);
    let (b4, vlist) = put_vlist(b3, vks);
    if vks.len() > 0 {
        lemma_alloc(b3, cell_list(vks));
    }
    let rec = nk_record(key, root, filetime, sk, sublist, vlist);
    lemma_nk_record_len(key, root, filetime, sk, sublist, vlist);
    lemma_alloc(b4, rec);
    let idx = b4.cell_at(rec);
    let d = b4.alloc_cell(rec);
    let b5 = d.with_nk(idx);
    lemma_patch_each_shape(b5, kids, 0x10, idx);
    lemma_patch_each(b5, kids, 0x10, idx);
    let c = patch_each(b5, kids, 0x10, idx);
    assert forall|p: int| b1.next <= p < c.next implies #[trigger] c.bytes[p] == d.bytes[p] by {
        assert(!in_field(kids, 16, p));
        assert(c.bytes[p] == b5.bytes[p]);
    }
    assert forall|p: int| 0 <= p < b1.next && !in_field(kids, 16, p) implies #[trigger] c.bytes[p]
        == b1.bytes[p] by {
        assert(c.bytes[p] == b5.bytes[p]);
        assert(d.bytes[p] == b4.bytes[p]);
        assert(b4.bytes[p] == b3.bytes[p]);
        assert(b3.bytes[p] == b2.bytes[p]);
        assert(b2.bytes[p] == b1.bytes[p]);
    }
}

/// Security fields of the whole lie behind `p` or are those of the subkeys.
proof fn lemma_not_in_security(s: Stages, b: Bins, p: int)
    requires
        nks_extend(b, s.b1),
        s.c.nks == s.b1.nks.push(s.idx),
        s.b4.next <= s.idx,
        s.b1.next <= s.b4.next,
        p < s.b4.next,
        p >= s.b1.next || !in_field(s.b1.nks, 44, p),
    ensures
        !in_field(s.c.nks, 44, p),
        !in_field(seq![s.idx], 16, p),
{
    if in_field(s.c.nks, 44, p) {
        let k = choose|k: int|
            0 <= k < s.c.nks.len() && #[trigger] s.c.nks[k] + 4 + 44 <= p < s.c.nks[k] + 8 + 44;
        if k < s.b1.nks.len() {
            assert(s.b1.nks[k] == s.c.nks[k]);
        }
    }
}

proof fn lemma_key_read(
    b: Bins,
    key: KeyModel,
    root: bool,
    filetime: int,
    sk0: int,
    f: Seq<u8>,
    sk: int,
)
    requires
        b.wf(),
        nks_apart(b),
        key_fits(key),
        ({
            let (c, idx) = put_key(b, key, root, filetime, sk0);
            &&& c.next <= 0x7000_0000
            &&& shows_tree(f, c, b.next, c.next, seq![idx])
            &&& shows_security(f, b, c, sk)
        }),
    ensures
        holds_key(f, sk, put_key(b, key, root, filetime, sk0).1, key, root),
    decreases key,
{
    let s = stages(b, key, root, filetime, sk0);
    lemma_staged(b, key, root, filetime, sk0);
    lemma_lists_read(b, key, root, filetime, sk0, f);
    assert(shows_tree(f, s.b1, b.next, s.b1.next, s.kids)) by {
        assert forall|p: int|
            b.next <= p < s.b1.next && p % 4096 >= 0x20 && !in_field(s.b1.nks, 44, p) && !in_field(s.kids, 16, p) implies #[trigger] f[p] == s.b1.bytes[p] by {
            lemma_not_in_security(s, b, p);
            assert(f[p] == s.c.bytes[p]);
        }
    }
    assert(shows_security(f, b, s.b1, sk)) by {
        assert forall|k: int| b.nks.len() <= k < s.b1.nks.len() implies get32(
            f,
            #[trigger] s.b1.nks[k] + 48,
        ) == sk by {
            assert(s.c.nks[k] == s.b1.nks[k]);
        }
    }
    lemma_keys_read(b, key.children, filetime, sk0, f, sk);
    assert forall|i: int| 0 <= i < s.kids.len() implies 0 <= (#[trigger] s.kids[i]) < 0x7000_0000
        && holds_key(f, sk, s.kids[i], key.children[i], false) && get32(
        cell_payload(f, s.kids[i]),
        16,
    ) == s.idx by {
        assert(holds_key(f, sk, s.kids[i], key.children[i], false));
        lemma_kid_recorded(b, key.children, filetime, sk0, i);
        let m = choose|m: int| 0 <= m < s.b1.nks.len() && s.b1.nks[m] == s.kids[i];
        assert(s.c.nks[m] == s.kids[i]);
        lemma_parent_read(s.c, f, s.kids, i, s.idx, s.b1);
    }
    assert(get32(f, s.c.nks[s.c.nks.len() - 1] + 48) == sk);
    lemma_node_read(s.b4, s.rec, s.c, f, s.idx, sk);
    lemma_nk_fields(key, root, filetime, sk0, s.sublist, s.vlist);
    lemma_key_from_parts(f, sk, s.idx, key, root, s.rec, s.sublist, s.kids, s.vlist, s.vks);
}

/// The lists of a key, and its values, are seen.
proof fn lemma_lists_read(
    b: Bins,
    key: KeyModel,
    root: bool,
    filetime: int,
    sk0: int,
    f: Seq<u8>,
)
    requires
        b.wf(),
        nks_apart(b),
        key_fits(key),
        ({
            let (c, idx) = put_key(b, key, root, filetime, sk0);
            &&& c.next <= 0x7000_0000
            &&& shows_tree(f, c, b.next, c.next, seq![idx])
        }),
    ensures
        ({
            let s = stages(b, key, root, filetime, sk0);
            &&& key.children.len() == 0 ==> s.sublist == 0xFFFF_FFFF
            &&& key.children.len() > 0 ==> cell_seen(
                f,
                s.sublist,
                lf_record(key.children, s.kids),
            )
            &&& key.values.len() == 0 ==> s.vlist == 0xFFFF_FFFF
            &&& key.values.len() > 0 ==> cell_seen(f, s.vlist, cell_list(s.vks))
            &&& 0 <= s.sublist < 0x1_0000_0000
            &&& 0 <= s.vlist < 0x1_0000_0000
            &&& forall|i: int| 0 <= i < s.vks.len() ==> 0 <= #[trigger] s.vks[i] < 0x7000_0000
            &&& forall|i: int|
                0 <= i < key.values.len() ==> holds_value(
                    f,
                    s.vks[i],
                    (#[trigger] key.values[i]).0,
                    key.values[i].1,
                )
        }),
{
    let s = stages(b, key, root, filetime, sk0);
    lemma_staged(b, key, root, filetime, sk0);
    assert forall|p: int| s.b1.next <= p < s.b4.next && p % 4096 >= 0x20 implies #[trigger] f[p]
        == s.b4.bytes[p] by {
        lemma_not_in_security(s, b, p);
        assert(f[p] == s.c.bytes[p]);
        assert(s.c.bytes[p] == s.b4.alloc_cell(s.rec).bytes[p]);
    }
    if key.children.len() > 0 {
        lemma_alloc(s.b1, lf_record(key.children, s.kids));
        assert forall|p: int| s.sublist <= p < s.b2.next && p % 4096 >= 0x20 implies #[trigger] f[p]
            == s.b2.bytes[p] by {
            assert(f[p] == s.b4.bytes[p]);
            assert(s.b4.bytes[p] == s.b3.bytes[p]);
        }
        assert(shows(f, s.b2, s.sublist, s.b2.next));
        lemma_seen(s.b1, lf_record(key.children, s.kids), f);
    }
    assert(shows(f, s.b3, s.b2.next, s.b3.next)) by {
        assert forall|p: int| s.b2.next <= p < s.b3.next && p % 4096 >= 0x20 implies #[trigger] f[p]
            == s.b3.bytes[p] by {
            assert(f[p] == s.b4.bytes[p]);
        }
    }
    lemma_values_read(s.b2, key.values, f);
    if key.values.len() > 0 {
        lemma_alloc(s.b3, cell_list(s.vks));
        assert(shows(f, s.b4, s.vlist, s.b4.next));
        lemma_seen(s.b3, cell_list(s.vks), f);
    }
}

/// The node of every subkey is recorded.
proof fn lemma_kid_recorded(b: Bins, children: Seq<KeyModel>, filetime: int, sk: int, i: int)
    requires
        b.wf(),
        nks_apart(b),
        0 <= i < children.len(),
        forall|i: int| 0 <= i < children.len() ==> key_fits(#[trigger] children[i]),
    ensures
        put_keys(b, children, filetime, sk).0.nks.contains(
            put_keys(b, children, filetime, sk).1[i],
        ),
    decreases children.len(),
{
    let front = children.drop_last();
    assert forall|i: int| 0 <= i < front.len() implies key_fits(#[trigger] front[i]) by {
        assert(front[i] == children[i]);
    }
    let last = children[children.len() - 1];
    assert(children.last() == last);
    let (b1, cells1) = put_keys(b, front, filetime, sk);
    let (c, cell) = put_key(b1, last, false, filetime, sk);
    lemma_put_keys_grown(b, front, filetime, sk);
    lemma_put_keys_nks(b, front, filetime, sk);
    lemma_put_key_nks(b1, last, false, filetime, sk);
    let cells = cells1.push(cell);
    assert((c, cells) == put_keys(b, children, filetime, sk));
    if i < front.len() {
        assert(cells[i] == cells1[i]);
        lemma_kid_recorded(b, front, filetime, sk, i);
        let m = choose|m: int| 0 <= m < b1.nks.len() && b1.nks[m] == cells1[i];
        assert(c.nks[m] == cells1[i]);
    } else {
        assert(i == cells1.len());
        assert(cells[i] == cell);
        assert(c.nks[c.nks.len() - 1] == cell);
    }
}

proof fn lemma_in_page(idx: int, j: int)
    requires
        well_placed(idx),
        0 <= j < 80,
    ensures
        (idx + j) % 4096 >= 0x20,
{
}

/// The parent field of a subkey shows the parent.
proof fn lemma_parent_read(c: Bins, f: Seq<u8>, kids: Seq<int>, i: int, idx: int, b1: Bins)
    requires
        0 <= i < kids.len(),
        well_placed(kids[i]),
        0 <= idx < 0x7000_0000,
        b1.next <= idx,
        kids[i] + 80 <= b1.next,
        idx < c.next <= c.bytes.len(),
        nks_apart(c),
        c.nks.contains(kids[i]),
        f.len() >= c.next,
        forall|p: int|
            kids[i] <= p < kids[i] + 80 && p % 4096 >= 0x20 && !in_field(c.nks, 44, p) && !in_field(
                seq![idx],
                16,
                p,
            ) ==> #[trigger] f[p] == c.bytes[p],
        c.bytes.subrange(kids[i] + 20, kids[i] + 24) == le32(idx),
        is_cell(f, kids[i]),
        cell_payload(f, kids[i]).len() >= 76,
    ensures
        get32(cell_payload(f, kids[i]), 16) == idx,
{
    lemma_le32_round_trip(idx);
    let k0 = kids[i];
    let m = choose|m: int| 0 <= m < c.nks.len() && c.nks[m] == k0;
    assert forall|j: int| 0 <= j < 4 implies #[trigger] f[k0 + 20 + j] == le32(idx)[j] by {
        let p = k0 + 20 + j;
        lemma_in_page(k0, 20 + j);
        assert(!in_field(seq![idx], 16, p));
        assert(!in_field(c.nks, 44, p)) by {
            if in_field(c.nks, 44, p) {
                let k = choose|k: int|
                    0 <= k < c.nks.len() && #[trigger] c.nks[k] + 4 + 44 <= p < c.nks[k] + 8 + 44;
                if k < m {
                    assert(c.nks[k] + 80 <= c.nks[m]);
                } else if m < k {
                    assert(c.nks[m] + 80 <= c.nks[k]);
                }
            }
        }
        assert(f[p] == c.bytes[p]);
        assert(c.bytes.subrange(k0 + 20, k0 + 24)[j] == c.bytes[p]);
    }
    let rec = cell_payload(f, k0);
    assert(forall|j: int| 0 <= j < 76 ==> #[trigger] rec[j] == f[k0 + 4 + j]) by {
        reveal(is_cell);
    }
    assert(rec[16] == f[k0 + 20 + 0]);
    assert(rec[17] == f[k0 + 20 + 1]);
    assert(rec[18] == f[k0 + 20 + 2]);
    assert(rec[19] == f[k0 + 20 + 3]);
}

/// The key node itself is seen but for its two open fields.
proof fn lemma_node_read(b4: Bins, rec: Seq<u8>, c: Bins, f: Seq<u8>, idx: int, sk: int)
    requires
        b4.wf(),
        76 <= rec.len() <= max_payload(),
        idx == b4.cell_at(rec),
        c.next == b4.alloc_cell(rec).next,
        nks_apart(c),
        c.nks.len() > 0,
        c.nks.last() == idx,
        f.len() >= c.next,
        get32(f, idx + 48) == sk,
        forall|p: int|
            idx <= p < c.next && p % 4096 >= 0x20 && !in_field(c.nks, 44, p) && !in_field(seq![idx], 16, p) ==> #[trigger] f[p] == c.bytes[p],
        forall|p: int| idx <= p < c.next ==> #[trigger] c.bytes[p] == b4.alloc_cell(rec).bytes[p],
    ensures
        is_cell(f, idx),
        cell_payload(f, idx).len() >= rec.len(),
        forall|j: int|
            0 <= j < rec.len() && !(16 <= j < 20) && !(44 <= j < 48) ==> #[trigger] cell_payload(
                f,
                idx,
            )[j] == rec[j],
        get32(cell_payload(f, idx), 44) == sk,
{
    broadcast use group_le_len;
    lemma_alloc(b4, rec);
    let d = b4.alloc_cell(rec);
    let size = cell_size(rec.len() as int);
    assert forall|p: int|
        idx <= p < idx + size && !(idx + 20 <= p < idx + 24) && !(idx + 48 <= p < idx
            + 52) implies #[trigger] f[p] == d.bytes[p] by {
        assert(p / 4096 == idx / 4096);
        assert(p % 4096 >= 0x20);
        assert(!in_field(seq![idx], 16, p));
        assert(!in_field(c.nks, 44, p)) by {
            if in_field(c.nks, 44, p) {
                let k = choose|k: int|
                    0 <= k < c.nks.len() && #[trigger] c.nks[k] + 4 + 44 <= p < c.nks[k] + 8 + 44;
                let m = c.nks.len() - 1;
                assert(c.nks[m] == idx);
                if k < m {
                    assert(c.nks[k] + 80 <= c.nks[m]);
                }
            }
        }
        assert(f[p] == c.bytes[p]);
    }
    let head = d.bytes.subrange(idx, idx + 4);
    assert forall|j: int| 0 <= j < 4 implies #[trigger] f[idx + j] == le32(
        0x1_0000_0000 - size,
    )[j] by {
        assert(head[j] == d.bytes[idx + j]);
    }
    lemma_size_word(f, idx, rec.len() as int);
    reveal(is_cell);
    let seen = cell_payload(f, idx);
    assert forall|j: int|
        0 <= j < rec.len() && !(16 <= j < 20) && !(44 <= j < 48) implies #[trigger] seen[j]
        == rec[j] by {
        assert(d.bytes.subrange(idx + 4, idx + 4 + rec.len())[j] == d.bytes[idx + 4 + j]);
        assert(f[idx + 4 + j] == d.bytes[idx + 4 + j]);
    }
    assert(seen[44] == f[idx + 48]);
    assert(seen[45] == f[idx + 49]);
    assert(seen[46] == f[idx + 50]);
    assert(seen[47] == f[idx + 51]);
}

// ---- the whole file ---------------------------------------------------------

/// The number of keys below and with `key`.
pub open spec fn key_count(key: KeyModel) -> nat
    decreases key,
{
    keys_count(key.children) + 1
}

pub open spec fn keys_count(children: Seq<KeyModel>) -> nat
    decreases children,
{
    if children.len() == 0 {
        0
    } else {
        keys_count(children.drop_last()) + key_count(children.last())
    }
}

/// Every key is recorded once, in one page with its fixed part.
proof fn lemma_keys_recorded(b: Bins, children: Seq<KeyModel>, filetime: int, sk: int)
    requires
        b.wf(),
        nks_apart(b),
        forall|i: int| 0 <= i < children.len() ==> key_fits(#[trigger] children[i]),
    ensures
        ({
            let c = put_keys(b, children, filetime, sk).0;
            &&& c.nks.len() == b.nks.len() + keys_count(children)
            &&& forall|k: int|
                b.nks.len() <= k < c.nks.len() ==> well_placed(#[trigger] c.nks[k])
        }),
    decreases children,
{
    if children.len() > 0 {
        let front = children.drop_last();
        assert forall|i: int| 0 <= i < front.len() implies key_fits(#[trigger] front[i]) by {
            assert(front[i] == children[i]);
        }
        let last = children[children.len() - 1];
        assert(children.last() == last);
        lemma_keys_recorded(b, front, filetime, sk);
        lemma_put_keys_grown(b, front, filetime, sk);
        lemma_put_keys_nks(b, front, filetime, sk);
        let b1 = put_keys(b, front, filetime, sk).0;
        lemma_key_recorded(b1, last, false, filetime, sk);
        lemma_put_key_nks(b1, last, false, filetime, sk);
        let c = put_keys(b, children, filetime, sk).0;
        assert forall|k: int| b.nks.len() <= k < c.nks.len() implies well_placed(
            #[trigger] c.nks[k],
        ) by {
            if k < b1.nks.len() {
                assert(c.nks[k] == b1.nks[k]);
            }
        }
    }
}

proof fn lemma_key_recorded(b: Bins, key: KeyModel, root: bool, filetime: int, sk: int)
    requires
        b.wf(),
        nks_apart(b),
        key_fits(key),
    ensures
        ({
            let c = put_key(b, key, root, filetime, sk).0;
            &&& c.nks.len() == b.nks.len() + key_count(key)
            &&& forall|k: int|
                b.nks.len() <= k < c.nks.len() ==> well_placed(#[trigger] c.nks[k])
        }),
    decreases key,
{
    lemma_keys_recorded(b, key.children, filetime, sk);
    lemma_staged(b, key, root, filetime, sk);
    lemma_put_key_placed(b, key, root, filetime, sk);
    let s = stages(b, key, root, filetime, sk);
    assert forall|k: int| b.nks.len() <= k < s.c.nks.len() implies well_placed(
        #[trigger] s.c.nks[k],
    ) by {
        if k < s.b1.nks.len() {
            assert(s.c.nks[k] == s.b1.nks[k]);
        }
    }
}

/// Whether the cell at `sk` is the security record of `refs` keys, linked to
/// itself.
pub open spec fn holds_security(bins: Seq<u8>, sk: int, refs: int) -> bool {
    let rec = cell_payload(bins, sk);
    &&& is_cell(bins, sk)
    &&& rec.len() >= 136
    &&& rec[0] == 0x73 && rec[1] == 0x6b  // "sk"
    &&& get32(rec, 4) == sk
    &&& get32(rec, 8) == sk
    &&& get32(rec, 12) == refs
    &&& get32(rec, 16) == 116
    &&& rec.subrange(20, 136) == security_descriptor()
}

proof fn lemma_self_links(d: Bins, sk: int)
    requires
        0 <= sk,
        sk + 16 <= d.bytes.len(),
    ensures
        ({
            let d2 = d.patch(sk, 0x04, sk).patch(sk, 0x08, sk);
            &&& d2.bytes.len() == d.bytes.len()
            &&& d2.next == d.next
            &&& d2.nks == d.nks
            &&& forall|p: int|
                0 <= p < d.bytes.len() && !(sk + 8 <= p < sk + 16) ==> #[trigger] d2.bytes[p]
                    == d.bytes[p]
            &&& forall|j: int|
                0 <= j < 8 ==> #[trigger] d2.bytes[sk + 8 + j] == le32(sk)[j % 4]
        }),
{
    broadcast use group_le_len;
}

/// What the security record and the links to it change.
#[verifier::rlimit(40)]
proof fn lemma_secured(b: Bins)
    requires
        b.wf(),
        nks_apart(b),
    ensures
        ({
            let rec = sk_record(b.nks.len() as int);
            let sk = b.cell_at(rec);
            let d = b.alloc_cell(rec);
            let c = secured(b);
            &&& rec.len() == 136
            &&& c.wf()
            &&& b.next <= sk
            &&& sk + 140 <= c.next
            &&& c.next == d.next
            &&& c.next <= b.next + 8192
            &&& c.next <= c.bytes.len()
            &&& forall|p: int|
                0 <= p < b.next && !in_field(b.nks, 44, p) ==> #[trigger] c.bytes[p] == b.bytes[p]
            &&& forall|k: int|
                0 <= k < b.nks.len() ==> c.bytes.subrange(
                    (#[trigger] b.nks[k]) + 48,
                    b.nks[k] + 52,
                ) == le32(sk)
            &&& forall|p: int|
                sk <= p < c.next && !(sk + 8 <= p < sk + 16) ==> #[trigger] c.bytes[p]
                    == d.bytes[p]
            &&& forall|j: int|
                0 <= j < 8 ==> #[trigger] c.bytes[sk + 8 + j] == le32(sk)[j % 4]
        }),
{
    broadcast use {group_le_len, lemma_security_descriptor_len};
    reveal(secured);
    let rec = sk_record(b.nks.len() as int);
    let sk = b.cell_at(rec);
    let d = b.alloc_cell(rec);
    let d2 = d.patch(sk, 0x04, sk).patch(sk, 0x08, sk);
    let c = secured(b);
    assert(rec.len() == 136);
    lemma_alloc(b, rec);
    lemma_self_links(d, sk);
    lemma_patch_each_shape(d2, b.nks, 44, sk);
    lemma_patch_each(d2, b.nks, 44, sk);
    assert forall|p: int| b.next <= p < c.next implies #[trigger] c.bytes[p] == d2.bytes[p] by {
        assert(!in_field(b.nks, 44, p));
    }
    assert forall|p: int| 0 <= p < b.next && !in_field(b.nks, 44, p) implies #[trigger] c.bytes[p]
        == b.bytes[p] by {
        assert(c.bytes[p] == d2.bytes[p]);
        assert(d2.bytes[p] == d.bytes[p]);
        assert(d.bytes[p] == b.bytes[p]);
    }
    assert forall|j: int| 0 <= j < 8 implies #[trigger] c.bytes[sk + 8 + j] == le32(sk)[j % 4] by {
        assert(c.bytes[sk + 8 + j] == d2.bytes[sk + 8 + j]);
    }
}

proof fn lemma_security_read(b: Bins, f: Seq<u8>)
    requires
        b.wf(),
        nks_apart(b),
        b.nks.len() < 0x1_0000_0000,
        b.next <= 0x7000_0000,
        secured(b).bytes.len() <= f.len(),
        forall|p: int|
            0 <= p < secured(b).bytes.len() && p % 4096 >= 0x20 ==> #[trigger] f[p] == secured(
                b,
            ).bytes[p],
    ensures
        holds_security(f, b.cell_at(sk_record(b.nks.len() as int)), b.nks.len() as int),
{
    broadcast use group_le_len;
    let refs = b.nks.len() as int;
    let rec = sk_record(refs);
    let sk = b.cell_at(rec);
    let d = b.alloc_cell(rec);
    let c = secured(b);
    lemma_secured(b);
    lemma_alloc(b, rec);
    let size = cell_size(136);
    assert forall|p: int| sk <= p < sk + size implies #[trigger] f[p] == c.bytes[p] by {
        assert(p / 4096 == sk / 4096);
    }
    assert forall|j: int| 0 <= j < 4 implies #[trigger] f[sk + j] == le32(
        0x1_0000_0000 - size,
    )[j] by {
        assert(d.bytes.subrange(sk, sk + 4)[j] == d.bytes[sk + j]);
        assert(f[sk + j] == c.bytes[sk + j]);
    }
    lemma_size_word(f, sk, 136);
    let seen = cell_payload(f, sk);
    assert(is_cell(f, sk)) by {
        reveal(is_cell);
    }
    assert forall|j: int| 0 <= j < 136 && !(4 <= j < 12) implies #[trigger] seen[j] == rec[j] by {
        assert(d.bytes.subrange(sk + 4, sk + 4 + 136)[j] == d.bytes[sk + 4 + j]);
        assert(f[sk + 4 + j] == c.bytes[sk + 4 + j]);
    }
    assert forall|j: int| 4 <= j < 12 implies #[trigger] seen[j] == le32(sk)[(j - 4) % 4] by {
        assert(f[sk + 4 + j] == c.bytes[sk + 4 + j]);
        assert(c.bytes[sk + 8 + (j - 4)] == le32(sk)[(j - 4) % 4]);
    }
    lemma_le32_round_trip(sk);
    assert(get32(seen, 4) == get32(le32(sk), 0));
    assert(get32(seen, 8) == get32(le32(sk), 0));
    lemma_sk_fields(refs);
    assert(get32(seen, 12) == get32(rec, 12));
    assert(get32(seen, 16) == get32(rec, 16));
    assert(seen.subrange(20, 136) =~= rec.subrange(20, 136));
}

proof fn lemma_sk_fields(refs: int)
    requires
        0 <= refs < 0x1_0000_0000,
    ensures
        ({
            let rec = sk_record(refs);
            &&& rec.len() == 136
            &&& rec[0] == 0x73 && rec[1] == 0x6b
            &&& get32(rec, 12) == refs
            &&& get32(rec, 16) == 116
            &&& rec.subrange(20, 136) == security_descriptor()
        }),
{
    broadcast use {group_le_len, lemma_security_descriptor_len};
    let rec = sk_record(refs);
    lemma_le32_round_trip(refs);
    lemma_le32_round_trip(116);
    assert(get32(rec, 12) == get32(le32(refs), 0));
    assert(get32(rec, 16) == get32(le32(116), 0));
    assert(rec.subrange(20, 136) =~= security_descriptor());
}

/// The pages behind the base block of a hive file.
pub open spec fn bins_of(file: Seq<u8>) -> Seq<u8> {
    file.skip(4096)
}

/// The offset of the root key, as the base block has it.
pub open spec fn root_of(file: Seq<u8>) -> int {
    get32(file, 36)
}

/// The offset of the security record, as the root key has it.
pub open spec fn security_of(file: Seq<u8>) -> int {
    get32(cell_payload(bins_of(file), root_of(file)), 44)
}

/// Reading a store gives back the tree that was written, the subkeys of every
/// key in ascending order: from the root cell that the base block names, every
/// key with its name and flags, its values with types and bytes, its subkeys
/// with their name hints and parent links, and the security record that all
/// keys share.
pub proof fn law_store_reads_back(tree: KeyModel, filetime: int)
    requires
        key_fits(tree),
        8192 * key_cells(tree) <= 0x6000_0000,
    ensures
        ({
            let file = store_file(tree, filetime);
            &&& holds_key(bins_of(file), security_of(file), root_of(file), ordered(tree), true)
            &&& holds_security(bins_of(file), security_of(file), key_count(tree) as int)
            &&& tree_sorted(ordered(tree))
        }),
{
    lemma_ordered_fits(tree);
    law_ordered_is_sorted(tree);
    lemma_tree_reads_back(ordered(tree), filetime);
}

/// Reading a hive file gives back the tree that was written.
proof fn lemma_tree_reads_back(tree: KeyModel, filetime: int)
    requires
        key_fits(tree),
        8192 * key_cells(tree) <= 0x6000_0000,
    ensures
        ({
            let file = tree_file(tree, filetime);
            &&& holds_key(bins_of(file), security_of(file), root_of(file), tree, true)
            &&& holds_security(bins_of(file), security_of(file), key_count(tree) as int)
        }),
{
    let b0 = Bins::empty();
    let (b, root) = put_key(b0, tree, true, filetime, 0);
    lemma_put_key_grown(b0, tree, true, filetime, 0);
    lemma_put_key_nks(b0, tree, true, filetime, 0);
    lemma_key_recorded(b0, tree, true, filetime, 0);
    let sk = b.cell_at(sk_record(b.nks.len() as int));
    let c = secured(b);
    lemma_secured(b);
    lemma_store_pages(tree, filetime);
    let f = stamped(c.bytes);
    assert(shows_tree(f, b, b0.next, b.next, seq![root])) by {
        assert forall|p: int|
            b0.next <= p < b.next && p % 4096 >= 0x20 && !in_field(b.nks, 44, p) && !in_field(
                seq![root],
                16,
                p,
            ) implies #[trigger] f[p] == b.bytes[p] by {
            assert(f[p] == c.bytes[p]);
        }
    }
    lemma_le32_round_trip(sk);
    assert(shows_security(f, b0, b, sk)) by {
        assert forall|k: int| b0.nks.len() <= k < b.nks.len() implies get32(
            f,
            #[trigger] b.nks[k] + 48,
        ) == sk by {
            let n = b.nks[k];
            assert(well_placed(n));
            lemma_in_page(n, 48);
            lemma_in_page(n, 49);
            lemma_in_page(n, 50);
            lemma_in_page(n, 51);
            let w = c.bytes.subrange(n + 48, n + 52);
            assert(w == le32(sk));
            assert(f[n + 48] == w[0]);
            assert(f[n + 49] == w[1]);
            assert(f[n + 50] == w[2]);
            assert(f[n + 51] == w[3]);
        }
    }
    lemma_key_read(b0, tree, true, filetime, 0, f, sk);
    lemma_security_index(f, sk, root, tree);
    lemma_nks_small(b);
    lemma_security_read(b, f);
}

/// The parts of a store file.
proof fn lemma_store_pages(tree: KeyModel, filetime: int)
    requires
        key_fits(tree),
        8192 * key_cells(tree) <= 0x6000_0000,
    ensures
        ({
            let (b, root) = put_key(Bins::empty(), tree, true, filetime, 0);
            let file = tree_file(tree, filetime);
            &&& bins_of(file) == stamped(secured(b).bytes)
            &&& root_of(file) == root
        }),
{
    broadcast use group_le_len;
    let b0 = Bins::empty();
    let (b, root) = put_key(b0, tree, true, filetime, 0);
    lemma_put_key_grown(b0, tree, true, filetime, 0);
    lemma_put_key_nks(b0, tree, true, filetime, 0);
    lemma_secured(b);
    let c = secured(b);
    let n = c.bytes.len() as int;
    let base = base_block(filetime, root, n);
    lemma_base_root(filetime, root, n);
    let head = overlay(base, 0x1FC, le32(xor_dwords(base, 127) as int));
    let file = tree_file(tree, filetime);
    assert(file == head + stamped(c.bytes));
    assert(bins_of(file) =~= stamped(c.bytes));
    assert(get32(file, 36) == get32(base, 36));
}

proof fn lemma_base_root(filetime: int, root: int, n: int)
    requires
        0 <= root < 0x1_0000_0000,
    ensures
        base_block(filetime, root, n).len() == 4096,
        get32(base_block(filetime, root, n), 36) == root,
{
    broadcast use group_le_len;
    reveal(base_block);
    lemma_le32_round_trip(root);
    assert(get32(base_block(filetime, root, n), 36) == get32(le32(root), 0));
}

proof fn lemma_security_index(f: Seq<u8>, sk: int, idx: int, key: KeyModel)
    requires
        holds_key(f, sk, idx, key, true),
    ensures
        get32(cell_payload(f, idx), 44) == sk,
{
}

proof fn lemma_nks_small(b: Bins)
    requires
        nks_apart(b),
        b.next <= 0x7000_0000,
    ensures
        b.nks.len() < 0x1_0000_0000,
{
    crate::hive_store::lemma_nk_count(b);
}

/// The frame of a store: a version 1.3 base block that names the root cell and
/// the length of the pages, whose last dword is the XOR of the dwords in front
/// of it, and pages of 4096 bytes that each start with their header.
pub proof fn law_store_frame(tree: KeyModel, filetime: int)
    requires
        key_fits(tree),
        8192 * key_cells(tree) <= 0x6000_0000,
        0 <= filetime < 0x1_0000_0000_0000_0000,
    ensures
        ({
            let file = store_file(tree, filetime);
            let n = file.len() - 4096;
            &&& n > 0 && n % 4096 == 0
            &&& file.take(4) == seq![0x72u8, 0x65, 0x67, 0x66]
            &&& get32(file, 4) == get32(file, 8)
            &&& get64(file, 12) == filetime
            &&& get32(file, 20) == 1 && get32(file, 24) == 3
            &&& get32(file, 28) == 0 && get32(file, 32) == 1
            &&& get32(file, 40) == n
            &&& get32(file, 0x1FC) == xor_dwords(file, 127)
            &&& forall|k: int|
                0 <= k < n / 4096 ==> #[trigger] file.subrange(
                    4096 + 4096 * k,
                    4096 + 4096 * k + 12,
                ) == hbin_header(4096 * k)
        }),
{
    lemma_ordered_fits(tree);
    lemma_tree_frame(ordered(tree), filetime);
}

proof fn lemma_tree_frame(tree: KeyModel, filetime: int)
    requires
        key_fits(tree),
        8192 * key_cells(tree) <= 0x6000_0000,
        0 <= filetime < 0x1_0000_0000_0000_0000,
    ensures
        ({
            let file = tree_file(tree, filetime);
            let n = file.len() - 4096;
            &&& n > 0 && n % 4096 == 0
            &&& file.take(4) == seq![0x72u8, 0x65, 0x67, 0x66]
            &&& get32(file, 4) == get32(file, 8)
            &&& get64(file, 12) == filetime
            &&& get32(file, 20) == 1 && get32(file, 24) == 3
            &&& get32(file, 28) == 0 && get32(file, 32) == 1
            &&& get32(file, 40) == n
            &&& get32(file, 0x1FC) == xor_dwords(file, 127)
            &&& forall|k: int|
                0 <= k < n / 4096 ==> #[trigger] file.subrange(
                    4096 + 4096 * k,
                    4096 + 4096 * k + 12,
                ) == hbin_header(4096 * k)
        }),
{
    broadcast use group_le_len;
    let b0 = Bins::empty();
    let (b, root) = put_key(b0, tree, true, filetime, 0);
    lemma_put_key_grown(b0, tree, true, filetime, 0);
    lemma_put_key_nks(b0, tree, true, filetime, 0);
    lemma_secured(b);
    let c = secured(b);
    let n = c.bytes.len() as int;
    let file = tree_file(tree, filetime);
    let base = base_block(filetime, root, n);
    let sum = xor_dwords(base, 127);
    lemma_base_fields(filetime, root, n);
    let head = overlay(base, 0x1FC, le32(sum as int));
    assert(file == head + stamped(c.bytes));
    assert forall|i: int| 0 <= i < 0x1FC implies #[trigger] file[i] == base[i] by {}
    assert(file.take(4) =~= base.take(4));
    lemma_le32_round_trip(sum as int);
    assert(get32(file, 0x1FC) == get32(le32(sum as int), 0));
    lemma_xor_same(file, base, 127);
    assert forall|k: int| 0 <= k < n / 4096 implies #[trigger] file.subrange(
        4096 + 4096 * k,
        4096 + 4096 * k + 12,
    ) == hbin_header(4096 * k) by {
        assert forall|j: int| 0 <= j < 12 implies #[trigger] stamped(c.bytes)[4096 * k + j]
            == hbin_header(4096 * k)[j] by {
            assert((4096 * k + j) / 4096 * 4096 == 4096 * k);
            assert((4096 * k + j) % 4096 == j);
        }
        assert(file.subrange(4096 + 4096 * k, 4096 + 4096 * k + 12) =~= hbin_header(4096 * k));
    }
}

proof fn lemma_base_fields(filetime: int, root: int, n: int)
    requires
        0 <= filetime < 0x1_0000_0000_0000_0000,
        0 <= n < 0x1_0000_0000,
    ensures
        ({
            let base = base_block(filetime, root, n);
            &&& base.len() == 4096
            &&& base.take(4) == seq![0x72u8, 0x65, 0x67, 0x66]
            &&& get32(base, 4) == get32(base, 8)
            &&& get64(base, 12) == filetime
            &&& get32(base, 20) == 1 && get32(base, 24) == 3
            &&& get32(base, 28) == 0 && get32(base, 32) == 1
            &&& get32(base, 40) == n
        }),
{
    broadcast use group_le_len;
    reveal(base_block);
    let base = base_block(filetime, root, n);
    assert(base.take(4) =~= seq![0x72u8, 0x65, 0x67, 0x66]);
    lemma_le32_round_trip(0);
    lemma_le32_round_trip(1);
    lemma_le32_round_trip(3);
    lemma_le32_round_trip(n);
    lemma_le64_round_trip(filetime);
    assert(get32(base, 4) == get32(le32(1), 0));
    assert(get32(base, 8) == get32(le32(1), 0));
    let t = le64(filetime);
    assert(get32(base, 12) == get32(t, 0));
    assert(get32(base, 16) == get32(t, 4));
    assert(get32(base, 20) == get32(le32(1), 0));
    assert(get32(base, 24) == get32(le32(3), 0));
    assert(get32(base, 28) == get32(le32(0), 0));
    assert(get32(base, 32) == get32(le32(1), 0));
    assert(get32(base, 40) == get32(le32(n), 0));
}

proof fn lemma_xor_same(a: Seq<u8>, b: Seq<u8>, n: nat)
    requires
        n <= 127,
        forall|i: int| 0 <= i < 0x1FC ==> #[trigger] a[i] == b[i],
    ensures
        xor_dwords(a, n) == xor_dwords(b, n),
    decreases n,
{
    if n > 0 {
        lemma_xor_same(a, b, (n - 1) as nat);
        assert(get32(a, 4 * (n - 1)) == get32(b, 4 * (n - 1)));
    }
}

} // verus!
