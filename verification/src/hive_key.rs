//! Key trees and how they are laid out in the cells of a hive.

use crate::bytes::{
    group_le_len, le16, le32, le64, push_bytes, push_u16, push_u32, push_u64, utf16_nul,
    utf16_nul_bytes,
};
use crate::hive::{lemma_alloc, max_payload, Bins, Hive};
use crate::hive_order::{
    child_slot, lemma_ordered_all, lemma_ordered_fits, ordered, ordered_all,
};
use crate::text::{lower, str_lt, to_lower};
use vstd::prelude::*;
use vstd::utf8::encode_utf8;

verus! {

/// A registry value.
pub enum ValModel {
    Sz(Seq<char>),
    MultiSz(Seq<Seq<char>>),
    Dword(int),
    Binary(Seq<u8>),
}

/// A registry key with its values and subkeys.
pub struct KeyModel {
    pub name: Seq<char>,
    pub values: Seq<(Seq<char>, ValModel)>,
    pub children: Seq<KeyModel>,
}

/// NUL-terminated strings one after another, and a final terminator.
pub open spec fn multi_sz_items(items: Seq<Seq<char>>) -> Seq<u8>
    decreases items.len(),
{
    if items.len() == 0 {
        seq![]
    } else {
        multi_sz_items(items.drop_last()) + utf16_nul_bytes(items.last())
    }
}

impl ValModel {
    /// The registry type number.
    pub open spec fn kind(self) -> int {
        match self {
            ValModel::Sz(_) => 1,
            ValModel::MultiSz(_) => 7,
            ValModel::Dword(_) => 4,
            ValModel::Binary(_) => 3,
        }
    }

    /// The bytes of the value.
    pub open spec fn data(self) -> Seq<u8> {
        match self {
            ValModel::Sz(s) => utf16_nul_bytes(s),
            ValModel::MultiSz(items) => multi_sz_items(items) + seq![0u8, 0u8],
            ValModel::Dword(v) => le32(v),
            ValModel::Binary(b) => b,
        }
    }

    /// The size word of the value record: bit 31 marks data held inline.
    pub open spec fn size_word(self) -> int {
        match self {
            ValModel::Dword(_) => 0x8000_0004,
            _ => self.data().len() as int,
        }
    }
}

/// The value record that points to (or holds) `field`.
pub open spec fn vk_record(name: Seq<char>, val: ValModel, field: int) -> Seq<u8> {
    seq![0x76u8, 0x6b]  // "vk"
         + le16(encode_utf8(name).len() as int) + le32(val.size_word()) + le32(field) + le32(
        val.kind(),
    ) + le16(1) + le16(0) + encode_utf8(name)
}

/// Writes a value: its data, unless inline, and its record.
pub open spec fn put_value(b: Bins, name: Seq<char>, val: ValModel) -> (Bins, int) {
    match val {
        ValModel::Dword(v) => {
            let rec = vk_record(name, val, v);
            (b.alloc_cell(rec), b.cell_at(rec))
        },
        _ => {
            let b1 = b.alloc_cell(val.data());
            let rec = vk_record(name, val, b.cell_at(val.data()));
            (b1.alloc_cell(rec), b1.cell_at(rec))
        },
    }
}

pub open spec fn put_values(b: Bins, values: Seq<(Seq<char>, ValModel)>) -> (Bins, Seq<int>)
    decreases values.len(),
{
    if values.len() == 0 {
        (b, seq![])
    } else {
        let (b1, cells) = put_values(b, values.drop_last());
        let (b2, cell) = put_value(b1, values.last().0, values.last().1);
        (b2, cells.push(cell))
    }
}

/// Offsets one after another.
pub open spec fn cell_list(cells: Seq<int>) -> Seq<u8>
    decreases cells.len(),
{
    if cells.len() == 0 {
        seq![]
    } else {
        cell_list(cells.drop_last()) + le32(cells.last())
    }
}

/// The first four bytes of a name, zero-padded.
pub open spec fn name_hint(name: Seq<char>) -> Seq<u8> {
    let b = encode_utf8(name);
    Seq::new(
        4,
        |i: int|
            if i < b.len() {
                b[i]
            } else {
                0
            },
    )
}

pub open spec fn lf_entries(children: Seq<KeyModel>, cells: Seq<int>) -> Seq<u8>
    decreases children.len(),
{
    if children.len() == 0 {
        seq![]
    } else {
        lf_entries(children.drop_last(), cells.drop_last()) + le32(cells.last()) + name_hint(
            children.last().name,
        )
    }
}

/// The fast-leaf list of subkeys.
pub open spec fn lf_record(children: Seq<KeyModel>, cells: Seq<int>) -> Seq<u8> {
    seq![0x6cu8, 0x66]  // "lf"
         + le16(children.len() as int) + lf_entries(children, cells)
}

pub open spec fn max(a: int, b: int) -> int {
    if a < b {
        b
    } else {
        a
    }
}

/// The longest subkey name, in bytes.
pub open spec fn longest_child_name(children: Seq<KeyModel>) -> int
    decreases children.len(),
{
    if children.len() == 0 {
        0
    } else {
        max(
            longest_child_name(children.drop_last()),
            encode_utf8(children.last().name).len() as int,
        )
    }
}

/// The longest value name, in bytes.
pub open spec fn longest_value_name(values: Seq<(Seq<char>, ValModel)>) -> int
    decreases values.len(),
{
    if values.len() == 0 {
        0
    } else {
        max(longest_value_name(values.drop_last()), encode_utf8(values.last().0).len() as int)
    }
}

/// The longest value, in bytes.
pub open spec fn longest_value_data(values: Seq<(Seq<char>, ValModel)>) -> int
    decreases values.len(),
{
    if values.len() == 0 {
        0
    } else {
        max(longest_value_data(values.drop_last()), values.last().1.data().len() as int)
    }
}

/// The key node of `key`, with subkey list and value list at the given
/// offsets (0xFFFFFFFF for none) and the parent still open.
#[verifier::opaque]
pub open spec fn nk_record(
    key: KeyModel,
    root: bool,
    filetime: int,
    sk: int,
    sublist: int,
    vlist: int,
) -> Seq<u8> {
    seq![0x6eu8, 0x6b]  // "nk"
         + le16(
        if root {
            0x2C
        } else {
            0x20
        },
    ) + le64(filetime) + le32(0) + le32(0) + le32(key.children.len() as int) + le32(0) + le32(
        sublist,
    ) + le32(0xFFFF_FFFF) + le32(key.values.len() as int) + le32(vlist) + le32(sk) + le32(
        0xFFFF_FFFF,
    ) + le32(longest_child_name(key.children)) + le32(0) + le32(longest_value_name(key.values))
        + le32(longest_value_data(key.values)) + le32(0) + le16(
        encode_utf8(key.name).len() as int,
    ) + le16(0) + encode_utf8(key.name)
}

/// Every cell in `cells` gets `v` at `off` of its payload.
pub open spec fn patch_each(b: Bins, cells: Seq<int>, off: int, v: int) -> Bins
    decreases cells.len(),
{
    if cells.len() == 0 {
        b
    } else {
        patch_each(b, cells.drop_last(), off, v).patch(cells.last(), off, v)
    }
}

/// Writes subkeys in order.
pub open spec fn put_keys(b: Bins, children: Seq<KeyModel>, filetime: int, sk: int) -> (
    Bins,
    Seq<int>,
)
    decreases children,
{
    if children.len() == 0 {
        (b, seq![])
    } else {
        let (b1, cells) = put_keys(b, children.drop_last(), filetime, sk);
        let (b2, cell) = put_key(b1, children.last(), false, filetime, sk);
        (b2, cells.push(cell))
    }
}

/// Writes the list of subkeys, if there are any.
pub open spec fn put_sublist(b: Bins, children: Seq<KeyModel>, cells: Seq<int>) -> (Bins, int) {
    if children.len() == 0 {
        (b, 0xFFFF_FFFF)
    } else {
        (b.alloc_cell(lf_record(children, cells)), b.cell_at(lf_record(children, cells)))
    }
}

/// Writes the list of values, if there are any.
pub open spec fn put_vlist(b: Bins, cells: Seq<int>) -> (Bins, int) {
    if cells.len() == 0 {
        (b, 0xFFFF_FFFF)
    } else {
        (b.alloc_cell(cell_list(cells)), b.cell_at(cell_list(cells)))
    }
}

/// Writes `key` and its subtree: subkeys, their list, values, their list and
/// at last the key node, which becomes the parent of the subkeys.
pub open spec fn put_key(b: Bins, key: KeyModel, root: bool, filetime: int, sk: int) -> (Bins, int)
    decreases key,
{
    let (b1, kids) = put_keys(b, key.children, filetime, sk);
    let (b2, sublist) = put_sublist(b1, key.children, kids);
    let (b3, vks) = put_values(b2, key.values);
    let (b4, vlist) = put_vlist(b3, vks);
    let rec = nk_record(key, root, filetime, sk, sublist, vlist);
    let idx = b4.cell_at(rec);
    (patch_each(b4.alloc_cell(rec).with_nk(idx), kids, 0x10, idx), idx)
}

/// Whether the records of a value fit in a page each.
pub open spec fn value_fits(name: Seq<char>, val: ValModel) -> bool {
    &&& encode_utf8(name).len() + 20 <= max_payload()
    &&& val.data().len() <= max_payload()
    &&& val matches ValModel::Dword(v) ==> 0 <= v < 0x1_0000_0000
}

/// Whether every record of a subtree fits in a page.
pub open spec fn key_fits(key: KeyModel) -> bool
    decreases key,
{
    &&& encode_utf8(key.name).len() + 76 <= max_payload()
    &&& 8 * key.children.len() + 4 <= max_payload()
    &&& 4 * key.values.len() <= max_payload()
    &&& forall|i: int|
        0 <= i < key.values.len() ==> value_fits(
            (#[trigger] key.values[i]).0,
            key.values[i].1,
        )
    &&& forall|i: int| 0 <= i < key.children.len() ==> key_fits(#[trigger] key.children[i])
}

/// Upper bound on the number of cells that subkeys take.
pub open spec fn keys_cells(children: Seq<KeyModel>) -> nat
    decreases children,
{
    if children.len() == 0 {
        0
    } else {
        keys_cells(children.drop_last()) + key_cells(children.last())
    }
}

/// Upper bound on the number of cells that a subtree takes.
pub open spec fn key_cells(key: KeyModel) -> nat
    decreases key,
{
    keys_cells(key.children) + 2 * key.values.len() + 3
}

// ---- how far the pages grow ---------------------------------------------

/// `c` came from `b` by allocations that took at most `n` cells.
pub open spec fn grown(b: Bins, c: Bins, n: nat) -> bool {
    &&& c.wf()
    &&& b.next <= c.next <= b.next + 8192 * n
    &&& b.bytes.len() <= c.bytes.len()
}

pub proof fn lemma_put_value_grown(b: Bins, name: Seq<char>, val: ValModel)
    requires
        b.wf(),
        value_fits(name, val),
    ensures
        grown(b, put_value(b, name, val).0, 2),
        b.next <= put_value(b, name, val).1 < put_value(b, name, val).0.next,
{
    broadcast use group_le_len;
    match val {
        ValModel::Dword(v) => {
            lemma_alloc(b, vk_record(name, val, v));
        },
        _ => {
            lemma_alloc(b, val.data());
            lemma_alloc(
                b.alloc_cell(val.data()),
                vk_record(name, val, b.cell_at(val.data())),
            );
        },
    }
}

pub proof fn lemma_put_values_grown(b: Bins, values: Seq<(Seq<char>, ValModel)>)
    requires
        b.wf(),
        forall|i: int|
            0 <= i < values.len() ==> value_fits((#[trigger] values[i]).0, values[i].1),
    ensures
        grown(b, put_values(b, values).0, 2 * values.len()),
        put_values(b, values).1.len() == values.len(),
    decreases values.len(),
{
    if values.len() > 0 {
        assert forall|i: int| 0 <= i < values.drop_last().len() implies value_fits(
            (#[trigger] values.drop_last()[i]).0,
            values.drop_last()[i].1,
        ) by {
            assert(values.drop_last()[i] == values[i]);
        }
        lemma_put_values_grown(b, values.drop_last());
        assert(values.last() == values[values.len() - 1]);
        lemma_put_value_grown(
            put_values(b, values.drop_last()).0,
            values.last().0,
            values.last().1,
        );
    }
}

pub proof fn lemma_cell_list_len(cells: Seq<int>)
    ensures
        cell_list(cells).len() == 4 * cells.len(),
    decreases cells.len(),
{
    broadcast use group_le_len;
    if cells.len() > 0 {
        lemma_cell_list_len(cells.drop_last());
    }
}

pub proof fn lemma_lf_entries_len(children: Seq<KeyModel>, cells: Seq<int>)
    ensures
        lf_entries(children, cells).len() == 8 * children.len(),
    decreases children.len(),
{
    broadcast use group_le_len;
    if children.len() > 0 {
        lemma_lf_entries_len(children.drop_last(), cells.drop_last());
    }
}

pub proof fn lemma_nk_record_len(
    key: KeyModel,
    root: bool,
    filetime: int,
    sk: int,
    sublist: int,
    vlist: int,
)
    ensures
        nk_record(key, root, filetime, sk, sublist, vlist).len() == 76 + encode_utf8(key.name).len(),
{
    broadcast use group_le_len;
    reveal(nk_record);
}

/// Patching only changes bytes.
pub proof fn lemma_patch_each_shape(b: Bins, cells: Seq<int>, off: int, v: int)
    ensures
        patch_each(b, cells, off, v).bytes.len() == b.bytes.len(),
        patch_each(b, cells, off, v).next == b.next,
        patch_each(b, cells, off, v).nks == b.nks,
    decreases cells.len(),
{
    if cells.len() > 0 {
        lemma_patch_each_shape(b, cells.drop_last(), off, v);
    }
}

pub proof fn lemma_put_keys_grown(b: Bins, children: Seq<KeyModel>, filetime: int, sk: int)
    requires
        b.wf(),
        forall|i: int| 0 <= i < children.len() ==> key_fits(#[trigger] children[i]),
    ensures
        ({
            let (c, cells) = put_keys(b, children, filetime, sk);
            &&& grown(b, c, keys_cells(children))
            &&& cells.len() == children.len()
            &&& forall|i: int|
                0 <= i < cells.len() ==> b.next <= #[trigger] cells[i] && cells[i] + 80 <= c.next
        }),
    decreases children,
{
    if children.len() > 0 {
        let front = children.drop_last();
        assert forall|i: int| 0 <= i < front.len() implies key_fits(#[trigger] front[i]) by {
            assert(front[i] == children[i]);
        }
        lemma_put_keys_grown(b, front, filetime, sk);
        assert(children.last() == children[children.len() - 1]);
        lemma_put_key_grown(put_keys(b, front, filetime, sk).0, children.last(), false, filetime, sk);
    }
}

pub proof fn lemma_put_key_grown(b: Bins, key: KeyModel, root: bool, filetime: int, sk: int)
    requires
        b.wf(),
        key_fits(key),
    ensures
        ({
            let (c, idx) = put_key(b, key, root, filetime, sk);
            &&& grown(b, c, key_cells(key))
            &&& b.next <= idx
            &&& idx + 80 <= c.next
        }),
    decreases key,
{
    broadcast use group_le_len;
    lemma_put_keys_grown(b, key.children, filetime, sk);
    let (b1, kids) = put_keys(b, key.children, filetime, sk);
    let (b2, sublist) = put_sublist(b1, key.children, kids);
    lemma_lf_entries_len(key.children, kids);
    if key.children.len() > 0 {
        lemma_alloc(b1, lf_record(key.children, kids));
    }
    lemma_put_values_grown(b2, key.values);
    let (b3, vks) = put_values(b2, key.values);
    lemma_cell_list_len(vks);
    let (b4, vlist) = put_vlist(b3, vks);
    if vks.len() > 0 {
        lemma_alloc(b3, cell_list(vks));
    }
    let rec = nk_record(key, root, filetime, sk, sublist, vlist);
    lemma_nk_record_len(key, root, filetime, sk, sublist, vlist);
    lemma_alloc(b4, rec);
    let idx = b4.cell_at(rec);
    lemma_patch_each_shape(b4.alloc_cell(rec).with_nk(idx), kids, 0x10, idx);
}

// ---- the tree in memory ------------------------------------------------

pub enum Val {
    Sz(String),
    MultiSz(Vec<String>),
    Dword(u32),
    Binary(Vec<u8>),
}

pub struct Key {
    pub name: String,
    pub values: Vec<(String, Val)>,
    pub children: Vec<Key>,
}

impl Val {
    pub open spec fn view(self) -> ValModel {
        match self {
            Val::Sz(s) => ValModel::Sz(s@),
            Val::MultiSz(items) => ValModel::MultiSz(items@.map_values(|s: String| s@)),
            Val::Dword(v) => ValModel::Dword(v as int),
            Val::Binary(b) => ValModel::Binary(b@),
        }
    }
}

pub open spec fn value_views(values: Seq<(String, Val)>) -> Seq<(Seq<char>, ValModel)> {
    values.map_values(|v: (String, Val)| (v.0@, v.1@))
}

pub open spec fn key_views(keys: Seq<Key>) -> Seq<KeyModel>
    decreases keys,
{
    if keys.len() == 0 {
        seq![]
    } else {
        key_views(keys.drop_last()).push(keys.last()@)
    }
}

impl Key {
    pub open spec fn view(self) -> KeyModel
        decreases self,
    {
        KeyModel {
            name: self.name@,
            values: value_views(self.values@),
            children: key_views(self.children@),
        }
    }
}

pub proof fn lemma_key_views(keys: Seq<Key>)
    ensures
        key_views(keys).len() == keys.len(),
        forall|i: int| 0 <= i < keys.len() ==> #[trigger] key_views(keys)[i] == keys[i]@,
    decreases keys.len(),
{
    if keys.len() > 0 {
        lemma_key_views(keys.drop_last());
    }
}

impl Key {
    /// A key without values and subkeys. Keeps the case of `name`.
    pub fn new(name: &str) -> (key: Key)
        ensures
            key@ == (KeyModel { name: name@, values: seq![], children: seq![] }),
    {
        let key = Key { name: name.to_owned(), values: Vec::new(), children: Vec::new() };
        assert(key@.values =~= seq![]);
        key
    }

    /// A key without values and subkeys, named in lower case.
    pub fn named(name: &str) -> (key: Key)
        ensures
            key@ == (KeyModel { name: lower(name@), values: seq![], children: seq![] }),
    {
        let key = Key { name: to_lower(name), values: Vec::new(), children: Vec::new() };
        assert(key@.values =~= seq![]);
        key
    }

    /// Adds a subkey.
    pub fn add(&mut self, child: Key)
        ensures
            final(self)@.name == old(self)@.name,
            final(self)@.values == old(self)@.values,
            final(self)@.children == old(self)@.children.push(child@),
    {
        let ghost before = self.children@;
        self.children.push(child);
        assert(self.children@.drop_last() =~= before);
    }

    /// Sets a value.
    pub fn set(&mut self, name: &str, val: Val)
        ensures
            final(self)@.name == old(self)@.name,
            final(self)@.values == old(self)@.values.push((name@, val@)),
            final(self)@.children == old(self)@.children,
    {
        self.values.push((name.to_owned(), val));
        assert(self@.values =~= old(self)@.values.push((name@, val@)));
    }
}

/// Strings one after another, NUL-terminated, and a final terminator.
fn multi_sz(items: &Vec<String>) -> (v: Vec<u8>)
    ensures
        v@ == ValModel::MultiSz(items@.map_values(|s: String| s@)).data(),
{
    let ghost all = items@.map_values(|s: String| s@);
    let mut v: Vec<u8> = Vec::new();
    let mut i: usize = 0;
    while i < items.len()
        invariant
            i <= items@.len(),
            all == items@.map_values(|s: String| s@),
            v@ == multi_sz_items(all.take(i as int)),
        decreases items@.len() - i,
    {
        let mut s: Vec<u8> = utf16_nul(items[i].as_str());
        v.append(&mut s);
        proof {
            assert(all.take(i + 1).drop_last() =~= all.take(i as int));
            assert(all.take(i + 1).last() == items@[i as int]@);
        }
        i += 1;
    }
    v.push(0);
    v.push(0);
    assert(all.take(i as int) =~= all);
    assert(v@ =~= multi_sz_items(all) + seq![0u8, 0u8]);
    v
}

/// Registry type and bytes of a value; the number itself where it is held
/// inline.
fn val_data(val: &Val) -> (r: (u32, Vec<u8>, Option<u32>))
    ensures
        r.0 == val@.kind(),
        match val@ {
            ValModel::Dword(v) => r.2 == Some(v as u32) && r.1@ == Seq::<u8>::empty(),
            _ => r.2 is None && r.1@ == val@.data(),
        },
{
    match val {
        Val::Sz(s) => (1, utf16_nul(s.as_str()), None),
        Val::MultiSz(items) => (7, multi_sz(items), None),
        Val::Dword(v) => (4, Vec::new(), Some(*v)),
        Val::Binary(b) => {
            let mut data: Vec<u8> = Vec::new();
            push_bytes(&mut data, b.as_slice());
            (3, data, None)
        },
    }
}

/// Writes a value and returns the offset of its record.
fn write_value(hive: &mut Hive, name: &str, val: &Val) -> (cell: u32)
    requires
        old(hive)@.wf(),
        old(hive)@.next + 16384 <= 0x7000_0000,
        value_fits(name@, val@),
    ensures
        (final(hive)@, cell as int) == put_value(old(hive)@, name@, val@),
{
    broadcast use group_le_len;
    let ghost b = hive@;
    let (raw_type, data, inline) = val_data(val);
    let nb: &[u8] = name.as_bytes();
    let data_len: u32 = if inline.is_some() { 4 } else { data.len() as u32 };
    let field: u32 = match inline {
        Some(v) => v,
        None => {
            proof {
                lemma_alloc(b, data@);
            }
            hive.alloc_cell(data.as_slice())
        },
    };
    let size_word: u32 = if inline.is_some() { 0x8000_0000 + data_len } else { data_len };
    let mut rec: Vec<u8> = Vec::new();
    rec.push(0x76);
    rec.push(0x6b);
    push_u16(&mut rec, nb.len() as u16);
    push_u32(&mut rec, size_word);
    push_u32(&mut rec, field);
    push_u32(&mut rec, raw_type);
    push_u16(&mut rec, 1);
    push_u16(&mut rec, 0);
    push_bytes(&mut rec, nb);
    assert(rec@ =~= vk_record(name@, val@, field as int));
    hive.alloc_cell(rec.as_slice())
}

/// The first four bytes of a name, zero-padded.
fn push_name_hint(v: &mut Vec<u8>, name: &str)
    ensures
        final(v)@ == old(v)@ + name_hint(name@),
{
    let nb: &[u8] = name.as_bytes();
    let mut i: usize = 0;
    while i < 4
        invariant
            i <= 4,
            nb@ == encode_utf8(name@),
            v@ == old(v)@ + name_hint(name@).take(i as int),
        decreases 4 - i,
    {
        if i < nb.len() {
            v.push(nb[i]);
        } else {
            v.push(0);
        }
        i += 1;
        assert(v@ =~= old(v)@ + name_hint(name@).take(i as int));
    }
    assert(name_hint(name@).take(4) =~= name_hint(name@));
}

/// Whether `order` lists the subkeys in ascending order.
pub open spec fn orders(order: Seq<usize>, children: Seq<KeyModel>) -> bool {
    &&& order.len() == children.len() == ordered_all(children).len()
    &&& forall|i: int|
        0 <= i < order.len() ==> (#[trigger] order[i]) < children.len() && ordered_all(children)[i]
            == ordered(children[order[i] as int])
}

/// The places of the subkeys in ascending order of their names; those of one
/// name stay as they were.
fn name_order(children: &Vec<Key>) -> (order: Vec<usize>)
    ensures
        orders(order@, key_views(children@)),
{
    let ghost models = key_views(children@);
    let mut order: Vec<usize> = Vec::new();
    let mut i: usize = 0;
    proof {
        lemma_key_views(children@);
        assert(models.take(0) =~= seq![]);
    }
    while i < children.len()
        invariant
            i <= children@.len() == models.len(),
            models == key_views(children@),
            orders(order@, models.take(i as int)),
        decreases children@.len() - i,
    {
        let ghost front = models.take(i as int);
        let ghost done = ordered_all(front);
        let ghost key = models[i as int];
        let ghost o0 = order@;
        proof {
            lemma_key_views(children@);
            assert(done.take(i as int) =~= done);
        }
        let mut p: usize = i;
        while p > 0 && str_lt(children[i].name.as_str(), children[order[p - 1]].name.as_str())
            invariant
                p <= i < children@.len() == models.len(),
                models == key_views(children@),
                front == models.take(i as int),
                done == ordered_all(front),
                key == models[i as int],
                key == children@[i as int]@,
                order@ == o0,
                orders(o0, front),
                child_slot(done.take(p as int), key.name) == child_slot(done, key.name),
            decreases p,
        {
            proof {
                lemma_key_views(children@);
                let k = o0[p - 1] as int;
                assert(front[k] == models[k] && models[k] == children@[k]@);
                assert(done[p - 1] == ordered(front[k]));
                assert(done.take(p as int).drop_last() =~= done.take(p - 1));
                assert(done.take(p as int).last() == done[p - 1]);
            }
            p -= 1;
        }
        proof {
            lemma_key_views(children@);
            if p > 0 {
                let k = o0[p - 1] as int;
                assert(front[k] == models[k] && models[k] == children@[k]@);
                assert(done[p - 1] == ordered(front[k]));
                assert(done.take(p as int).last() == done[p - 1]);
            }
            assert(child_slot(done, key.name) == p);
        }
        order.insert(p, i);
        proof {
            let now = models.take(i + 1);
            assert(now.drop_last() =~= front);
            assert(now.last() == key);
            assert(ordered_all(now) == done.insert(p as int, ordered(key)));
            assert forall|j: int| 0 <= j < order@.len() implies (#[trigger] order@[j]) < now.len()
                && ordered_all(now)[j] == ordered(now[order@[j] as int]) by {
                if j < p {
                    assert(order@[j] == o0[j]);
                    assert(front[o0[j] as int] == now[o0[j] as int]);
                } else if j > p {
                    assert(order@[j] == o0[j - 1]);
                    assert(front[o0[j - 1] as int] == now[o0[j - 1] as int]);
                }
            }
        }
        i += 1;
    }
    assert(models.take(i as int) =~= models);
    order
}

/// The fast-leaf list of subkeys, in ascending order.
fn lf_list(children: &Vec<Key>, order: &Vec<usize>, cells: &Vec<u32>) -> (rec: Vec<u8>)
    requires
        children@.len() == cells@.len(),
        children@.len() < 0x1_0000,
        orders(order@, key_views(children@)),
    ensures
        rec@ == lf_record(
            ordered_all(key_views(children@)),
            cells@.map_values(|x: u32| x as int),
        ),
{
    let ghost models = ordered_all(key_views(children@));
    let ghost offs = cells@.map_values(|x: u32| x as int);
    proof {
        lemma_key_views(children@);
    }
    let mut rec: Vec<u8> = Vec::new();
    rec.push(0x6c);
    rec.push(0x66);
    push_u16(&mut rec, children.len() as u16);
    let ghost head = rec@;
    let mut i: usize = 0;
    assert(models.take(0) =~= seq![]);
    while i < children.len()
        invariant
            i <= children@.len() == cells@.len(),
            models == ordered_all(key_views(children@)),
            orders(order@, key_views(children@)),
            offs == cells@.map_values(|x: u32| x as int),
            rec@ == head + lf_entries(models.take(i as int), offs.take(i as int)),
        decreases children@.len() - i,
    {
        let ghost before = rec@;
        proof {
            lemma_key_views(children@);
        }
        push_u32(&mut rec, cells[i]);
        push_name_hint(&mut rec, children[order[i]].name.as_str());
        proof {
            assert(models.take(i + 1).drop_last() =~= models.take(i as int));
            assert(offs.take(i + 1).drop_last() =~= offs.take(i as int));
            assert(models.take(i + 1).last() == models[i as int]);
            assert(models[i as int].name == children@[order@[i as int] as int]@.name);
            assert(offs.take(i + 1).last() == cells@[i as int] as int);
            assert(rec@ =~= head + lf_entries(models.take(i + 1), offs.take(i + 1)));
        }
        i += 1;
    }
    proof {
        assert(models.take(i as int) =~= models);
        assert(offs.take(i as int) =~= offs);
        broadcast use group_le_len;
        assert(rec@ =~= lf_record(models, offs));
    }
    rec
}

/// Offsets one after another.
fn offset_list(cells: &Vec<u32>) -> (rec: Vec<u8>)
    ensures
        rec@ == cell_list(cells@.map_values(|x: u32| x as int)),
{
    let ghost offs = cells@.map_values(|x: u32| x as int);
    let mut rec: Vec<u8> = Vec::new();
    let mut i: usize = 0;
    while i < cells.len()
        invariant
            i <= cells@.len(),
            offs == cells@.map_values(|x: u32| x as int),
            rec@ == cell_list(offs.take(i as int)),
        decreases cells@.len() - i,
    {
        push_u32(&mut rec, cells[i]);
        proof {
            assert(offs.take(i + 1).drop_last() =~= offs.take(i as int));
            assert(offs.take(i + 1).last() == cells@[i as int] as int);
        }
        i += 1;
    }
    assert(offs.take(i as int) =~= offs);
    rec
}

/// Byte length of the longest subkey name.
fn longest_child(children: &Vec<Key>) -> (n: u32)
    requires
        forall|i: int|
            0 <= i < children@.len() ==> encode_utf8((#[trigger] children@[i])@.name).len()
                <= max_payload(),
    ensures
        n == longest_child_name(key_views(children@)),
        n <= max_payload(),
{
    let ghost models = key_views(children@);
    proof {
        lemma_key_views(children@);
        assert(models.take(0) =~= seq![]);
    }
    let mut n: u32 = 0;
    let mut i: usize = 0;
    while i < children.len()
        invariant
            i <= children@.len(),
            models == key_views(children@),
            n == longest_child_name(models.take(i as int)),
            n <= max_payload(),
            forall|i: int|
                0 <= i < children@.len() ==> encode_utf8((#[trigger] children@[i])@.name).len()
                    <= max_payload(),
        decreases children@.len() - i,
    {
        assert(encode_utf8(children@[i as int]@.name).len() <= max_payload());
        let len: usize = children[i].name.as_str().as_bytes().len();
        if (len as u32) > n {
            n = len as u32;
        }
        proof {
            lemma_key_views(children@);
            assert(models.take(i + 1).drop_last() =~= models.take(i as int));
            assert(models.take(i + 1).last() == children@[i as int]@);
        }
        i += 1;
    }
    assert(models.take(i as int) =~= models);
    n
}

/// Byte lengths of the longest value name and the longest value.
fn longest_value(values: &Vec<(String, Val)>) -> (r: (u32, u32))
    requires
        forall|i: int|
            0 <= i < values@.len() ==> value_fits(
                (#[trigger] value_views(values@)[i]).0,
                value_views(values@)[i].1,
            ),
    ensures
        r.0 == longest_value_name(value_views(values@)),
        r.1 == longest_value_data(value_views(values@)),
{
    let ghost all = value_views(values@);
    let mut name: u32 = 0;
    let mut data: u32 = 0;
    let mut i: usize = 0;
    while i < values.len()
        invariant
            i <= values@.len(),
            all == value_views(values@),
            name == longest_value_name(all.take(i as int)),
            data == longest_value_data(all.take(i as int)),
            name <= max_payload(),
            data <= max_payload(),
            forall|i: int| 0 <= i < all.len() ==> value_fits((#[trigger] all[i]).0, all[i].1),
        decreases values@.len() - i,
    {
        broadcast use group_le_len;
        assert(value_fits(all[i as int].0, all[i as int].1));
        let nlen: usize = values[i].0.as_str().as_bytes().len();
        let dlen: usize = val_data_len(&values[i].1);
        if (nlen as u32) > name {
            name = nlen as u32;
        }
        if (dlen as u32) > data {
            data = dlen as u32;
        }
        proof {
            assert(all.take(i + 1).drop_last() =~= all.take(i as int));
            assert(all.take(i + 1).last() == all[i as int]);
        }
        i += 1;
    }
    assert(all.take(i as int) =~= all);
    (name, data)
}

/// Byte length of a value.
fn val_data_len(val: &Val) -> (n: usize)
    ensures
        n == val@.data().len(),
{
    broadcast use group_le_len;
    match val {
        Val::Dword(_) => 4,
        _ => val_data(val).1.len(),
    }
}

/// The key node, its parent still open.
fn nk_bytes(key: &Key, is_root: bool, filetime: u64, sk: u32, sublist: u32, vlist: u32) -> (rec: Vec<
    u8,
>)
    requires
        key_fits(key@),
    ensures
        rec@ == nk_record(
            ordered(key@),
            is_root,
            filetime as int,
            sk as int,
            sublist as int,
            vlist as int,
        ),
{
    proof {
        lemma_key_views(key.children@);
        lemma_ordered_all(key@.children);
        assert forall|i: int| 0 <= i < key.children@.len() implies encode_utf8(
            (#[trigger] key.children@[i])@.name,
        ).len() <= max_payload() by {
            assert(key_fits(key@.children[i]));
        }
        assert forall|i: int| 0 <= i < key.values@.len() implies value_fits(
            (#[trigger] value_views(key.values@)[i]).0,
            value_views(key.values@)[i].1,
        ) by {
            assert(key@.values[i] == value_views(key.values@)[i]);
        }
    }
    let max_sub_name: u32 = longest_child(&key.children);
    let (max_val_name, max_val_data) = longest_value(&key.values);
    let nb: &[u8] = key.name.as_str().as_bytes();
    let flags: u16 = if is_root { 0x2C } else { 0x20 };
    let mut rec: Vec<u8> = Vec::new();
    rec.push(0x6e);
    rec.push(0x6b);
    push_u16(&mut rec, flags);
    push_u64(&mut rec, filetime);
    push_u32(&mut rec, 0);
    push_u32(&mut rec, 0);
    push_u32(&mut rec, key.children.len() as u32);
    push_u32(&mut rec, 0);
    push_u32(&mut rec, sublist);
    push_u32(&mut rec, 0xFFFF_FFFF);
    push_u32(&mut rec, key.values.len() as u32);
    push_u32(&mut rec, vlist);
    push_u32(&mut rec, sk);
    push_u32(&mut rec, 0xFFFF_FFFF);
    push_u32(&mut rec, max_sub_name);
    push_u32(&mut rec, 0);
    push_u32(&mut rec, max_val_name);
    push_u32(&mut rec, max_val_data);
    push_u32(&mut rec, 0);
    push_u16(&mut rec, nb.len() as u16);
    push_u16(&mut rec, 0);
    push_bytes(&mut rec, nb);
    proof {
        reveal(nk_record);
        assert(rec@ =~= nk_record(
            ordered(key@),
            is_root,
            filetime as int,
            sk as int,
            sublist as int,
            vlist as int,
        ));
    }
    rec
}

/// Writes `key` and its subtree, the subkeys of every key in ascending order of
/// their names; returns the offset of its key node.
pub fn write_key(hive: &mut Hive, sk: u32, key: &Key, is_root: bool, filetime: u64) -> (idx: u32)
    requires
        old(hive)@.wf(),
        key_fits(key@),
        old(hive)@.next + 8192 * key_cells(key@) <= 0x7000_0000,
    ensures
        (final(hive)@, idx as int) == put_key(
            old(hive)@,
            ordered(key@),
            is_root,
            filetime as int,
            sk as int,
        ),
    decreases key@,
{
    let ghost b = hive@;
    let ghost t = filetime as int;
    let ghost s = sk as int;
    let ghost models = key@.children;
    let ghost kids = ordered_all(models);
    let ghost vals = key@.values;
    proof {
        lemma_key_views(key.children@);
        lemma_ordered_fits(key@);
        lemma_put_keys_grown(b, kids, t, s);
        assert(kids.take(0) =~= seq![]);
        lemma_keys_cells_take(kids, 0);
    }

    let order: Vec<usize> = name_order(&key.children);
    let mut cells: Vec<u32> = Vec::new();
    let mut i: usize = 0;
    let n: usize = key.children.len();
    while i < n
        invariant
            i <= n == key.children@.len() == kids.len(),
            models == key@.children,
            models == key_views(key.children@),
            kids == ordered_all(models),
            kids == ordered(key@).children,
            orders(order@, models),
            t == filetime as int,
            s == sk as int,
            b.wf(),
            key_fits(key@),
            key_fits(ordered(key@)),
            b.next + 8192 * key_cells(ordered(key@)) <= 0x7000_0000,
            cells@.len() == i,
            (hive@, cells@.map_values(|x: u32| x as int)) == put_keys(b, kids.take(i as int), t, s),
        decreases n - i,
    {
        let ghost c0 = cells@;
        proof {
            lemma_key_views(key.children@);
            let k = order@[i as int] as int;
            assert(models[k] == key.children@[k]@);
            assert(kids[i as int] == ordered(models[k]));
            assert forall|j: int| 0 <= j < i implies key_fits(
                #[trigger] kids.take(i as int)[j],
            ) by {
                assert(kids.take(i as int)[j] == kids[j]);
            }
            lemma_put_keys_grown(b, kids.take(i as int), t, s);
            assert(kids.take(i + 1).drop_last() =~= kids.take(i as int));
            assert(kids.take(i + 1).last() == kids[i as int]);
            assert(key_fits(kids[i as int]) && key_fits(models[k]));
            lemma_ordered_fits(models[k]);
            lemma_keys_cells_take(kids, i + 1);
            assert(decreases_to!(key@ => models[k]));
        }
        let c: u32 = write_key(hive, sk, &key.children[order[i]], false, filetime);
        cells.push(c);
        i += 1;
        assert(cells@.map_values(|x: u32| x as int) =~= c0.map_values(|x: u32| x as int).push(
            c as int,
        ));
    }
    let ghost offs = cells@.map_values(|x: u32| x as int);
    let ghost b1 = hive@;
    proof {
        assert(kids.take(n as int) =~= kids);
        lemma_put_keys_grown(b, kids, t, s);
        lemma_lf_entries_len(kids, offs);
        broadcast use group_le_len;
        if n > 0 {
            lemma_alloc(b1, lf_record(kids, offs));
        }
    }
    let sublist: u32 = if n == 0 {
        0xFFFF_FFFF
    } else {
        let payload: Vec<u8> = lf_list(&key.children, &order, &cells);
        hive.alloc_cell(payload.as_slice())
    };
    let ghost b2 = hive@;
    assert((b2, sublist as int) == put_sublist(b1, kids, offs));

    let mut vks: Vec<u32> = Vec::new();
    let mut k: usize = 0;
    let m: usize = key.values.len();
    while k < m
        invariant
            k <= m == key.values@.len() == vals.len(),
            vals == key@.values,
            vals == value_views(key.values@),
            b2.wf(),
            b2.next + 16384 * m <= 0x7000_0000,
            key_fits(key@),
            vks@.len() == k,
            (hive@, vks@.map_values(|x: u32| x as int)) == put_values(b2, vals.take(k as int)),
        decreases m - k,
    {
        let ghost v0 = vks@;
        proof {
            assert forall|j: int| 0 <= j < vals.take(k as int).len() implies value_fits(
                (#[trigger] vals.take(k as int)[j]).0,
                vals.take(k as int)[j].1,
            ) by {
                assert(vals.take(k as int)[j] == vals[j]);
            }
            lemma_put_values_grown(b2, vals.take(k as int));
            assert(vals.take(k + 1).drop_last() =~= vals.take(k as int));
            assert(vals.take(k + 1).last() == vals[k as int]);
        }
        let v: &(String, Val) = &key.values[k];
        let c: u32 = write_value(hive, v.0.as_str(), &v.1);
        vks.push(c);
        k += 1;
        assert(vks@.map_values(|x: u32| x as int) =~= v0.map_values(|x: u32| x as int).push(
            c as int,
        ));
    }
    let ghost voffs = vks@.map_values(|x: u32| x as int);
    let ghost b3 = hive@;
    proof {
        assert(vals.take(m as int) =~= vals);
        lemma_put_values_grown(b2, vals);
        lemma_cell_list_len(voffs);
        if m > 0 {
            lemma_alloc(b3, cell_list(voffs));
        }
    }
    let vlist: u32 = if m == 0 {
        0xFFFF_FFFF
    } else {
        let payload: Vec<u8> = offset_list(&vks);
        hive.alloc_cell(payload.as_slice())
    };
    let ghost b4 = hive@;
    assert((b4, vlist as int) == put_vlist(b3, voffs));

    let rec: Vec<u8> = nk_bytes(key, is_root, filetime, sk, sublist, vlist);
    proof {
        lemma_nk_record_len(ordered(key@), is_root, t, s, sublist as int, vlist as int);
        lemma_alloc(b4, rec@);
    }
    let idx: u32 = hive.alloc_cell(rec.as_slice());
    hive.record_nk(idx);

    // The subkeys were written first; now their parent is known.
    let ghost b5 = hive@;
    let mut p: usize = 0;
    assert(offs.take(0) =~= seq![]);
    while p < n
        invariant
            p <= n == cells@.len(),
            offs == cells@.map_values(|x: u32| x as int),
            b5.bytes.len() <= 0x7FFF_0000,
            b5.wf(),
            forall|i: int| 0 <= i < offs.len() ==> #[trigger] offs[i] + 80 <= b5.next,
            hive@ == patch_each(b5, offs.take(p as int), 0x10, idx as int),
        decreases n - p,
    {
        proof {
            lemma_patch_each_shape(b5, offs.take(p as int), 0x10, idx as int);
            assert(offs.take(p + 1).drop_last() =~= offs.take(p as int));
            assert(offs.take(p + 1).last() == cells@[p as int] as int);
            assert(offs[p as int] + 80 <= b5.next);
        }
        hive.patch_u32(cells[p], 0x10, idx);
        p += 1;
    }
    assert(offs.take(n as int) =~= offs);
    idx
}

/// The cells of the first `n` subkeys are no more than those of all.
proof fn lemma_keys_cells_take(children: Seq<KeyModel>, n: int)
    requires
        0 <= n <= children.len(),
    ensures
        keys_cells(children.take(n)) <= keys_cells(children),
    decreases children.len(),
{
    if n < children.len() {
        lemma_keys_cells_take(children.drop_last(), n);
        assert(children.drop_last().take(n) =~= children.take(n));
    } else {
        assert(children.take(n) =~= children);
    }
}

} // verus!
