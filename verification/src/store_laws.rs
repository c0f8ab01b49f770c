//! What a boot store tells a boot manager that reads it.

use crate::bcd::{
    bcd_tree, boot_blob, boot_manager, element, gpt_blob, os_loader, store_root, valid_guid,
    vhd_blob, vhdx_tree, PartitionRef,
};
use crate::bcd_laws::{law_bcd_reads_back, law_bcd_vhdx_reads_back};
use crate::bytes::{
    get16, get32, get64, group_le_len, le16, le32, le64, lemma_le16_round_trip,
    lemma_le32_round_trip, lemma_le64_round_trip, utf16, utf16_nul_bytes,
};
use crate::hive_key::{multi_sz_items, KeyModel, ValModel};
use crate::hive_order::{child_slot, lemma_ordered_all, lemma_slot_bounds, ordered, ordered_all};
use crate::hive_read::{bins_of, cell_payload, holds_key, holds_value, root_of};
use crate::hive_store::store_file;
use crate::text::lower;
use vstd::prelude::*;
use vstd::string::*;
use vstd::utf8::encode_utf8;

verus! {

// ---- reading a store ---------------------------------------------------------------

/// The cell of the subkey that stands at place `i` in the list of the key at
/// `idx`.
pub open spec fn subkey_cell(bins: Seq<u8>, idx: int, i: int) -> int {
    get32(cell_payload(bins, get32(cell_payload(bins, idx), 28)), 4 + 8 * i)
}

/// The cell of the value that stands at place `i` in the list of the key at
/// `idx`.
pub open spec fn value_cell(bins: Seq<u8>, idx: int, i: int) -> int {
    get32(cell_payload(bins, get32(cell_payload(bins, idx), 40)), 4 * i)
}

/// The name of the key at `idx`.
pub open spec fn key_name(bins: Seq<u8>, idx: int) -> Seq<u8> {
    let rec = cell_payload(bins, idx);
    rec.subrange(76, 76 + get16(rec, 72))
}

/// Whether the key at `idx` lists a subkey `name` at `sub`.
pub open spec fn opens(bins: Seq<u8>, idx: int, name: Seq<char>, sub: int) -> bool {
    exists|i: int|
        0 <= i < get32(cell_payload(bins, idx), 20) && #[trigger] subkey_cell(bins, idx, i) == sub
            && key_name(bins, sub) == encode_utf8(name)
}

/// Whether the value record at `cell` has this name, type, and bytes.
pub open spec fn value_is(
    bins: Seq<u8>,
    cell: int,
    name: Seq<char>,
    kind: int,
    data: Seq<u8>,
) -> bool {
    let rec = cell_payload(bins, cell);
    &&& rec.subrange(20, 20 + get16(rec, 2)) == encode_utf8(name)
    &&& get32(rec, 12) == kind
    &&& get32(rec, 4) == data.len()
    &&& cell_payload(bins, get32(rec, 8)).take(data.len() as int) == data
}

/// Whether the value record at `cell` has this name and holds the number `v`
/// itself.
pub open spec fn number_is(bins: Seq<u8>, cell: int, name: Seq<char>, v: int) -> bool {
    let rec = cell_payload(bins, cell);
    &&& rec.subrange(20, 20 + get16(rec, 2)) == encode_utf8(name)
    &&& get32(rec, 12) == 4
    &&& get32(rec, 4) == 0x8000_0004
    &&& get32(rec, 8) == v
}

/// Whether the key at `idx` has this value.
pub open spec fn reads(
    bins: Seq<u8>,
    idx: int,
    name: Seq<char>,
    kind: int,
    data: Seq<u8>,
) -> bool {
    exists|i: int|
        0 <= i < get32(cell_payload(bins, idx), 36) && value_is(
            bins,
            #[trigger] value_cell(bins, idx, i),
            name,
            kind,
            data,
        )
}

/// Whether the key at `idx` has this number.
pub open spec fn reads_number(bins: Seq<u8>, idx: int, name: Seq<char>, v: int) -> bool {
    exists|i: int|
        0 <= i < get32(cell_payload(bins, idx), 36) && number_is(
            bins,
            #[trigger] value_cell(bins, idx, i),
            name,
            v,
        )
}

/// Whether the key at `sub` is `\objects\{guid}\<part>`.
pub open spec fn in_object(file: Seq<u8>, guid: Seq<char>, part: Seq<char>, sub: int) -> bool {
    let bins = bins_of(file);
    exists|a: int, b: int|
        opens(bins, root_of(file), "objects"@, a) && #[trigger] opens(bins, a, guid, b)
            && #[trigger] opens(bins, b, part, sub)
}

/// Whether the element `id` of an object has this type and these bytes.
pub open spec fn element_is(
    file: Seq<u8>,
    guid: Seq<char>,
    id: Seq<char>,
    kind: int,
    data: Seq<u8>,
) -> bool {
    exists|c: int, d: int|
        in_object(file, guid, "elements"@, c) && #[trigger] opens(bins_of(file), c, id, d)
            && reads(bins_of(file), d, "Element"@, kind, data)
}

/// Whether the element `id` of an object is this text.
pub open spec fn text_is(file: Seq<u8>, guid: Seq<char>, id: Seq<char>, text: Seq<char>) -> bool {
    element_is(file, guid, id, 1, utf16_nul_bytes(text))
}

/// Whether an object is of this type and has this many elements.
pub open spec fn object_is(file: Seq<u8>, guid: Seq<char>, kind: int, elements: int) -> bool {
    &&& exists|c: int|
        #[trigger] in_object(file, guid, "description"@, c) && reads_number(
            bins_of(file),
            c,
            "Type"@,
            kind,
        )
    &&& exists|c: int|
        #[trigger] in_object(file, guid, "elements"@, c) && get32(
            cell_payload(bins_of(file), c),
            20,
        ) == elements
}

/// Whether a store says of itself that it is one, with two objects.
pub open spec fn store_is(file: Seq<u8>) -> bool {
    let bins = bins_of(file);
    &&& key_name(bins, root_of(file)) == encode_utf8("NewStoreRoot"@)
    &&& exists|c: int|
        #[trigger] opens(bins, root_of(file), "description"@, c) && reads(
            bins,
            c,
            "KeyName"@,
            1,
            utf16_nul_bytes("BCD00000000"@),
        ) && reads_number(bins, c, "FirmwareModified"@, 1)
    &&& exists|c: int|
        #[trigger] opens(bins, root_of(file), "objects"@, c) && get32(cell_payload(bins, c), 20)
            == 2
}

// ---- from the tree to a reader ------------------------------------------------------

/// Whether the cell at `idx` holds `key`, its subkeys ordered.
#[verifier::opaque]
spec fn shown(bins: Seq<u8>, sk: int, idx: int, key: KeyModel, root: bool) -> bool {
    holds_key(bins, sk, idx, ordered(key), root)
}

/// Where ordering puts a subkey.
proof fn lemma_place(children: Seq<KeyModel>, i: int) -> (j: int)
    requires
        0 <= i < children.len(),
    ensures
        0 <= j < ordered_all(children).len(),
        ordered_all(children)[j] == ordered(children[i]),
    decreases children.len(),
{
    let front = children.drop_last();
    let done = ordered_all(front);
    let last = ordered(children.last());
    let p = child_slot(done, last.name);
    lemma_slot_bounds(done, last.name);
    if i == front.len() {
        p
    } else {
        let j = lemma_place(front, i);
        assert(front[i] == children[i]);
        if j < p {
            j
        } else {
            assert(ordered_all(children)[j + 1] == done[j]);
            j + 1
        }
    }
}

/// A reader finds every subkey.
proof fn lemma_opens(bins: Seq<u8>, sk: int, idx: int, key: KeyModel, root: bool, i: int) -> (sub:
    int)
    requires
        shown(bins, sk, idx, key, root),
        0 <= i < key.children.len(),
    ensures
        opens(bins, idx, key.children[i].name, sub),
        shown(bins, sk, sub, key.children[i], false),
        get32(cell_payload(bins, idx), 20) == key.children.len(),
{
    reveal(shown);
    let j = lemma_place(key.children, i);
    lemma_ordered_all(key.children);
    let kids = ordered(key).children;
    assert(kids[j] == ordered(key.children[i]));
    let sub = subkey_cell(bins, idx, j);
    assert(holds_key(bins, sk, sub, kids[j], false));
    assert(key_name(bins, sub) == encode_utf8(key.children[i].name));
    sub
}

proof fn lemma_count(bins: Seq<u8>, sk: int, idx: int, key: KeyModel, root: bool)
    requires
        shown(bins, sk, idx, key, root),
    ensures
        get32(cell_payload(bins, idx), 20) == key.children.len(),
        key_name(bins, idx) == encode_utf8(key.name),
{
    reveal(shown);
    lemma_ordered_all(key.children);
}

/// A reader finds every value.
proof fn lemma_reads(bins: Seq<u8>, sk: int, idx: int, key: KeyModel, root: bool, i: int)
    requires
        shown(bins, sk, idx, key, root),
        0 <= i < key.values.len(),
    ensures
        !(key.values[i].1 is Dword) ==> reads(
            bins,
            idx,
            key.values[i].0,
            key.values[i].1.kind(),
            key.values[i].1.data(),
        ),
        key.values[i].1 matches ValModel::Dword(v) ==> reads_number(bins, idx, key.values[i].0, v),
{
    reveal(shown);
    let k = ordered(key);
    assert(k.values[i] == key.values[i]);
    let cell = value_cell(bins, idx, i);
    assert(holds_value(bins, cell, k.values[i].0, k.values[i].1));
    match key.values[i].1 {
        ValModel::Dword(v) => {
            assert(number_is(bins, cell, key.values[i].0, v));
        },
        _ => {
            assert(value_is(
                bins,
                cell,
                key.values[i].0,
                key.values[i].1.kind(),
                key.values[i].1.data(),
            ));
        },
    }
}

/// An object `o` of a tree is found, with its type and its elements.
proof fn lemma_object_found(file: Seq<u8>, sk: int, tree: KeyModel, o: int) -> (c: int)
    requires
        shown(bins_of(file), sk, root_of(file), tree, true),
        tree.children.len() == 2,
        tree.children[1].name == "objects"@,
        0 <= o < tree.children[1].children.len(),
        ({
            let obj = tree.children[1].children[o];
            &&& obj.children.len() == 2
            &&& obj.children[0].name == "description"@
            &&& obj.children[0].values.len() == 1
            &&& obj.children[0].values[0].0 == "Type"@
            &&& obj.children[0].values[0].1 is Dword
            &&& obj.children[1].name == "elements"@
        }),
    ensures
        ({
            let obj = tree.children[1].children[o];
            &&& in_object(file, obj.name, "elements"@, c)
            &&& shown(bins_of(file), sk, c, obj.children[1], false)
            &&& object_is(
                file,
                obj.name,
                obj.children[0].values[0].1->Dword_0,
                obj.children[1].children.len() as int,
            )
        }),
{
    let bins = bins_of(file);
    let objects = tree.children[1];
    let obj = objects.children[o];
    let a = lemma_opens(bins, sk, root_of(file), tree, true, 1);
    let b = lemma_opens(bins, sk, a, objects, false, o);
    let t = lemma_opens(bins, sk, b, obj, false, 0);
    lemma_reads(bins, sk, t, obj.children[0], false, 0);
    assert(in_object(file, obj.name, "description"@, t));
    let c = lemma_opens(bins, sk, b, obj, false, 1);
    assert(in_object(file, obj.name, "elements"@, c));
    lemma_count(bins, sk, c, obj.children[1], false);
    c
}

/// An element of an object is found.
proof fn lemma_element_found(
    file: Seq<u8>,
    sk: int,
    guid: Seq<char>,
    c: int,
    elements: KeyModel,
    e: int,
    id: Seq<char>,
    val: ValModel,
)
    requires
        in_object(file, guid, "elements"@, c),
        shown(bins_of(file), sk, c, elements, false),
        0 <= e < elements.children.len(),
        elements.children[e] == element(id, val),
        !(val is Dword),
    ensures
        element_is(file, guid, id, val.kind(), val.data()),
{
    let d = lemma_opens(bins_of(file), sk, c, elements, false, e);
    lemma_reads(bins_of(file), sk, d, elements.children[e], false, 0);
    assert(opens(bins_of(file), c, id, d));
}

proof fn lemma_store_is(file: Seq<u8>, sk: int, tree: KeyModel)
    requires
        shown(bins_of(file), sk, root_of(file), tree, true),
        tree.name == "NewStoreRoot"@,
        tree.children.len() == 2,
        tree.children[0].name == "description"@,
        tree.children[0].values == seq![
            ("KeyName"@, ValModel::Sz("BCD00000000"@)),
            ("FirmwareModified"@, ValModel::Dword(1)),
        ],
        tree.children[1].name == "objects"@,
        tree.children[1].children.len() == 2,
    ensures
        store_is(file),
{
    let bins = bins_of(file);
    let t = lemma_opens(bins, sk, root_of(file), tree, true, 0);
    lemma_reads(bins, sk, t, tree.children[0], false, 0);
    lemma_reads(bins, sk, t, tree.children[0], false, 1);
    let a = lemma_opens(bins, sk, root_of(file), tree, true, 1);
    lemma_count(bins, sk, a, tree.children[1], false);
    lemma_count(bins, sk, root_of(file), tree, true);
}

// ---- device elements ---------------------------------------------------------------

/// Whether a device element names this partition: 88 bytes of type 6, whose
/// 72 bytes behind the first 16 hold the GUID of the partition and the GUID of
/// its disk and nothing else.
pub open spec fn names_partition(d: Seq<u8>, part: PartitionRef) -> bool {
    &&& d.len() == 88
    &&& get32(d, 16) == 6
    &&& get32(d, 24) == 72
    &&& d.subrange(32, 48) == part.partition_guid@
    &&& d.subrange(56, 72) == part.disk_guid@
    &&& forall|i: int|
        0 <= i < 88 && !(16 <= i < 20) && !(24 <= i < 28) && !(32 <= i < 48) && !(56 <= i < 72)
            ==> #[trigger] d[i] == 0
}

/// The device element for a partition names it.
#[verifier::rlimit(40)]
pub proof fn law_partition_device(part: PartitionRef)
    ensures
        names_partition(gpt_blob(part), part),
{
    broadcast use group_le_len;
    let d = gpt_blob(part);
    lemma_le32_round_trip(6);
    lemma_le32_round_trip(72);
    assert(le32(0) =~= seq![0u8, 0, 0, 0]) by {
        reveal(le32);
    }
    assert(get32(d, 16) == get32(le32(6), 0));
    assert(get32(d, 24) == get32(le32(72), 0));
    assert(d.subrange(32, 48) =~= part.partition_guid@);
    assert(d.subrange(56, 72) =~= part.disk_guid@);
}

/// The device element for the volume that was booted from: 88 bytes of type 5,
/// which name no partition.
pub proof fn law_boot_device()
    ensures
        ({
            let d = boot_blob();
            &&& d.len() == 88
            &&& get32(d, 16) == 5
            &&& get32(d, 24) == 72
            &&& forall|i: int|
                0 <= i < 88 && !(16 <= i < 20) && !(24 <= i < 28) ==> #[trigger] d[i] == 0
        }),
{
    broadcast use group_le_len;
    let d = boot_blob();
    lemma_le32_round_trip(5);
    lemma_le32_round_trip(72);
    assert(get32(d, 16) == get32(le32(5), 0));
    assert(get32(d, 24) == get32(le32(72), 0));
}

/// Whether a device element names the file `path` on this partition: type 8,
/// with the lengths of its nested parts, the two GUIDs and the path.
pub open spec fn names_file(d: Seq<u8>, path: Seq<char>, part: PartitionRef, locate: int) -> bool {
    let n = path.len();
    &&& get64(d, 0x10) == 8
    &&& get64(d, 0x18) == 176 + 2 * n
    &&& get32(d, 0x24) == locate
    &&& get64(d, 0x28) == 30
    &&& get16(d, 0x36) == 146 + 2 * n
    &&& get16(d, 0x3E) == 6
    &&& get16(d, 0x4E) == 106 + 2 * n
    &&& get16(d, 0x66) == 5
    &&& get16(d, 0x6A) == 1
    &&& get16(d, 0x6E) == 86 + 2 * n
    &&& get16(d, 0x72) == 5
    &&& get16(d, 0x74) == 6
    &&& get16(d, 0x7E) == 72
    &&& d.subrange(0x86, 0x96) == part.disk_guid@
    &&& d.subrange(0x9E, 0xAE) == part.partition_guid@
    &&& d.skip(0xBE) == utf16_nul_bytes(path)
}

/// The device element for a file names it, for the loader and for the system
/// that it loads.
pub proof fn law_file_device(path: Seq<char>, part: PartitionRef)
    requires
        path.len() <= 32694,
    ensures
        names_file(
            vhd_blob(path, part.disk_guid@, part.partition_guid@, false),
            path,
            part,
            0x1200_0002,
        ),
        names_file(
            vhd_blob(path, part.disk_guid@, part.partition_guid@, true),
            path,
            part,
            0x2200_0002,
        ),
{
    lemma_file_device(path, part, false);
    lemma_file_device(path, part, true);
}

#[verifier::rlimit(40)]
proof fn lemma_file_device(path: Seq<char>, part: PartitionRef, os: bool)
    requires
        path.len() <= 32694,
    ensures
        names_file(
            vhd_blob(path, part.disk_guid@, part.partition_guid@, os),
            path,
            part,
            if os {
                0x2200_0002
            } else {
                0x1200_0002
            },
        ),
{
    broadcast use group_le_len;
    let n = path.len() as int;
    let d = vhd_blob(path, part.disk_guid@, part.partition_guid@, os);
    let locate = if os {
        0x2200_0002
    } else {
        0x1200_0002int
    };
    lemma_le64_round_trip(8);
    lemma_le64_round_trip(176 + 2 * n);
    lemma_le32_round_trip(locate);
    lemma_le64_round_trip(30);
    lemma_le16_round_trip(146 + 2 * n);
    lemma_le16_round_trip(6);
    lemma_le16_round_trip(106 + 2 * n);
    lemma_le16_round_trip(5);
    lemma_le16_round_trip(1);
    lemma_le16_round_trip(86 + 2 * n);
    lemma_le16_round_trip(72);
    assert(get64(d, 0x10) == get64(le64(8), 0));
    assert(get64(d, 0x18) == get64(le64(176 + 2 * n), 0));
    assert(get32(d, 0x24) == get32(le32(locate), 0));
    assert(get64(d, 0x28) == get64(le64(30), 0));
    assert(get16(d, 0x36) == get16(le16(146 + 2 * n), 0));
    assert(get16(d, 0x3E) == get16(le16(6), 0));
    assert(get16(d, 0x4E) == get16(le16(106 + 2 * n), 0));
    assert(get16(d, 0x66) == get16(le16(5), 0));
    assert(get16(d, 0x6A) == get16(le16(1), 0));
    assert(get16(d, 0x6E) == get16(le16(86 + 2 * n), 0));
    assert(get16(d, 0x72) == get16(le16(5), 0));
    assert(get16(d, 0x74) == get16(le16(6), 0));
    assert(get16(d, 0x7E) == get16(le16(72), 0));
    assert(d.subrange(0x86, 0x96) =~= part.disk_guid@);
    assert(d.subrange(0x9E, 0xAE) =~= part.partition_guid@);
    assert(d.skip(0xBE) =~= utf16_nul_bytes(path));
}

// ---- what a store says ---------------------------------------------------------------

/// Whether the element `id` of an object is a device that names `part`.
pub open spec fn on_partition(
    file: Seq<u8>,
    guid: Seq<char>,
    id: Seq<char>,
    part: PartitionRef,
) -> bool {
    exists|d: Seq<u8>| #[trigger] element_is(file, guid, id, 3, d) && names_partition(d, part)
}

/// Whether the element `id` of an object is a device that names a file.
pub open spec fn on_file(
    file: Seq<u8>,
    guid: Seq<char>,
    id: Seq<char>,
    path: Seq<char>,
    part: PartitionRef,
    locate: int,
) -> bool {
    exists|d: Seq<u8>| #[trigger]
        element_is(file, guid, id, 3, d) && names_file(d, path, part, locate)
}

/// Whether the boot manager of a store is on `esp`, shows the one entry and
/// waits `timeout` seconds.
pub open spec fn manager_says(
    file: Seq<u8>,
    entry: Seq<char>,
    esp: PartitionRef,
    timeout: int,
) -> bool {
    let manager = "{9dea862c-5cdd-4e70-acc1-f32b344d4795}"@;
    &&& object_is(file, manager, 0x1010_0002, 4)
    &&& on_partition(file, manager, "11000001"@, esp)
    &&& text_is(file, manager, "12000004"@, "Windows Boot Manager"@)
    &&& element_is(
        file,
        manager,
        "24000001"@,
        7,
        utf16_nul_bytes(lower(entry)) + seq![0u8, 0u8],
    )
    &&& exists|d: Seq<u8>| #[trigger]
        element_is(file, manager, "25000004"@, 3, d) && d.len() == 8 && get64(d, 0) == timeout
}

/// Whether the OS loader of a store starts Windows under this title.
pub open spec fn loader_says(file: Seq<u8>, entry: Seq<char>, title: Seq<char>) -> bool {
    let loader = lower(entry);
    &&& object_is(file, loader, 0x1020_0003, 5)
    &&& text_is(file, loader, "12000002"@, "\\Windows\\system32\\winload.efi"@)
    &&& text_is(file, loader, "12000004"@, title)
    &&& text_is(file, loader, "22000002"@, "\\Windows"@)
}

#[verifier::rlimit(40)]
proof fn lemma_manager(
    file: Seq<u8>,
    sk: int,
    tree: KeyModel,
    loader: KeyModel,
    entry: Seq<char>,
    esp: PartitionRef,
    timeout: int,
)
    requires
        shown(bins_of(file), sk, root_of(file), tree, true),
        tree == store_root(boot_manager(entry, gpt_blob(esp), timeout), loader),
        0 <= timeout < 0x1_0000_0000,
    ensures
        store_is(file),
        manager_says(file, entry, esp, timeout),
{
    broadcast use group_le_len;
    let m = tree.children[1].children[0];
    let manager = "{9dea862c-5cdd-4e70-acc1-f32b344d4795}"@;
    assert(m.name == manager);
    lemma_store_is(file, sk, tree);
    let c = lemma_object_found(file, sk, tree, 0);
    let e = m.children[1];
    let order = ValModel::MultiSz(seq![lower(entry)]);
    lemma_element_found(file, sk, manager, c, e, 0, "11000001"@, ValModel::Binary(gpt_blob(esp)));
    law_partition_device(esp);
    lemma_element_found(
        file,
        sk,
        manager,
        c,
        e,
        1,
        "12000004"@,
        ValModel::Sz("Windows Boot Manager"@),
    );
    lemma_element_found(file, sk, manager, c, e, 2, "24000001"@, order);
    assert(order.data() =~= utf16_nul_bytes(lower(entry)) + seq![0u8, 0u8]) by {
        reveal_with_fuel(multi_sz_items, 2);
        assert(seq![lower(entry)].drop_last() =~= seq![]);
        assert(multi_sz_items(seq![lower(entry)]) =~= utf16_nul_bytes(lower(entry)));
    }
    lemma_element_found(file, sk, manager, c, e, 3, "25000004"@, ValModel::Binary(le64(timeout)));
    lemma_le64_round_trip(timeout);
}

#[verifier::rlimit(40)]
proof fn lemma_loader(
    file: Seq<u8>,
    sk: int,
    tree: KeyModel,
    manager: KeyModel,
    entry: Seq<char>,
    title: Seq<char>,
    device: Seq<u8>,
    osdevice: Seq<u8>,
)
    requires
        shown(bins_of(file), sk, root_of(file), tree, true),
        tree == store_root(manager, os_loader(entry, title, device, osdevice)),
    ensures
        loader_says(file, entry, title),
        element_is(file, lower(entry), "11000001"@, 3, device),
        element_is(file, lower(entry), "21000001"@, 3, osdevice),
{
    let m = tree.children[1].children[1];
    let loader = lower(entry);
    assert(m.name == loader);
    let c = lemma_object_found(file, sk, tree, 1);
    let e = m.children[1];
    lemma_element_found(file, sk, loader, c, e, 0, "11000001"@, ValModel::Binary(device));
    lemma_element_found(
        file,
        sk,
        loader,
        c,
        e,
        1,
        "12000002"@,
        ValModel::Sz("\\Windows\\system32\\winload.efi"@),
    );
    lemma_element_found(file, sk, loader, c, e, 2, "12000004"@, ValModel::Sz(title));
    lemma_element_found(file, sk, loader, c, e, 3, "21000001"@, ValModel::Binary(osdevice));
    lemma_element_found(file, sk, loader, c, e, 4, "22000002"@, ValModel::Sz("\\Windows"@));
}

/// The store for an applied Windows: its boot manager is on the EFI system
/// partition, and its OS loader names the Windows partition both as the place
/// of the loader and as the place of the system.
pub proof fn law_store_boots_windows(
    entry: Seq<char>,
    description: Seq<char>,
    esp: PartitionRef,
    win: PartitionRef,
    timeout: int,
    filetime: int,
)
    requires
        valid_guid(entry),
        utf16(description).len() <= 2029,
        0 <= timeout < 0x1_0000_0000,
    ensures
        ({
            let file = store_file(bcd_tree(entry, description, esp, win, timeout), filetime);
            &&& store_is(file)
            &&& manager_says(file, entry, esp, timeout)
            &&& loader_says(file, entry, description)
            &&& on_partition(file, lower(entry), "11000001"@, win)
            &&& on_partition(file, lower(entry), "21000001"@, win)
        }),
{
    let tree = bcd_tree(entry, description, esp, win, timeout);
    let file = store_file(tree, filetime);
    let sk = crate::hive_read::security_of(file);
    law_bcd_reads_back(entry, description, esp, win, timeout, filetime);
    let manager = boot_manager(entry, gpt_blob(esp), timeout);
    let loader = os_loader(entry, description, gpt_blob(win), gpt_blob(win));
    assert(shown(bins_of(file), sk, root_of(file), tree, true)) by {
        reveal(shown);
    }
    lemma_manager(file, sk, tree, loader, entry, esp, timeout);
    lemma_loader(file, sk, tree, manager, entry, description, gpt_blob(win), gpt_blob(win));
    law_partition_device(win);
}

/// The store for Windows on a virtual disk: its boot manager is on the EFI
/// system partition, and its OS loader names the file on the Windows partition
/// both as the place of the loader and as the place of the system.
pub proof fn law_store_boots_virtual_disk(
    entry: Seq<char>,
    description: Seq<char>,
    esp: PartitionRef,
    win: PartitionRef,
    path: Seq<char>,
    timeout: int,
    filetime: int,
)
    requires
        valid_guid(entry),
        utf16(description).len() <= 2029,
        utf16(path).len() <= 1934,
        0 <= timeout < 0x1_0000_0000,
    ensures
        ({
            let file = store_file(
                vhdx_tree(entry, description, esp, win, path, timeout),
                filetime,
            );
            &&& store_is(file)
            &&& manager_says(file, entry, esp, timeout)
            &&& loader_says(file, entry, description)
            &&& on_file(file, lower(entry), "11000001"@, path, win, 0x1200_0002)
            &&& on_file(file, lower(entry), "21000001"@, path, win, 0x2200_0002)
        }),
{
    let tree = vhdx_tree(entry, description, esp, win, path, timeout);
    let file = store_file(tree, filetime);
    let sk = crate::hive_read::security_of(file);
    let d = vhd_blob(path, win.disk_guid@, win.partition_guid@, false);
    let o = vhd_blob(path, win.disk_guid@, win.partition_guid@, true);
    law_bcd_vhdx_reads_back(entry, description, esp, win, path, timeout, filetime);
    crate::bytes::lemma_utf16_len(path);
    let manager = boot_manager(entry, gpt_blob(esp), timeout);
    assert(shown(bins_of(file), sk, root_of(file), tree, true)) by {
        reveal(shown);
    }
    lemma_manager(file, sk, tree, os_loader(entry, description, d, o), entry, esp, timeout);
    lemma_loader(file, sk, tree, manager, entry, description, d, o);
    law_file_device(path, win);
}

} // verus!
