//! Boot Configuration Data stores for UEFI boot of Windows.
//!
//! A BCD store is a registry hive that holds boot objects under
//! `\Objects\{guid}\Elements\<element-id>`. The stores made here hold the boot
//! manager and one OS loader entry.

use crate::bytes::{
    group_le_len, le16, le32, le64, lemma_units_le_len, lemma_utf16_len, push_bytes, push_u16,
    push_u32, push_u64, push_utf16, push_zeros, utf16, utf16_nul_bytes, zeros,
};
use crate::hive::max_payload;
use crate::hive_key::{
    key_cells, key_fits, key_views, keys_cells, lemma_key_views,
    multi_sz_items, value_fits, Key, KeyModel, Val, ValModel,
};
use crate::hive_store::{store_file, write_store};
use crate::text::{lower, to_chars, to_lower};
use vstd::prelude::*;
use vstd::string::*;
use vstd::utf8::{encode_utf8, is_ascii_chars, is_ascii_chars_encode_utf8};

verus! {

/// GUID of the well-known Windows Boot Manager object.
pub const BOOTMGR_GUID: &'static str = "{9dea862c-5cdd-4e70-acc1-f32b344d4795}";

/// Seconds from 1601, where file times start, to 1970.
const EPOCH_DIFF_SECS: u64 = 11_644_473_600;

#[derive(Debug)]
pub enum BcdError {
    /// Entry GUID is not `{xxxxxxxx-xxxx-xxxx-xxxx-xxxxxxxxxxxx}`.
    BadGuid(String),
}

impl BcdError {
    /// The error in words.
    pub fn message(&self) -> (m: String)
        ensures
            match self {
                BcdError::BadGuid(g) => m@ == "invalid BCD entry GUID: "@ + g@,
            },
    {
        match self {
            BcdError::BadGuid(g) => "invalid BCD entry GUID: ".to_owned().concat(g.as_str()),
        }
    }
}

/// Identifies a partition the way the boot manager resolves it: by GPT
/// partition GUID and disk GUID, both as the 16 bytes that stand in the GPT.
#[derive(Debug, Clone, Copy, PartialEq, Eq)]
pub struct PartitionRef {
    pub partition_guid: [u8; 16],
    pub disk_guid: [u8; 16],
}

impl Default for PartitionRef {
    fn default() -> (r: PartitionRef)
        ensures
            r.partition_guid@ == zeros(16),
            r.disk_guid@ == zeros(16),
    {
        let r = PartitionRef { partition_guid: [0u8; 16], disk_guid: [0u8; 16] };
        assert(r.partition_guid@ =~= zeros(16));
        assert(r.disk_guid@ =~= zeros(16));
        r
    }
}

// ---- device elements ----------------------------------------------------

/// A GPT partition as a device element: no options, type 6, 72 bytes of
/// options of which the two GUIDs are set.
pub open spec fn gpt_blob(part: PartitionRef) -> Seq<u8> {
    zeros(16) + le32(6) + le32(0) + le32(72) + le32(0) + part.partition_guid@ + zeros(8)
        + part.disk_guid@ + zeros(16)
}

/// Device element for a GPT partition (88 bytes).
pub fn gpt_partition_device(part: &PartitionRef) -> (b: Vec<u8>)
    ensures
        b@ == gpt_blob(*part),
        b@.len() == 88,
{
    broadcast use group_le_len;
    let mut b: Vec<u8> = Vec::new();
    push_zeros(&mut b, 16);
    push_u32(&mut b, 6);
    push_u32(&mut b, 0);
    push_u32(&mut b, 72);
    push_u32(&mut b, 0);
    push_bytes(&mut b, part.partition_guid.as_slice());
    push_zeros(&mut b, 8);
    push_bytes(&mut b, part.disk_guid.as_slice());
    push_zeros(&mut b, 16);
    assert(b@ =~= gpt_blob(*part));
    b
}

/// A file on a GPT partition as a VHD device element (type 8). The length
/// fields count the characters of the path.
pub open spec fn vhd_blob(
    path: Seq<char>,
    disk_guid: Seq<u8>,
    part_guid: Seq<u8>,
    for_osdevice: bool,
) -> Seq<u8> {
    let n = path.len() as int;
    zeros(16) + le64(8) + le64(190 + 2 * (n + 1) - 16) + le32(0) + le32(
        if for_osdevice {
            0x2200_0002
        } else {
            0x1200_0002
        },
    ) + le64(30) + zeros(6) + le16(146 + 2 * n) + zeros(6) + le16(6) + zeros(14) + le16(106 + 2 * n)
        + zeros(22) + le16(5) + le16(0) + le16(1) + le16(0) + le16(86 + 2 * n) + le16(0) + le16(5)
        + le16(6) + zeros(8) + le16(72) + zeros(6) + disk_guid + zeros(8) + part_guid + zeros(16)
        + utf16_nul_bytes(path)
}

/// Device element for a virtual disk file on a partition. `path` starts with
/// a backslash, such as `\windows.vhdx`.
pub fn vhd_device(
    path: &str,
    disk_guid: &[u8; 16],
    part_guid: &[u8; 16],
    for_osdevice: bool,
) -> (b: Vec<u8>)
    requires
        path@.len() <= 32694,
    ensures
        b@ == vhd_blob(path@, disk_guid@, part_guid@, for_osdevice),
{
    broadcast use group_le_len;
    let n: u16 = path.unicode_len() as u16;
    let locate_id: u32 = if for_osdevice { 0x2200_0002 } else { 0x1200_0002 };
    let blob_len: u64 = 190 + 2 * (n as u64 + 1);
    let mut b: Vec<u8> = Vec::new();
    push_zeros(&mut b, 16);
    push_u64(&mut b, 8);
    push_u64(&mut b, blob_len - 16);
    push_u32(&mut b, 0);
    push_u32(&mut b, locate_id);
    push_u64(&mut b, 30);
    push_zeros(&mut b, 6);
    push_u16(&mut b, 146 + 2 * n);
    push_zeros(&mut b, 6);
    push_u16(&mut b, 6);
    push_zeros(&mut b, 14);
    push_u16(&mut b, 106 + 2 * n);
    push_zeros(&mut b, 22);
    push_u16(&mut b, 5);
    push_u16(&mut b, 0);
    push_u16(&mut b, 1);
    push_u16(&mut b, 0);
    push_u16(&mut b, 86 + 2 * n);
    push_u16(&mut b, 0);
    push_u16(&mut b, 5);
    push_u16(&mut b, 6);
    push_zeros(&mut b, 8);
    push_u16(&mut b, 72);
    push_zeros(&mut b, 6);
    push_bytes(&mut b, disk_guid.as_slice());
    push_zeros(&mut b, 8);
    push_bytes(&mut b, part_guid.as_slice());
    push_zeros(&mut b, 16);
    push_utf16(&mut b, path);
    b.push(0);
    b.push(0);
    assert(b@ =~= vhd_blob(path@, disk_guid@, part_guid@, for_osdevice));
    b
}

/// "The volume that was booted from" as a device element (type 5).
pub open spec fn boot_blob() -> Seq<u8> {
    zeros(16) + le32(5) + zeros(4) + le32(72) + zeros(60)
}

/// Device element for the volume that was booted from; used by Windows
/// install media.
pub fn boot_device() -> (b: Vec<u8>)
    ensures
        b@ == boot_blob(),
        b@.len() == 88,
{
    broadcast use group_le_len;
    let mut b: Vec<u8> = Vec::new();
    push_zeros(&mut b, 16);
    push_u32(&mut b, 5);
    push_zeros(&mut b, 4);
    push_u32(&mut b, 72);
    push_zeros(&mut b, 60);
    assert(b@ =~= boot_blob());
    b
}

/// The code units of a path that needs one for each character.
pub open spec fn one_unit_each(path: Seq<char>) -> bool {
    forall|i: int| 0 <= i < path.len() ==> (#[trigger] path[i]) as int <= 0xFFFF
}

proof fn lemma_one_unit_each(path: Seq<char>)
    requires
        one_unit_each(path),
    ensures
        utf16(path).len() == path.len(),
    decreases path.len(),
{
    if path.len() > 0 {
        assert(path.last() == path[path.len() - 1]);
        assert forall|i: int| 0 <= i < path.drop_last().len() implies (
        #[trigger] path.drop_last()[i]) as int <= 0xFFFF by {
            assert(path.drop_last()[i] == path[i]);
        }
        lemma_one_unit_each(path.drop_last());
    }
}

/// The layout of a VHD device element: its length, where its GUIDs and its
/// path stand, and that its length field covers what follows the first 16
/// bytes.
pub proof fn law_vhd_layout(
    path: Seq<char>,
    disk_guid: Seq<u8>,
    part_guid: Seq<u8>,
    for_osdevice: bool,
)
    requires
        disk_guid.len() == 16,
        part_guid.len() == 16,
        one_unit_each(path),
    ensures
        ({
            let b = vhd_blob(path, disk_guid, part_guid, for_osdevice);
            &&& b.len() == 190 + 2 * (path.len() + 1)
            &&& b.subrange(0x18, 0x20) == le64(b.len() - 16)
            &&& b.subrange(0x86, 0x96) == disk_guid
            &&& b.subrange(0x9E, 0xAE) == part_guid
            &&& b.skip(0xBE) == utf16_nul_bytes(path)
        }),
{
    broadcast use group_le_len;
    lemma_one_unit_each(path);
    lemma_units_le_len(utf16(path));
    let b = vhd_blob(path, disk_guid, part_guid, for_osdevice);
    assert(b.subrange(0x18, 0x20) =~= le64(b.len() - 16));
    assert(b.subrange(0x86, 0x96) =~= disk_guid);
    assert(b.subrange(0x9E, 0xAE) =~= part_guid);
    assert(b.skip(0xBE) =~= utf16_nul_bytes(path));
}

/// The elements for `device` and `osdevice` differ in the locate id at 0x24
/// and nowhere else.
pub proof fn law_vhd_osdevice(path: Seq<char>, disk_guid: Seq<u8>, part_guid: Seq<u8>)
    ensures
        ({
            let d = vhd_blob(path, disk_guid, part_guid, false);
            let o = vhd_blob(path, disk_guid, part_guid, true);
            &&& d.len() == o.len()
            &&& d.subrange(0x24, 0x28) == le32(0x1200_0002)
            &&& o.subrange(0x24, 0x28) == le32(0x2200_0002)
            &&& forall|i: int|
                0 <= i < d.len() && !(0x24 <= i < 0x28) ==> #[trigger] d[i] == o[i]
        }),
{
    broadcast use group_le_len;
    let d = vhd_blob(path, disk_guid, part_guid, false);
    let o = vhd_blob(path, disk_guid, part_guid, true);
    assert(d.subrange(0x24, 0x28) =~= le32(0x1200_0002));
    assert(o.subrange(0x24, 0x28) =~= le32(0x2200_0002));
}

// ---- entry GUIDs ---------------------------------------------------------

pub open spec fn is_hex(c: char) -> bool {
    ('0' <= c <= '9') || ('a' <= c <= 'f') || ('A' <= c <= 'F')
}

/// `{xxxxxxxx-xxxx-xxxx-xxxx-xxxxxxxxxxxx}` with hexadecimal digits.
pub open spec fn valid_guid(s: Seq<char>) -> bool {
    &&& s.len() == 38
    &&& s[0] == '{'
    &&& s[37] == '}'
    &&& forall|i: int|
        1 <= i < 37 ==> if i == 9 || i == 14 || i == 19 || i == 24 {
            #[trigger] s[i] == '-'
        } else {
            is_hex(s[i])
        }
}

/// Accepts `{xxxxxxxx-xxxx-xxxx-xxxx-xxxxxxxxxxxx}`.
pub fn validate_guid_str(s: &str) -> (r: Result<(), BcdError>)
    ensures
        match r {
            Ok(_) => valid_guid(s@),
            Err(BcdError::BadGuid(g)) => !valid_guid(s@) && g@ == s@,
        },
{
    let c: Vec<char> = to_chars(s);
    let mut ok: bool = c.len() == 38 && c[0] == '{' && c[37] == '}';
    if ok {
        let mut i: usize = 1;
        while i < 37
            invariant
                1 <= i <= 37,
                c@ == s@,
                c@.len() == 38,
                ok == forall|j: int|
                    1 <= j < i ==> if j == 9 || j == 14 || j == 19 || j == 24 {
                        #[trigger] s@[j] == '-'
                    } else {
                        is_hex(s@[j])
                    },
            decreases 37 - i,
        {
            let x: char = c[i];
            if i == 9 || i == 14 || i == 19 || i == 24 {
                ok = ok && x == '-';
            } else {
                ok = ok && (('0' <= x && x <= '9') || ('a' <= x && x <= 'f') || ('A' <= x && x
                    <= 'F'));
            }
            i += 1;
        }
    }
    if ok {
        Ok(())
    } else {
        Err(BcdError::BadGuid(s.to_owned()))
    }
}

// ---- file times ------------------------------------------------------------

/// The system clock's reading.
#[verifier::external_type_specification]
#[verifier::external_body]
pub struct ExSystemTime(std::time::SystemTime);

/// Says that the clock is before the epoch.
#[verifier::external_type_specification]
#[verifier::external_body]
pub struct ExSystemTimeError(std::time::SystemTimeError);

/// `SystemTime::now`. What the clock says is left open.
pub assume_specification[ std::time::SystemTime::now ]() -> std::time::SystemTime
;

/// `SystemTime::duration_since` with the Unix epoch. How far the clock is from
/// the epoch, and on which side, is left open.
#[verifier::external_body]
fn since_epoch(t: &std::time::SystemTime) -> Result<std::time::Duration, std::time::SystemTimeError> {
    t.duration_since(std::time::UNIX_EPOCH)
}

/// `Duration::as_secs`. The number is left open, as the duration is.
pub assume_specification[ std::time::Duration::as_secs ](d: &std::time::Duration) -> u64
;

/// The file time `secs` seconds after 1970: 100 ns steps since 1601, modulo
/// 2^64.
pub open spec fn filetime(secs: int) -> int {
    (secs + 11_644_473_600) * 10_000_000 % 0x1_0000_0000_0000_0000
}

/// The file time `secs` seconds after 1970.
pub fn filetime_at(secs: u64) -> (t: u64)
    ensures
        t == filetime(secs as int),
{
    let s: u64 = secs.wrapping_add(EPOCH_DIFF_SECS);
    let t: u64 = s.wrapping_mul(10_000_000);
    proof {
        let m = 0x1_0000_0000_0000_0000int;
        vstd::arithmetic::div_mod::lemma_mul_mod_noop_left(
            secs + 11_644_473_600,
            10_000_000,
            m,
        );
    }
    t
}

/// The file time of the present second; 1970 where the clock is before that.
fn filetime_now() -> (t: u64)
    ensures
        exists|secs: u64| t == #[trigger] filetime(secs as int),
{
    let secs: u64 = match since_epoch(&std::time::SystemTime::now()) {
        Ok(d) => d.as_secs(),
        Err(_) => 0,
    };
    filetime_at(secs)
}

// ---- the tree of a store -------------------------------------------------

/// A key with values and no subkeys.
pub open spec fn leaf(name: Seq<char>, values: Seq<(Seq<char>, ValModel)>) -> KeyModel {
    KeyModel { name, values, children: seq![] }
}

/// A key with subkeys and no values.
pub open spec fn branch(name: Seq<char>, children: Seq<KeyModel>) -> KeyModel {
    KeyModel { name, values: seq![], children }
}

/// An element lives in a subkey of its own with one value, `Element`.
pub open spec fn element(id: Seq<char>, val: ValModel) -> KeyModel {
    leaf(id, seq![("Element"@, val)])
}

/// A boot object of the given type.
pub open spec fn object(guid: Seq<char>, kind: int, elements: Seq<KeyModel>) -> KeyModel {
    branch(
        guid,
        seq![
            leaf("description"@, seq![("Type"@, ValModel::Dword(kind))]),
            branch("elements"@, elements),
        ],
    )
}

/// The boot manager: its device, its name, the display order and the timeout.
pub open spec fn boot_manager(entry: Seq<char>, esp: Seq<u8>, timeout: int) -> KeyModel {
    object(
        BOOTMGR_GUID@,
        0x1010_0002,
        seq![
            element("11000001"@, ValModel::Binary(esp)),
            element("12000004"@, ValModel::Sz("Windows Boot Manager"@)),
            element("24000001"@, ValModel::MultiSz(seq![lower(entry)])),
            element("25000004"@, ValModel::Binary(le64(timeout))),
        ],
    )
}

/// The OS loader: device, loader path, menu title, OS device, system root.
pub open spec fn os_loader(
    entry: Seq<char>,
    description: Seq<char>,
    device: Seq<u8>,
    osdevice: Seq<u8>,
) -> KeyModel {
    object(
        lower(entry),
        0x1020_0003,
        seq![
            element("11000001"@, ValModel::Binary(device)),
            element("12000002"@, ValModel::Sz("\\Windows\\system32\\winload.efi"@)),
            element("12000004"@, ValModel::Sz(description)),
            element("21000001"@, ValModel::Binary(osdevice)),
            element("22000002"@, ValModel::Sz("\\Windows"@)),
        ],
    )
}

/// The root of a store with the two objects.
pub open spec fn store_root(manager: KeyModel, loader: KeyModel) -> KeyModel {
    branch(
        "NewStoreRoot"@,
        seq![
            leaf(
                "description"@,
                seq![
                    ("KeyName"@, ValModel::Sz("BCD00000000"@)),
                    ("FirmwareModified"@, ValModel::Dword(1)),
                ],
            ),
            branch("objects"@, seq![manager, loader]),
        ],
    )
}

/// The store that boots a Windows tree applied to the partition `win`.
pub open spec fn bcd_tree(
    entry: Seq<char>,
    description: Seq<char>,
    esp: PartitionRef,
    win: PartitionRef,
    timeout: int,
) -> KeyModel {
    store_root(
        boot_manager(entry, gpt_blob(esp), timeout),
        os_loader(entry, description, gpt_blob(win), gpt_blob(win)),
    )
}

/// The store that boots Windows from the virtual disk `path` on the partition
/// `win`.
pub open spec fn vhdx_tree(
    entry: Seq<char>,
    description: Seq<char>,
    esp: PartitionRef,
    win: PartitionRef,
    path: Seq<char>,
    timeout: int,
) -> KeyModel {
    store_root(
        boot_manager(entry, gpt_blob(esp), timeout),
        os_loader(
            entry,
            description,
            vhd_blob(path, win.disk_guid@, win.partition_guid@, false),
            vhd_blob(path, win.disk_guid@, win.partition_guid@, true),
        ),
    )
}

fn new_leaf(name: &str, value: &str, val: Val) -> (key: Key)
    ensures
        key@ == leaf(name@, seq![(value@, val@)]),
{
    let mut key = Key::new(name);
    key.set(value, val);
    assert(key@.values =~= seq![(value@, val@)]);
    key
}

fn new_branch(name: &str, children: Vec<Key>) -> (key: Key)
    ensures
        key@ == branch(name@, key_views(children@)),
{
    let mut key = Key::new(name);
    key.children = children;
    assert(key@.values =~= seq![]);
    key
}

fn new_object(guid: &str, kind: u32, elements: Vec<Key>) -> (key: Key)
    ensures
        key@ == object(guid@, kind as int, key_views(elements@)),
{
    let mut parts: Vec<Key> = Vec::new();
    parts.push(new_leaf("description", "Type", Val::Dword(kind)));
    parts.push(new_branch("elements", elements));
    proof {
        lemma_key_views(parts@);
        assert(key_views(parts@) =~= object(guid@, kind as int, key_views(elements@)).children);
    }
    new_branch(guid, parts)
}

fn new_boot_manager(entry: &str, esp: &PartitionRef, timeout_secs: u32) -> (key: Key)
    ensures
        key@ == boot_manager(entry@, gpt_blob(*esp), timeout_secs as int),
{
    let mut order: Vec<String> = Vec::new();
    order.push(to_lower(entry));
    let mut timeout: Vec<u8> = Vec::new();
    push_u64(&mut timeout, timeout_secs as u64);
    let ghost items = order@.map_values(|s: String| s@);
    assert(items =~= seq![lower(entry@)]);
    assert(timeout@ =~= le64(timeout_secs as int));
    let mut elems: Vec<Key> = Vec::new();
    elems.push(new_leaf("11000001", "Element", Val::Binary(gpt_partition_device(esp))));
    elems.push(new_leaf("12000004", "Element", Val::Sz("Windows Boot Manager".to_owned())));
    elems.push(new_leaf("24000001", "Element", Val::MultiSz(order)));
    elems.push(new_leaf("25000004", "Element", Val::Binary(timeout)));
    proof {
        lemma_key_views(elems@);
        let m = boot_manager(entry@, gpt_blob(*esp), timeout_secs as int);
        assert(key_views(elems@) =~= m.children[1].children);
    }
    new_object(BOOTMGR_GUID, 0x1010_0002, elems)
}

fn new_os_loader(entry: &str, description: &str, device: Vec<u8>, osdevice: Vec<u8>) -> (key: Key)
    ensures
        key@ == os_loader(entry@, description@, device@, osdevice@),
{
    let mut elems: Vec<Key> = Vec::new();
    let ghost dev = device@;
    let ghost osdev = osdevice@;
    elems.push(new_leaf("11000001", "Element", Val::Binary(device)));
    elems.push(
        new_leaf(
            "12000002",
            "Element",
            Val::Sz("\\Windows\\system32\\winload.efi".to_owned()),
        ),
    );
    elems.push(new_leaf("12000004", "Element", Val::Sz(description.to_owned())));
    elems.push(new_leaf("21000001", "Element", Val::Binary(osdevice)));
    elems.push(new_leaf("22000002", "Element", Val::Sz("\\Windows".to_owned())));
    proof {
        lemma_key_views(elems@);
        let m = os_loader(entry@, description@, dev, osdev);
        assert(key_views(elems@) =~= m.children[1].children);
    }
    new_object(to_lower(entry).as_str(), 0x1020_0003, elems)
}

fn new_store_root(manager: Key, loader: Key) -> (key: Key)
    ensures
        key@ == store_root(manager@, loader@),
{
    let mut desc = new_leaf("description", "KeyName", Val::Sz("BCD00000000".to_owned()));
    desc.set("FirmwareModified", Val::Dword(1));
    let mut objects = Key::new("objects");
    objects.add(manager);
    objects.add(loader);
    assert(objects@.children =~= seq![manager@, loader@]);
    let mut parts: Vec<Key> = Vec::new();
    parts.push(desc);
    parts.push(objects);
    proof {
        lemma_key_views(parts@);
        let r = store_root(manager@, loader@);
        assert(desc@.values =~= r.children[0].values);
        assert(key_views(parts@) =~= r.children);
    }
    new_branch("NewStoreRoot", parts)
}

// ---- that a store fits ------------------------------------------------------

proof fn lemma_ascii_len(s: Seq<char>)
    requires
        is_ascii_chars(s),
    ensures
        encode_utf8(s).len() == s.len(),
{
    is_ascii_chars_encode_utf8(s);
}

proof fn lemma_leaf_fits(name: Seq<char>, values: Seq<(Seq<char>, ValModel)>)
    requires
        is_ascii_chars(name),
        name.len() <= 64,
        values.len() <= 2,
        forall|i: int|
            0 <= i < values.len() ==> value_fits((#[trigger] values[i]).0, values[i].1),
    ensures
        key_fits(leaf(name, values)),
        key_cells(leaf(name, values)) <= 7,
{
    lemma_ascii_len(name);
    reveal_with_fuel(key_cells, 2);
    reveal_with_fuel(keys_cells, 2);
}

proof fn lemma_branch_fits(name: Seq<char>, children: Seq<KeyModel>, each: nat)
    requires
        is_ascii_chars(name),
        name.len() <= 64,
        children.len() <= 5,
        forall|i: int| 0 <= i < children.len() ==> key_fits(#[trigger] children[i]),
        forall|i: int| 0 <= i < children.len() ==> key_cells(#[trigger] children[i]) <= each,
    ensures
        key_fits(branch(name, children)),
        key_cells(branch(name, children)) <= 5 * each + 3,
{
    lemma_ascii_len(name);
    lemma_cells_each(children, each);
    assert(children.len() * each <= 5 * each) by (nonlinear_arith)
        requires
            children.len() <= 5,
    ;
}

proof fn lemma_cells_each(children: Seq<KeyModel>, each: nat)
    requires
        forall|i: int| 0 <= i < children.len() ==> key_cells(#[trigger] children[i]) <= each,
    ensures
        keys_cells(children) <= children.len() * each,
    decreases children.len(),
{
    if children.len() > 0 {
        let front = children.drop_last();
        assert forall|i: int| 0 <= i < front.len() implies key_cells(#[trigger] front[i])
            <= each by {
            assert(front[i] == children[i]);
        }
        lemma_cells_each(front, each);
        assert(children.last() == children[children.len() - 1]);
        assert(children.len() * each == front.len() * each + each) by (nonlinear_arith)
            requires
                children.len() == front.len() + 1,
        ;
    }
}

proof fn lemma_element_fits(id: Seq<char>, val: ValModel)
    requires
        is_ascii_chars(id),
        id.len() == 8,
        val.data().len() <= max_payload(),
        !(val is Dword),
    ensures
        key_fits(element(id, val)),
        key_cells(element(id, val)) <= 7,
{
    reveal_strlit("Element");
    lemma_ascii_len("Element"@);
    lemma_leaf_fits(id, seq![("Element"@, val)]);
}

proof fn lemma_object_fits(guid: Seq<char>, kind: int, elements: Seq<KeyModel>)
    requires
        is_ascii_chars(guid),
        guid.len() == 38,
        0 <= kind < 0x1_0000_0000,
        elements.len() <= 5,
        forall|i: int| 0 <= i < elements.len() ==> key_fits(#[trigger] elements[i]),
        forall|i: int| 0 <= i < elements.len() ==> key_cells(#[trigger] elements[i]) <= 7,
    ensures
        key_fits(object(guid, kind, elements)),
        key_cells(object(guid, kind, elements)) <= 193,
{
    broadcast use group_le_len;
    reveal_strlit("description");
    reveal_strlit("Type");
    reveal_strlit("elements");
    lemma_ascii_len("Type"@);
    lemma_leaf_fits("description"@, seq![("Type"@, ValModel::Dword(kind))]);
    lemma_branch_fits("elements"@, elements, 7);
    lemma_branch_fits(guid, object(guid, kind, elements).children, 38);
}

proof fn lemma_sz_len(s: Seq<char>)
    ensures
        ValModel::Sz(s).data().len() == 2 * utf16(s).len() + 2,
        utf16(s).len() <= 2 * s.len(),
{
    lemma_units_le_len(utf16(s));
    lemma_utf16_len(s);
}

proof fn lemma_lower_ascii(s: Seq<char>)
    requires
        valid_guid(s),
    ensures
        is_ascii_chars(lower(s)),
        lower(s).len() == 38,
{
    assert forall|i: int| 0 <= i < lower(s).len() implies '\0' <= #[trigger] lower(s)[i]
        <= '\u{7f}' by {
        assert(s[i] == s[i]);
    }
}

proof fn lemma_manager_fits(entry: Seq<char>, esp: PartitionRef, timeout: int)
    requires
        valid_guid(entry),
    ensures
        key_fits(boot_manager(entry, gpt_blob(esp), timeout)),
        key_cells(boot_manager(entry, gpt_blob(esp), timeout)) <= 193,
{
    broadcast use group_le_len;
    reveal_strlit("11000001");
    reveal_strlit("12000004");
    reveal_strlit("24000001");
    reveal_strlit("25000004");
    reveal_strlit("Windows Boot Manager");
    reveal_strlit("{9dea862c-5cdd-4e70-acc1-f32b344d4795}");
    let m = boot_manager(entry, gpt_blob(esp), timeout);
    lemma_element_fits("11000001"@, ValModel::Binary(gpt_blob(esp)));
    lemma_sz_len("Windows Boot Manager"@);
    lemma_element_fits("12000004"@, ValModel::Sz("Windows Boot Manager"@));
    lemma_lower_ascii(entry);
    lemma_sz_len(lower(entry));
    let order = ValModel::MultiSz(seq![lower(entry)]);
    assert(seq![lower(entry)].drop_last() =~= seq![]);
    assert(multi_sz_items(seq![lower(entry)]) =~= utf16_nul_bytes(lower(entry))) by {
        reveal_with_fuel(multi_sz_items, 2);
    }
    lemma_element_fits("24000001"@, order);
    lemma_element_fits("25000004"@, ValModel::Binary(le64(timeout)));
    lemma_object_fits(BOOTMGR_GUID@, 0x1010_0002, m.children[1].children);
}

proof fn lemma_loader_fits(
    entry: Seq<char>,
    description: Seq<char>,
    device: Seq<u8>,
    osdevice: Seq<u8>,
)
    requires
        valid_guid(entry),
        utf16(description).len() <= 2029,
        device.len() <= max_payload(),
        osdevice.len() <= max_payload(),
    ensures
        key_fits(os_loader(entry, description, device, osdevice)),
        key_cells(os_loader(entry, description, device, osdevice)) <= 193,
{
    reveal_strlit("11000001");
    reveal_strlit("12000002");
    reveal_strlit("12000004");
    reveal_strlit("21000001");
    reveal_strlit("22000002");
    reveal_strlit("\\Windows\\system32\\winload.efi");
    reveal_strlit("\\Windows");
    let m = os_loader(entry, description, device, osdevice);
    lemma_element_fits("11000001"@, ValModel::Binary(device));
    lemma_sz_len("\\Windows\\system32\\winload.efi"@);
    lemma_element_fits("12000002"@, ValModel::Sz("\\Windows\\system32\\winload.efi"@));
    lemma_sz_len(description);
    lemma_element_fits("12000004"@, ValModel::Sz(description));
    lemma_element_fits("21000001"@, ValModel::Binary(osdevice));
    lemma_sz_len("\\Windows"@);
    lemma_element_fits("22000002"@, ValModel::Sz("\\Windows"@));
    lemma_lower_ascii(entry);
    lemma_object_fits(lower(entry), 0x1020_0003, m.children[1].children);
}

proof fn lemma_root_fits(manager: KeyModel, loader: KeyModel)
    requires
        key_fits(manager),
        key_fits(loader),
        key_cells(manager) <= 193,
        key_cells(loader) <= 193,
    ensures
        key_fits(store_root(manager, loader)),
        8192 * key_cells(store_root(manager, loader)) <= 0x6000_0000,
{
    broadcast use group_le_len;
    reveal_strlit("NewStoreRoot");
    reveal_strlit("description");
    reveal_strlit("KeyName");
    reveal_strlit("BCD00000000");
    reveal_strlit("FirmwareModified");
    reveal_strlit("objects");
    lemma_ascii_len("KeyName"@);
    lemma_ascii_len("FirmwareModified"@);
    lemma_sz_len("BCD00000000"@);
    let r = store_root(manager, loader);
    lemma_leaf_fits("description"@, r.children[0].values);
    lemma_branch_fits("objects"@, seq![manager, loader], 193);
    lemma_branch_fits("NewStoreRoot"@, r.children, 968);
}

proof fn lemma_vhd_fits(path: Seq<char>, win: PartitionRef, for_osdevice: bool)
    requires
        utf16(path).len() <= 1934,
    ensures
        vhd_blob(path, win.disk_guid@, win.partition_guid@, for_osdevice).len() <= max_payload(),
        path.len() <= 1934,
{
    broadcast use group_le_len;
    lemma_units_le_len(utf16(path));
    lemma_utf16_len(path);
}

/// The trees of stores fit in the cells of a hive.
pub proof fn lemma_trees_fit(
    entry: Seq<char>,
    description: Seq<char>,
    esp: PartitionRef,
    win: PartitionRef,
    path: Seq<char>,
    timeout: int,
)
    requires
        valid_guid(entry),
        utf16(description).len() <= 2029,
    ensures
        key_fits(bcd_tree(entry, description, esp, win, timeout)),
        8192 * key_cells(bcd_tree(entry, description, esp, win, timeout)) <= 0x6000_0000,
        utf16(path).len() <= 1934 ==> key_fits(
            vhdx_tree(entry, description, esp, win, path, timeout),
        ) && 8192 * key_cells(vhdx_tree(entry, description, esp, win, path, timeout))
            <= 0x6000_0000,
{
    broadcast use group_le_len;
    let m = boot_manager(entry, gpt_blob(esp), timeout);
    lemma_manager_fits(entry, esp, timeout);
    lemma_loader_fits(entry, description, gpt_blob(win), gpt_blob(win));
    lemma_root_fits(m, os_loader(entry, description, gpt_blob(win), gpt_blob(win)));
    if utf16(path).len() <= 1934 {
        lemma_vhd_fits(path, win, false);
        lemma_vhd_fits(path, win, true);
        let d = vhd_blob(path, win.disk_guid@, win.partition_guid@, false);
        let o = vhd_blob(path, win.disk_guid@, win.partition_guid@, true);
        lemma_loader_fits(entry, description, d, o);
        lemma_root_fits(m, os_loader(entry, description, d, o));
    }
}

// ---- stores -----------------------------------------------------------------

/// The store of `generate_uefi_bcd` with every time stamp at `filetime`.
pub fn generate_uefi_bcd_at(
    entry_guid: &str,
    description: &str,
    esp: &PartitionRef,
    win: &PartitionRef,
    timeout_secs: u32,
    filetime: u64,
) -> (r: Result<Vec<u8>, BcdError>)
    requires
        valid_guid(entry_guid@) ==> utf16(description@).len() <= 2029,
    ensures
        match r {
            Ok(store) => valid_guid(entry_guid@) && store@ == store_file(
                bcd_tree(entry_guid@, description@, *esp, *win, timeout_secs as int),
                filetime as int,
            ),
            Err(BcdError::BadGuid(g)) => !valid_guid(entry_guid@) && g@ == entry_guid@,
        },
{
    match validate_guid_str(entry_guid) {
        Ok(_) => {},
        Err(e) => return Err(e),
    }
    let manager = new_boot_manager(entry_guid, esp, timeout_secs);
    let device: Vec<u8> = gpt_partition_device(win);
    let osdevice: Vec<u8> = gpt_partition_device(win);
    let loader = new_os_loader(entry_guid, description, device, osdevice);
    let root = new_store_root(manager, loader);
    proof {
        lemma_trees_fit(entry_guid@, description@, *esp, *win, seq![], timeout_secs as int);
    }
    Ok(write_store(&root, filetime))
}

/// Builds a complete UEFI-boot BCD store for a Windows installation.
///
/// * `entry_guid`: `{guid}` of the OS loader object; any unique UUID works
/// * `description`: menu title
/// * `esp`: EFI system partition that hosts this store
/// * `win`: partition that carries the applied `\Windows` tree
/// * `timeout_secs`: boot menu countdown
///
/// The OS loader path is `\Windows\system32\winload.efi`. A title takes at
/// most 2029 UTF-16 code units: a value lies in one page of the hive.
pub fn generate_uefi_bcd(
    entry_guid: &str,
    description: &str,
    esp: &PartitionRef,
    win: &PartitionRef,
    timeout_secs: u32,
) -> (r: Result<Vec<u8>, BcdError>)
    requires
        valid_guid(entry_guid@) ==> utf16(description@).len() <= 2029,
    ensures
        match r {
            Ok(store) => valid_guid(entry_guid@) && exists|secs: u64|
                store@ == store_file(
                    bcd_tree(entry_guid@, description@, *esp, *win, timeout_secs as int),
                    #[trigger] filetime(secs as int),
                ),
            Err(BcdError::BadGuid(g)) => !valid_guid(entry_guid@) && g@ == entry_guid@,
        },
{
    generate_uefi_bcd_at(entry_guid, description, esp, win, timeout_secs, filetime_now())
}

/// The store of `generate_uefi_bcd_vhdx` with every time stamp at `filetime`.
pub fn generate_uefi_bcd_vhdx_at(
    entry_guid: &str,
    description: &str,
    esp: &PartitionRef,
    win: &PartitionRef,
    vhdx_rel_path: &str,
    timeout_secs: u32,
    filetime: u64,
) -> (r: Result<Vec<u8>, BcdError>)
    requires
        valid_guid(entry_guid@) ==> utf16(description@).len() <= 2029,
        valid_guid(entry_guid@) ==> utf16(vhdx_rel_path@).len() <= 1934,
    ensures
        match r {
            Ok(store) => valid_guid(entry_guid@) && store@ == store_file(
                vhdx_tree(
                    entry_guid@,
                    description@,
                    *esp,
                    *win,
                    vhdx_rel_path@,
                    timeout_secs as int,
                ),
                filetime as int,
            ),
            Err(BcdError::BadGuid(g)) => !valid_guid(entry_guid@) && g@ == entry_guid@,
        },
{
    match validate_guid_str(entry_guid) {
        Ok(_) => {},
        Err(e) => return Err(e),
    }
    proof {
        lemma_utf16_len(vhdx_rel_path@);
        lemma_trees_fit(
            entry_guid@,
            description@,
            *esp,
            *win,
            vhdx_rel_path@,
            timeout_secs as int,
        );
    }
    let manager = new_boot_manager(entry_guid, esp, timeout_secs);
    let device: Vec<u8> = vhd_device(vhdx_rel_path, &win.disk_guid, &win.partition_guid, false);
    let osdevice: Vec<u8> = vhd_device(vhdx_rel_path, &win.disk_guid, &win.partition_guid, true);
    let loader = new_os_loader(entry_guid, description, device, osdevice);
    let root = new_store_root(manager, loader);
    Ok(write_store(&root, filetime))
}

/// Builds a UEFI-boot BCD store for Windows To Go from a VHDX file: as
/// `generate_uefi_bcd`, but `device` and `osdevice` are the file
/// `vhdx_rel_path`, such as `\windows.vhdx`, on the partition `win`. A path
/// takes at most 1934 UTF-16 code units.
pub fn generate_uefi_bcd_vhdx(
    entry_guid: &str,
    description: &str,
    esp: &PartitionRef,
    win: &PartitionRef,
    vhdx_rel_path: &str,
    timeout_secs: u32,
) -> (r: Result<Vec<u8>, BcdError>)
    requires
        valid_guid(entry_guid@) ==> utf16(description@).len() <= 2029,
        valid_guid(entry_guid@) ==> utf16(vhdx_rel_path@).len() <= 1934,
    ensures
        match r {
            Ok(store) => valid_guid(entry_guid@) && exists|secs: u64|
                store@ == store_file(
                    vhdx_tree(
                        entry_guid@,
                        description@,
                        *esp,
                        *win,
                        vhdx_rel_path@,
                        timeout_secs as int,
                    ),
                    #[trigger] filetime(secs as int),
                ),
            Err(BcdError::BadGuid(g)) => !valid_guid(entry_guid@) && g@ == entry_guid@,
        },
{
    generate_uefi_bcd_vhdx_at(
        entry_guid,
        description,
        esp,
        win,
        vhdx_rel_path,
        timeout_secs,
        filetime_now(),
    )
}

} // verus!
