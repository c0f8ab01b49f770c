//! Block devices: which of them are candidate targets, and how they are shown.

use crate::iso::opt_text;
use crate::paths::{file_name, path_file_name};
use crate::sizes::{device_size_text, fmt_device_size};
use crate::text::{
    from_chars, parse_number, parse_u64, starts_with, starts_with_str, str_eq, str_lt, text_lt,
    to_chars, trim, trim_chars,
};
use vstd::prelude::*;
use vstd::string::*;

verus! {

/// A whole-disk block device (never a partition).
#[derive(Debug, Clone, PartialEq, Eq)]
pub struct BlockDevice {
    /// Kernel name, e.g. `sda`.
    pub name: String,
    /// Device node path, e.g. `/dev/sda`.
    pub devnode: String,
    pub model: Option<String>,
    pub vendor: Option<String>,
    pub serial: Option<String>,
    pub size_bytes: u64,
    pub removable: bool,
    pub read_only: bool,
    /// Transport or bus, e.g. `usb`, `ata`, `mmc`.
    pub bus: Option<String>,
}

#[verifier::ext_equal]
pub struct DeviceModel {
    pub name: Seq<char>,
    pub devnode: Seq<char>,
    pub model: Option<Seq<char>>,
    pub vendor: Option<Seq<char>>,
    pub serial: Option<Seq<char>>,
    pub size_bytes: int,
    pub removable: bool,
    pub read_only: bool,
    pub bus: Option<Seq<char>>,
}

/// Underscores become spaces.
pub open spec fn spaced(s: Seq<char>) -> Seq<char> {
    s.map_values(
        |c: char|
            if c == '_' {
                ' '
            } else {
                c
            },
    )
}

impl DeviceModel {
    /// Model, else vendor, else a general name.
    pub open spec fn label(self) -> Seq<char> {
        if self.model is Some && self.model->0.len() > 0 {
            spaced(self.model->0)
        } else if self.vendor is Some {
            spaced(self.vendor->0)
        } else {
            spaced("Generic USB Device"@)
        }
    }
}

impl BlockDevice {
    pub open spec fn view(self) -> DeviceModel {
        DeviceModel {
            name: self.name@,
            devnode: self.devnode@,
            model: opt_text(self.model),
            vendor: opt_text(self.vendor),
            serial: opt_text(self.serial),
            size_bytes: self.size_bytes as int,
            removable: self.removable,
            read_only: self.read_only,
            bus: opt_text(self.bus),
        }
    }

    /// Human-readable size, e.g. `57.3 GB`.
    pub fn size_string(&self) -> (s: String)
        ensures
            s@ == device_size_text(self.size_bytes as int),
    {
        fmt_device_size(self.size_bytes)
    }

    /// One-line description used in the device selector.
    pub fn display_name(&self) -> (s: String)
        ensures
            s@ == self@.label() + " ("@ + device_size_text(self@.size_bytes) + ") ["@
                + self@.devnode + "]"@,
    {
        let general: &str = match &self.vendor {
            Some(v) => v.as_str(),
            None => "Generic USB Device",
        };
        let label: &str = match &self.model {
            Some(m) => if m.as_str().is_empty() {
                general
            } else {
                m.as_str()
            },
            None => general,
        };
        let mut s: String = to_spaces(label);
        s.append(" (");
        s.append(self.size_string().as_str());
        s.append(") [");
        s.append(self.devnode.as_str());
        s.append("]");
        s
    }

    /// True when this looks like a USB-attached stick or card reader.
    pub fn is_usb(&self) -> (r: bool)
        ensures
            r == (self@.bus == Some("usb"@)),
    {
        match &self.bus {
            Some(b) => str_eq(b.as_str(), "usb"),
            None => false,
        }
    }
}

fn to_spaces(p: &str) -> (r: String)
    ensures
        r@ == spaced(p@),
{
    let mut r: String = String::new();
    for c in it: p.chars()
        invariant
            it.seq() == p@,
            r@ == spaced(p@.take(it.index())),
    {
        r.push(if c == '_' { ' ' } else { c });
        assert(r@ =~= spaced(p@.take(it.index() + 1)));
    }
    assert(p@.take(p@.len() as int) =~= p@);
    r
}

/// What udev says of a block device; None for what is missing or not text.
pub struct RawDevice {
    /// Property `DEVTYPE`.
    pub devtype: Option<String>,
    pub devnode: Option<String>,
    /// Attribute `size`, in 512-byte sectors.
    pub size: Option<String>,
    /// Attribute `removable`.
    pub removable: Option<String>,
    /// Attribute `ro`.
    pub ro: Option<String>,
    /// Property `ID_MODEL_FROM_DATABASE`.
    pub model_db: Option<String>,
    /// Property `ID_MODEL`.
    pub model: Option<String>,
    /// Property `ID_VENDOR_FROM_DATABASE`.
    pub vendor_db: Option<String>,
    /// Property `ID_VENDOR`.
    pub vendor: Option<String>,
    /// Property `ID_SERIAL_SHORT`.
    pub serial: Option<String>,
    /// Property `ID_BUS`.
    pub bus: Option<String>,
}

/// An attribute, without white space around it.
pub open spec fn attr(v: Option<Seq<char>>) -> Option<Seq<char>> {
    match v {
        Some(t) => Some(trim(t)),
        None => None,
    }
}

/// A property, without white space around it; an empty one counts as missing.
pub open spec fn prop(v: Option<Seq<char>>) -> Option<Seq<char>> {
    match v {
        Some(t) => if trim(t).len() > 0 {
            Some(trim(t))
        } else {
            None
        },
        None => None,
    }
}

/// Names that are not physical flash media.
pub open spec fn ignored_prefixes() -> Seq<Seq<char>> {
    seq![
        "loop"@,
        "ram"@,
        "zram"@,
        "dm-"@,
        "md"@,
        "nbd"@,
        "sr"@,
        "fd"@,
        "pmem"@,
        "rtc"@,
        "vdb"@,
    ]
}

pub open spec fn ignored(name: Seq<char>) -> bool {
    exists|i: int|
        0 <= i < ignored_prefixes().len() && starts_with(name, #[trigger] ignored_prefixes()[i])
}

/// The size in sectors; 0 where there is none.
pub open spec fn sectors(size: Option<Seq<char>>) -> int {
    match attr(size) {
        Some(t) => match parse_number(t, u64::MAX as int) {
            Some(n) => n,
            None => 0,
        },
        None => 0,
    }
}

pub open spec fn or_else(a: Option<Seq<char>>, b: Option<Seq<char>>) -> Option<Seq<char>> {
    if a is Some {
        a
    } else {
        b
    }
}

/// The device that a record stands for: a whole disk with a node, a name that
/// is not ignored, and a size. The size in bytes is modulo 2^64.
pub open spec fn candidate(r: RawDevice) -> Option<DeviceModel> {
    let devnode = opt_text(r.devnode);
    if opt_text(r.devtype) == Some("partition"@) || devnode is None {
        None
    } else {
        match file_name(devnode->0) {
            None => None,
            Some(name) => if ignored(name) || sectors(opt_text(r.size)) == 0 {
                None
            } else {
                Some(
                    DeviceModel {
                        name,
                        devnode: devnode->0,
                        model: or_else(prop(opt_text(r.model_db)), prop(opt_text(r.model))),
                        vendor: or_else(prop(opt_text(r.vendor_db)), prop(opt_text(r.vendor))),
                        serial: prop(opt_text(r.serial)),
                        size_bytes: sectors(opt_text(r.size)) * 512 % 0x1_0000_0000_0000_0000,
                        removable: attr(opt_text(r.removable)) == Some("1"@),
                        read_only: attr(opt_text(r.ro)) == Some("1"@),
                        bus: prop(opt_text(r.bus)),
                    },
                )
            },
        }
    }
}

/// Where a device named `name` goes: behind every one whose name is not
/// greater.
pub open spec fn name_slot(devs: Seq<DeviceModel>, name: Seq<char>) -> int
    decreases devs.len(),
{
    if devs.len() > 0 && text_lt(name, devs.last().name) {
        name_slot(devs.drop_last(), name)
    } else {
        devs.len() as int
    }
}

/// The candidates among the records, in order of their names; those of one name
/// stay as they were.
pub open spec fn candidates(records: Seq<RawDevice>) -> Seq<DeviceModel>
    decreases records.len(),
{
    if records.len() == 0 {
        seq![]
    } else {
        let front = candidates(records.drop_last());
        match candidate(records.last()) {
            Some(d) => front.insert(name_slot(front, d.name), d),
            None => front,
        }
    }
}

fn trimmed(v: &Option<String>) -> (r: Option<String>)
    ensures
        opt_text(r) == attr(opt_text(*v)),
{
    match v {
        Some(t) => {
            let c: Vec<char> = trim_chars(&to_chars(t.as_str()));
            let s: String = from_chars(&c, 0, c.len());
            assert(s@ =~= trim(t@));
            Some(s)
        },
        None => None,
    }
}

fn property(v: &Option<String>) -> (r: Option<String>)
    ensures
        opt_text(r) == prop(opt_text(*v)),
{
    match trimmed(v) {
        Some(t) => if t.as_str().is_empty() {
            None
        } else {
            Some(t)
        },
        None => None,
    }
}

fn first_property(a: &Option<String>, b: &Option<String>) -> (r: Option<String>)
    ensures
        opt_text(r) == or_else(prop(opt_text(*a)), prop(opt_text(*b))),
{
    match property(a) {
        Some(t) => Some(t),
        None => property(b),
    }
}

fn is_one(v: &Option<String>) -> (r: bool)
    ensures
        r == (attr(opt_text(*v)) == Some("1"@)),
{
    match trimmed(v) {
        Some(t) => str_eq(t.as_str(), "1"),
        None => false,
    }
}

fn is_ignored(name: &str) -> (r: bool)
    ensures
        r == ignored(name@),
{
    let r: bool = starts_with_str(name, "loop") || starts_with_str(name, "ram") || starts_with_str(
        name,
        "zram",
    ) || starts_with_str(name, "dm-") || starts_with_str(name, "md") || starts_with_str(
        name,
        "nbd",
    ) || starts_with_str(name, "sr") || starts_with_str(name, "fd") || starts_with_str(
        name,
        "pmem",
    ) || starts_with_str(name, "rtc") || starts_with_str(name, "vdb");
    proof {
        let p = ignored_prefixes();
        assert(p[0] == "loop"@ && p[1] == "ram"@ && p[2] == "zram"@ && p[3] == "dm-"@ && p[4]
            == "md"@ && p[5] == "nbd"@ && p[6] == "sr"@ && p[7] == "fd"@ && p[8] == "pmem"@ && p[9]
            == "rtc"@ && p[10] == "vdb"@);
        if ignored(name@) {
            let i = choose|i: int|
                0 <= i < ignored_prefixes().len() && starts_with(
                    name@,
                    #[trigger] ignored_prefixes()[i],
                );
            assert(0 <= i < 11);
            assert(r);
        }
    }
    r
}

fn sector_count(size: &Option<String>) -> (n: u64)
    ensures
        n == sectors(opt_text(*size)),
{
    match trimmed(size) {
        Some(t) => match parse_u64(t.as_str()) {
            Some(n) => n,
            None => 0,
        },
        None => 0,
    }
}

/// The device that a record stands for, if it is a candidate.
pub fn to_device(r: &RawDevice) -> (d: Option<BlockDevice>)
    ensures
        match d {
            Some(b) => candidate(*r) == Some(b@),
            None => candidate(*r) is None,
        },
{
    match &r.devtype {
        Some(t) => if str_eq(t.as_str(), "partition") {
            return None;
        },
        None => {},
    }
    let devnode: &String = match &r.devnode {
        Some(d) => d,
        None => return None,
    };
    let name: String = match path_file_name(devnode.as_str()) {
        Some(n) => n,
        None => return None,
    };
    if is_ignored(name.as_str()) {
        return None;
    }
    let n: u64 = sector_count(&r.size);
    if n == 0 {
        return None;
    }
    let b = BlockDevice {
        name,
        devnode: devnode.as_str().to_owned(),
        model: first_property(&r.model_db, &r.model),
        vendor: first_property(&r.vendor_db, &r.vendor),
        serial: property(&r.serial),
        size_bytes: n.wrapping_mul(512),
        removable: is_one(&r.removable),
        read_only: is_one(&r.ro),
        bus: property(&r.bus),
    };
    assert(candidate(*r)->0 =~= b@);
    Some(b)
}

pub open spec fn device_models(devs: Seq<BlockDevice>) -> Seq<DeviceModel> {
    devs.map_values(|d: BlockDevice| d@)
}

/// Candidate target disks, in order of their names.
pub fn list_block_devices(records: &Vec<RawDevice>) -> (devs: Vec<BlockDevice>)
    ensures
        device_models(devs@) == candidates(records@),
{
    let mut devs: Vec<BlockDevice> = Vec::new();
    let mut i: usize = 0;
    assert(device_models(devs@) =~= candidates(records@.take(0)));
    while i < records.len()
        invariant
            i <= records@.len(),
            device_models(devs@) == candidates(records@.take(i as int)),
        decreases records@.len() - i,
    {
        let ghost front = device_models(devs@);
        let ghost d0 = devs@;
        proof {
            assert(records@.take(i + 1).drop_last() =~= records@.take(i as int));
            assert(records@.take(i + 1).last() == records@[i as int]);
        }
        match to_device(&records[i]) {
            Some(d) => {
                let mut p: usize = devs.len();
                assert(front.take(p as int) =~= front);
                while p > 0 && str_lt(d.name.as_str(), devs[p - 1].name.as_str())
                    invariant
                        p <= devs@.len(),
                        devs@ == d0,
                        front == device_models(d0),
                        name_slot(front.take(p as int), d@.name) == name_slot(front, d@.name),
                    decreases p,
                {
                    proof {
                        assert(front.take(p as int).last() == devs@[p - 1]@);
                        assert(front.take(p as int).drop_last() =~= front.take(p - 1));
                    }
                    p -= 1;
                }
                proof {
                    if p > 0 {
                        assert(front.take(p as int).last() == devs@[p - 1]@);
                    }
                }
                devs.insert(p, d);
                assert(device_models(devs@) =~= front.insert(p as int, d@));
            },
            None => {},
        }
        i += 1;
    }
    assert(records@.take(i as int) =~= records@);
    devs
}

// ---- laws ---------------------------------------------------------------------

proof fn lemma_name_slot(devs: Seq<DeviceModel>, name: Seq<char>)
    requires
        forall|i: int, j: int|
            0 <= i < j < devs.len() ==> !text_lt(
                (#[trigger] devs[j]).name,
                (#[trigger] devs[i]).name,
            ),
    ensures
        0 <= name_slot(devs, name) <= devs.len(),
        forall|i: int|
            name_slot(devs, name) <= i < devs.len() ==> text_lt(name, (#[trigger] devs[i]).name),
        forall|i: int|
            0 <= i < name_slot(devs, name) ==> !text_lt(name, (#[trigger] devs[i]).name),
    decreases devs.len(),
{
    if devs.len() > 0 {
        let last = devs[devs.len() - 1];
        if text_lt(name, last.name) {
            let front = devs.drop_last();
            assert forall|i: int, j: int| 0 <= i < j < front.len() implies !text_lt(
                (#[trigger] front[j]).name,
                (#[trigger] front[i]).name,
            ) by {
                assert(front[i] == devs[i] && front[j] == devs[j]);
            }
            lemma_name_slot(front, name);
            assert forall|i: int| name_slot(devs, name) <= i < devs.len() implies text_lt(
                name,
                (#[trigger] devs[i]).name,
            ) by {
                if i < front.len() {
                    assert(front[i] == devs[i]);
                }
            }
            assert forall|i: int| 0 <= i < name_slot(devs, name) implies !text_lt(
                name,
                (#[trigger] devs[i]).name,
            ) by {
                assert(front[i] == devs[i]);
            }
        } else {
            assert forall|i: int| 0 <= i < devs.len() implies !text_lt(
                name,
                (#[trigger] devs[i]).name,
            ) by {
                if i < devs.len() - 1 {
                    assert(!text_lt(devs[devs.len() - 1].name, devs[i].name));
                    crate::text::lemma_bytes_le_trans(
                        vstd::utf8::encode_utf8(devs[i].name),
                        vstd::utf8::encode_utf8(last.name),
                        vstd::utf8::encode_utf8(name),
                    );
                }
            }
        }
    }
}

/// The list is in ascending order of names.
pub proof fn law_devices_sorted(records: Seq<RawDevice>)
    ensures
        forall|i: int, j: int|
            0 <= i < j < candidates(records).len() ==> !text_lt(
                (#[trigger] candidates(records)[j]).name,
                (#[trigger] candidates(records)[i]).name,
            ),
    decreases records.len(),
{
    if records.len() > 0 {
        law_devices_sorted(records.drop_last());
        let front = candidates(records.drop_last());
        match candidate(records.last()) {
            Some(d) => {
                lemma_name_slot(front, d.name);
                let p = name_slot(front, d.name);
                let all = front.insert(p, d);
                assert forall|i: int, j: int| 0 <= i < j < all.len() implies !text_lt(
                    (#[trigger] all[j]).name,
                    (#[trigger] all[i]).name,
                ) by {
                    if j == p {
                        assert(all[i] == front[i]);
                    } else if i == p {
                        assert(all[j] == front[j - 1]);
                        crate::text::lemma_bytes_lt_asym(
                            vstd::utf8::encode_utf8(d.name),
                            vstd::utf8::encode_utf8(front[j - 1].name),
                        );
                    } else {
                        let i0 = if i < p { i } else { i - 1 };
                        let j0 = if j < p { j } else { j - 1 };
                        assert(all[i] == front[i0] && all[j] == front[j0]);
                    }
                }
            },
            None => {},
        }
    }
}

/// A device of the list stands for one of the records: no partition, no
/// ignored name.
pub proof fn law_devices_are_disks(records: Seq<RawDevice>, k: int)
    requires
        0 <= k < candidates(records).len(),
    ensures
        !ignored(candidates(records)[k].name),
        exists|i: int|
            0 <= i < records.len() && candidate(#[trigger] records[i]) == Some(
                candidates(records)[k],
            ) && opt_text(records[i].devtype) != Some("partition"@),
    decreases records.len(),
{
    let front = candidates(records.drop_last());
    let last = records[records.len() - 1];
    assert(records.last() == last);
    match candidate(last) {
        Some(d) => {
            lemma_slot_range(front, d.name);
            let p = name_slot(front, d.name);
            if k == p {
                assert(candidate(records[records.len() - 1]) == Some(candidates(records)[k]));
            } else {
                let k0 = if k < p { k } else { k - 1 };
                assert(candidates(records)[k] == front[k0]);
                law_devices_are_disks(records.drop_last(), k0);
                let i = choose|i: int|
                    0 <= i < records.drop_last().len() && candidate(
                        #[trigger] records.drop_last()[i],
                    ) == Some(front[k0]) && opt_text(records.drop_last()[i].devtype) != Some(
                        "partition"@,
                    );
                assert(records[i] == records.drop_last()[i]);
            }
        },
        None => {
            law_devices_are_disks(records.drop_last(), k);
            let i = choose|i: int|
                0 <= i < records.drop_last().len() && candidate(#[trigger] records.drop_last()[i])
                    == Some(front[k]) && opt_text(records.drop_last()[i].devtype) != Some(
                    "partition"@,
                );
            assert(records[i] == records.drop_last()[i]);
        },
    }
}

proof fn lemma_slot_range(devs: Seq<DeviceModel>, name: Seq<char>)
    ensures
        0 <= name_slot(devs, name) <= devs.len(),
    decreases devs.len(),
{
    if devs.len() > 0 && text_lt(name, devs.last().name) {
        lemma_slot_range(devs.drop_last(), name);
    }
}

} // verus!
