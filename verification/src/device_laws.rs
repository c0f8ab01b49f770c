//! What a list of candidate disks tells of the system.

use crate::device::{candidate, candidates, name_slot, DeviceModel, RawDevice};
use crate::iso::opt_text;
use crate::paths::file_name;
use crate::text::{
    dec, law_dec_parses, law_trim, lemma_dec_shape, parse_number, starts_with, text_lt, trim,
};
use vstd::prelude::*;
use vstd::string::*;

verus! {

/// Whether a name is one of those that no flash medium has.
pub open spec fn no_flash_name(name: Seq<char>) -> bool {
    ||| starts_with(name, "loop"@)
    ||| starts_with(name, "ram"@)
    ||| starts_with(name, "zram"@)
    ||| starts_with(name, "dm-"@)
    ||| starts_with(name, "md"@)
    ||| starts_with(name, "nbd"@)
    ||| starts_with(name, "sr"@)
    ||| starts_with(name, "fd"@)
    ||| starts_with(name, "pmem"@)
    ||| starts_with(name, "rtc"@)
    ||| starts_with(name, "vdb"@)
}

/// Whether a record tells a size that is not 0.
pub open spec fn tells_size(size: Option<Seq<char>>) -> bool {
    &&& size is Some
    &&& parse_number(trim(size->0), 0xFFFF_FFFF_FFFF_FFFF) is Some
    &&& parse_number(trim(size->0), 0xFFFF_FFFF_FFFF_FFFF)->0 != 0
}

proof fn lemma_ignored(name: Seq<char>)
    ensures
        crate::device::ignored(name) <==> no_flash_name(name),
{
    let p = crate::device::ignored_prefixes();
    assert(p[0] == "loop"@ && p[1] == "ram"@ && p[2] == "zram"@ && p[3] == "dm-"@ && p[4] == "md"@
        && p[5] == "nbd"@ && p[6] == "sr"@ && p[7] == "fd"@ && p[8] == "pmem"@ && p[9] == "rtc"@
        && p[10] == "vdb"@);
    assert(p.len() == 11);
}

/// A record is a candidate if and only if it is no partition, has a node whose
/// name a flash medium can have, and tells a size.
pub proof fn law_which_are_candidates(r: RawDevice)
    ensures
        candidate(r) is Some <==> {
            &&& opt_text(r.devtype) != Some("partition"@)
            &&& r.devnode is Some
            &&& file_name(r.devnode->0@) is Some
            &&& !no_flash_name(file_name(r.devnode->0@)->0)
            &&& tells_size(opt_text(r.size))
        },
{
    if r.devnode is Some && file_name(r.devnode->0@) is Some {
        lemma_ignored(file_name(r.devnode->0@)->0);
    }
}

/// A text that a property holds: trimmed, and missing where nothing is left.
pub open spec fn told(v: Option<String>) -> Option<Seq<char>> {
    if v is Some && trim(v->0@).len() > 0 {
        Some(trim(v->0@))
    } else {
        None
    }
}

/// What a candidate shows of its record: the node and its name; model and vendor
/// as the hardware database has them, else as the device itself says; serial
/// number and bus; whether it is removable and whether it is read-only, for which
/// the system writes `1`.
pub proof fn law_candidate_shows_its_record(r: RawDevice)
    requires
        candidate(r) is Some,
    ensures
        ({
            let d = candidate(r)->0;
            &&& d.devnode == r.devnode->0@
            &&& Some(d.name) == file_name(r.devnode->0@)
            &&& told(r.model_db) is Some ==> d.model == told(r.model_db)
            &&& told(r.model_db) is None ==> d.model == told(r.model)
            &&& told(r.vendor_db) is Some ==> d.vendor == told(r.vendor_db)
            &&& told(r.vendor_db) is None ==> d.vendor == told(r.vendor)
            &&& d.serial == told(r.serial)
            &&& d.bus == told(r.bus)
            &&& d.removable <==> r.removable is Some && trim(r.removable->0@) == "1"@
            &&& d.read_only <==> r.ro is Some && trim(r.ro->0@) == "1"@
        }),
{
}

/// A size is told in sectors of 512 bytes, whatever white space is around it.
pub proof fn law_size_is_in_sectors(r: RawDevice, n: nat, before: Seq<char>, behind: Seq<char>)
    requires
        candidate(r) is Some,
        r.size is Some,
        r.size->0@ == before + dec(n) + behind,
        forall|i: int| 0 <= i < before.len() ==> crate::text::is_space(#[trigger] before[i]),
        forall|i: int| 0 <= i < behind.len() ==> crate::text::is_space(#[trigger] behind[i]),
        n < 0x80_0000_0000_0000,
    ensures
        candidate(r)->0.size_bytes == 512 * n,
{
    lemma_dec_shape(n);
    law_trim(before, dec(n), behind);
    law_dec_parses(n, u64::MAX as int);
}

/// How a device is called: by its model, else by its vendor, else in general,
/// with a space for every underscore.
pub proof fn law_label(d: DeviceModel, i: int)
    ensures
        ({
            let source = if d.model is Some && d.model->0.len() > 0 {
                d.model->0
            } else if d.vendor is Some {
                d.vendor->0
            } else {
                "Generic USB Device"@
            };
            &&& d.label().len() == source.len()
            &&& 0 <= i < source.len() && source[i] == '_' ==> d.label()[i] == ' '
            &&& 0 <= i < source.len() && source[i] != '_' ==> d.label()[i] == source[i]
        }),
{
}

/// How many of the records are candidates.
pub open spec fn candidate_count(records: Seq<RawDevice>) -> nat
    decreases records.len(),
{
    if records.len() == 0 {
        0
    } else {
        candidate_count(records.drop_last()) + if candidate(records.last()) is Some {
            1nat
        } else {
            0
        }
    }
}

proof fn lemma_slot(devs: Seq<DeviceModel>, name: Seq<char>)
    ensures
        0 <= name_slot(devs, name) <= devs.len(),
    decreases devs.len(),
{
    if devs.len() > 0 && text_lt(name, devs.last().name) {
        lemma_slot(devs.drop_last(), name);
    }
}

/// Every candidate among the records is listed, and nothing else.
pub proof fn law_every_candidate_is_listed(records: Seq<RawDevice>, i: int)
    requires
        0 <= i < records.len(),
    ensures
        candidates(records).len() == candidate_count(records),
        candidate(records[i]) is Some ==> candidates(records).contains(candidate(records[i])->0),
    decreases records.len(),
{
    let front = candidates(records.drop_last());
    if records.len() > 1 {
        law_every_candidate_is_listed(
            records.drop_last(),
            if i < records.len() - 1 {
                i
            } else {
                0
            },
        );
    } else {
        assert(candidate_count(records.drop_last()) == 0);
        assert(front.len() == 0);
    }
    match candidate(records.last()) {
        Some(d) => {
            lemma_slot(front, d.name);
            let p = name_slot(front, d.name);
            let all = candidates(records);
            assert(all[p] == d);
            if i < records.len() - 1 && candidate(records[i]) is Some {
                assert(records.drop_last()[i] == records[i]);
                let k = choose|k: int|
                    0 <= k < front.len() && front[k] == candidate(records[i])->0;
                assert(all[if k < p {
                    k
                } else {
                    k + 1
                }] == front[k]);
            }
        },
        None => {
            if i < records.len() - 1 {
                assert(records.drop_last()[i] == records[i]);
            }
        },
    }
}

/// A candidate whose name is not before that of the last one goes behind all
/// others.
pub proof fn law_later_names_go_behind(records: Seq<RawDevice>, r: RawDevice)
    requires
        candidate(r) is Some,
        candidates(records).len() == 0 || !text_lt(
            candidate(r)->0.name,
            candidates(records).last().name,
        ),
    ensures
        candidates(records.push(r)) == candidates(records).push(candidate(r)->0),
{
    assert(records.push(r).drop_last() =~= records);
    let front = candidates(records);
    assert(front.insert(front.len() as int, candidate(r)->0) =~= front.push(candidate(r)->0));
}

} // verus!
