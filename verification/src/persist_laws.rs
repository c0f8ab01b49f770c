//! What holds of raw sticks, their persistence, scans, and the words at the end
//! of a plan.

use crate::commands::CmdModel;
use crate::disk_image::capacity;
use crate::execute::{job_steps, plan_steps};
use crate::flash::{persistence_steps, persistent_text, steps_after_scan, Facts, Slot, StepModel};
use crate::format::{last_count, uppercase_of};
use crate::partition::{
    digit_run, extents, last_end, line_extent, node_of, number_after, persist_extent, reread_cmds,
    says_gpt, PersistError,
};
use crate::protocol::{BadBlocks, FlashPlan, PartitionScheme};
use crate::text::{
    at, dec, find, is_digit, is_space, law_dec_parses, law_find_is_first, lemma_dec_shape, lines,
    starts_with, trim_start,
};
use crate::togo::{no_room, togo_parts};
use vstd::prelude::*;
use vstd::string::*;

verus! {

// ---- raw sticks -----------------------------------------------------------------------

/// A raw stick: the image is written first, verified if and only if the plan says
/// so; persistence is added behind it if and only if it was asked for, with the
/// label that the image needs, and as Ubuntu has it where none is known.
pub proof fn law_raw_stick(dev: Seq<char>, plan: FlashPlan, facts: Facts)
    requires
        plan is RawDd,
    ensures
        ({
            let s = plan_steps(dev, plan, facts);
            let mb = plan->persistence_mb;
            &&& s[0] == StepModel::WriteImage(plan->RawDd_image@, plan->verify)
            &&& mb == 0 ==> s.len() == 2
            &&& mb == 0 && plan->verify ==> s[1] == StepModel::Finish(
                "image written and verified to "@ + dev,
            )
            &&& mb == 0 && !plan->verify ==> s[1] == StepModel::Finish("image written to "@ + dev)
            &&& mb > 0 ==> s.len() == 3 && s[2] == StepModel::FinishPersistent(
                plan->verify,
                mb as int,
            )
            &&& mb > 0 && plan->persistence_label is Some ==> s[1] == StepModel::AddPersistence(
                mb as int,
                plan->persistence_label->0@,
            )
            &&& mb > 0 && plan->persistence_label is None ==> s[1] == StepModel::AddPersistence(
                mb as int,
                "casper-rw"@,
            )
        }),
{
}

/// Adding persistence: the partition is appended where it was found to fit, as a
/// Linux filesystem; it becomes ext4 with its label on the node behind those that
/// are there, once that is there. Debian's label also gets its configuration,
/// while the partition is mounted; no other does.
#[verifier::rlimit(40)]
pub proof fn law_persistence_is_added(
    dev: Seq<char>,
    is_gpt: bool,
    count: int,
    start: nat,
    size: nat,
    label: Seq<char>,
)
    requires
        0 <= count < 255,
    ensures
        ({
            let s = persistence_steps(dev, is_gpt, count, start as int, size as int, label);
            let node = node_of(dev, count + 1);
            let place = "start="@ + dec(start) + ", size="@ + dec(size);
            &&& s[2] matches StepModel::Run(t) && t.cmd.program == "sfdisk"@ && t.cmd.args == seq![
                "-q"@,
                "--force"@,
                "--append"@,
                dev,
            ] && t.cmd.stdin == Some(
                place + (if is_gpt {
                    ", type=0FC63DAF-8483-4772-8E79-3D69D8477DE4, name=FERRUS-PERSIST\n"@
                } else {
                    ", type=83\n"@
                }),
            ) && t.context == "appending persistence partition"@ && t.attempts == 1
            &&& s[0] == StepModel::Tick("adding persistence partition"@)
            &&& s[1] == StepModel::CheckCancel
            &&& s[3] == StepModel::Try(reread_cmds(dev)) && s[4] == StepModel::Pause(400)
            &&& s[5] == StepModel::WaitNode(node, 10)
            &&& s[6] == StepModel::Tick("formatting persistence"@)
            &&& s[7] matches StepModel::Run(t) && t.cmd == (CmdModel {
                program: "mkfs.ext4"@,
                args: seq!["-F"@, "-L"@, label, node],
                stdin: None,
            }) && t.context == "creating ext4 ("@ + label + ")"@ && t.attempts == 4
            &&& label == "persistence"@ ==> {
                &&& s.len() == 13
                &&& s[8] == StepModel::Tick("writing persistence.conf"@)
                &&& s[9] == StepModel::Mount(Slot::Target, node)
                &&& s[10] == StepModel::WriteConf
                &&& s[11] == StepModel::Unmount(Slot::Target)
            }
            &&& label != "persistence"@ ==> s.len() == 9 && forall|i: int|
                0 <= i < 9 ==> !(#[trigger] s[i] is WriteConf)
            &&& s.last() == StepModel::Try(
                seq![(CmdModel { program: "sync"@, args: seq!["-f"@, dev], stdin: None })],
            )
        }),
{
    let s = persistence_steps(dev, is_gpt, count, start as int, size as int, label);
    if label != "persistence"@ {
        assert forall|i: int| 0 <= i < 9 implies !(#[trigger] s[i] is WriteConf) by {
            assert(i == 0 || i == 1 || i == 2 || i == 3 || i == 4 || i == 5 || i == 6 || i == 7
                || i == 8);
        }
    }
}

/// What is said of a stick with persistence: what is said of the write, and how
/// much was asked for on which node.
pub proof fn law_words_of_persistence(verify: bool, dev: Seq<char>, mb: nat, count: int)
    requires
        0 <= count < 256,
    ensures
        persistent_text(verify, dev, mb as int, count) == (if verify {
            "image written and verified to "@
        } else {
            "image written to "@
        }) + dev + " (+"@ + dec(mb) + " MiB persistence on "@ + node_of(dev, count) + ")"@,
{
}

/// Why persistence is refused, in words.
pub proof fn law_words_of_refusals()
    ensures
        PersistError::NoPartitions.text() == "image has no partitions; cannot add persistence"@,
        PersistError::TableFull.text()
            == "MBR table already has 4 primary partitions; no room for persistence"@,
        PersistError::NoSpace.text()
            == "not enough space left on the device for a persistence partition"@,
        PersistError::TooSmall.text() == "requested persistence size too small for this device"@,
        no_room() == "not enough space left on the device for the data partition"@,
{
}

/// The last of the partitions ends where one of them does, and none ends behind
/// it.
pub proof fn law_last_end(parts: Seq<(int, int)>, i: int)
    requires
        0 <= i < parts.len(),
        forall|k: int|
            0 <= k < parts.len() ==> 0 <= (#[trigger] parts[k]).0 && 0 <= parts[k].1,
    ensures
        parts[i].0 + parts[i].1 <= last_end(parts),
        last_end(parts) == 0 || exists|k: int|
            0 <= k < parts.len() && (#[trigger] parts[k]).0 + parts[k].1 == last_end(parts),
    decreases parts.len(),
{
    let front = parts.drop_last();
    assert(parts.last() == parts[parts.len() - 1]);
    assert forall|k: int| 0 <= k < front.len() implies 0 <= (#[trigger] front[k]).0 && 0
        <= front[k].1 by {
        assert(front[k] == parts[k]);
    }
    if front.len() > 0 {
        law_last_end(
            front,
            if i < front.len() {
                i
            } else {
                0
            },
        );
        if last_end(front) != 0 {
            let k = choose|k: int|
                0 <= k < front.len() && (#[trigger] front[k]).0 + front[k].1 == last_end(front);
            assert(parts[k] == front[k]);
        }
        if i < front.len() {
            assert(front[i] == parts[i]);
        }
    } else {
        assert(last_end(front) == 0);
    }
    assert(parts[parts.len() - 1].0 + parts[parts.len() - 1].1 >= 0);
}

/// Where a persistence partition goes and why there is none, in terms of the first
/// MiB boundary behind all partitions: it starts there; without a partition, on a
/// full MBR, without room and where less than 2 MiB would come of it, it is
/// refused, for the first of these reasons.
pub proof fn law_place_of_persistence(
    is_gpt: bool,
    parts: Seq<(int, int)>,
    total: int,
    mib: int,
    boundary: int,
)
    requires
        0 <= total,
        0 <= mib,
        boundary % 2048 == 0,
        last_end(parts) <= boundary < last_end(parts) + 2048,
    ensures
        ({
            let r = persist_extent(is_gpt, parts, total, mib);
            let end = if !is_gpt {
                total
            } else if total >= 128 {
                total - 128
            } else {
                0
            };
            let room = end - boundary;
            let small = mib < 2 || room < 4096;
            &&& r is Ok ==> r->Ok_0.0 == boundary
            &&& r == Err::<(int, int), PersistError>(PersistError::NoPartitions) <==> parts.len()
                == 0
            &&& r == Err::<(int, int), PersistError>(PersistError::TableFull) <==> parts.len() >= 4
                && !is_gpt
            &&& r == Err::<(int, int), PersistError>(PersistError::NoSpace) <==> parts.len() > 0 && (
            is_gpt || parts.len() < 4) && room <= 1
            &&& r == Err::<(int, int), PersistError>(PersistError::TooSmall) <==> parts.len() > 0
                && (is_gpt || parts.len() < 4) && room > 1 && small
        }),
{
    assert(crate::partition::align_mib(last_end(parts)) == boundary);
}

// ---- scans ------------------------------------------------------------------------------

/// A job with a scan runs it before the plan, whose steps are as without one;
/// what the scan says takes its place, and after a defect nothing else happens.
pub proof fn law_scan_then_plan(
    dev: Seq<char>,
    plan: FlashPlan,
    mode: BadBlocks,
    facts: Facts,
    out: Seq<char>,
)
    ensures
        ({
            let all = job_steps(dev, plan, Some(mode), facts);
            let after = steps_after_scan(all, 1, out);
            let bad = last_count(lines(out));
            &&& job_steps(dev, plan, None, facts) == plan_steps(dev, plan, facts)
            &&& all.len() == 2 + plan_steps(dev, plan, facts).len()
            &&& all[0] == StepModel::Tick("checking bad blocks"@)
            &&& all[1] matches StepModel::Scan(t) && t.cmd == (CmdModel {
                program: "badblocks"@,
                args: seq![
                    if mode == BadBlocks::Fast {
                        "-sv"@
                    } else {
                        "-wsv"@
                    },
                    "-b"@,
                    "4096"@,
                    dev,
                ],
                stdin: None,
            })
            &&& all.skip(2) == plan_steps(dev, plan, facts)
            &&& after[0] == all[0]
            &&& bad > 0 ==> after.len() == 2 && after[1] == StepModel::Fail(
                dec(bad as nat) + " bad sectors detected — aborting to protect your data"@,
            )
            &&& bad <= 0 ==> after.len() == all.len() && after[1] == StepModel::Tick(
                "bad-block scan clean"@,
            ) && after.skip(2)
                == plan_steps(dev, plan, facts)
        }),
{
    let p = plan_steps(dev, plan, facts);
    let all = job_steps(dev, plan, Some(mode), facts);
    assert(all.skip(2) =~= p);
    let after = steps_after_scan(all, 1, out);
    if last_count(lines(out)) <= 0 {
        assert(after.skip(2) =~= p);
    }
}

// ---- the words at the end -----------------------------------------------------------------

/// The table of a plan in words.
pub open spec fn table_word(scheme: PartitionScheme) -> Seq<char> {
    if scheme == PartitionScheme::Gpt {
        "GPT"@
    } else {
        "MBR"@
    }
}

/// What is said when a plan is done.
#[verifier::rlimit(40)]
pub proof fn law_words_of_a_plan(dev: Seq<char>, plan: FlashPlan, facts: Facts)
    ensures
        ({
            let end = plan_steps(dev, plan, facts).last();
            &&& plan matches FlashPlan::FormatDevice { scheme, fs, .. } ==> end
                == StepModel::Finish(
                "Formatted "@ + dev + " as "@ + uppercase_of(fs@) + " "@ + table_word(scheme),
            )
            &&& plan matches FlashPlan::WinFat32 { split_wim, scheme, .. } ==> if split_wim {
                end == StepModel::Finish(
                    "Windows USB ready (FAT32"@ + ", split WIM"@ + ", "@ + table_word(scheme)
                        + ")"@,
                )
            } else {
                end == StepModel::Finish(
                    "Windows USB ready (FAT32"@ + ", "@ + table_word(scheme) + ")"@,
                )
            }
            &&& plan matches FlashPlan::WinUefiNtfs { scheme, .. } ==> end == StepModel::Finish(
                "Windows USB ready (UEFI:NTFS, "@ + table_word(scheme) + ")"@,
            )
            &&& plan matches FlashPlan::IsoExtract { scheme, syslinux_bios, .. }
                ==> if syslinux_bios {
                end == StepModel::Finish(
                    "Linux USB ready (extracted"@ + " + SYSLINUX"@ + ", "@ + "MBR"@ + ")"@,
                )
            } else {
                end == StepModel::Finish(
                    "Linux USB ready (extracted"@ + ", "@ + table_word(scheme) + ")"@,
                )
            }
        }),
{
    let e = Seq::<char>::empty();
    assert("Windows USB ready (FAT32"@ + e =~= "Windows USB ready (FAT32"@);
    assert("Linux USB ready (extracted"@ + e =~= "Linux USB ready (extracted"@);
}

/// What is said when Windows To Go is done, and why it is not.
#[verifier::rlimit(40)]
pub proof fn law_words_of_togo(dev: Seq<char>, plan: FlashPlan, facts: Facts)
    ensures
        ({
            let s = plan_steps(dev, plan, facts);
            let sectors = facts.sectors as int;
            let entry = facts.entry_guid@;
            &&& plan matches FlashPlan::WinToGo { scheme, persist_mib, .. } ==> {
                let ready = "Windows To Go ready ("@ + "GPT"@ + ", entry "@ + entry;
                &&& scheme == PartitionScheme::Mbr ==> s == seq![
                    StepModel::Fail(
                        "Windows To Go requires GPT (UEFI boot); pick the GPT scheme"@,
                    ),
                ]
                &&& scheme == PartitionScheme::Gpt && togo_parts(sectors, persist_mib as int) is None
                    ==> s == seq![
                    StepModel::Fail(
                        "not enough space left on the device for the data partition"@,
                    ),
                ]
                &&& scheme == PartitionScheme::Gpt && persist_mib == 0 ==> s.last()
                    == StepModel::Finish(ready + ")"@)
                &&& scheme == PartitionScheme::Gpt && persist_mib > 0 && togo_parts(
                    sectors,
                    persist_mib as int,
                ) is Some ==> s.last() == StepModel::Finish(
                    ready + (", +"@ + dec(persist_mib as nat) + " MiB data"@) + ")"@,
                )
            }
            &&& plan matches FlashPlan::WinToGoVhdx { scheme, persist_mib, vhdx_size_mib, .. } ==> {
                let mib = capacity(vhdx_size_mib as int, facts.image_bytes as int);
                let ready = "Windows To Go (VHDX) ready ("@ + "GPT"@ + ", entry "@ + entry + ", "@
                    + dec(mib as nat) + " MiB"@;
                &&& scheme == PartitionScheme::Mbr ==> s == seq![
                    StepModel::Fail(
                        "Windows To Go VHDX requires GPT (UEFI boot); pick the GPT scheme"@,
                    ),
                ]
                &&& scheme == PartitionScheme::Gpt && togo_parts(sectors, persist_mib as int) is None
                    ==> s == seq![
                    StepModel::Fail(
                        "not enough space left on the device for the data partition"@,
                    ),
                ]
                &&& scheme == PartitionScheme::Gpt && persist_mib == 0 ==> s.last()
                    == StepModel::Finish(ready + ")"@)
                &&& scheme == PartitionScheme::Gpt && persist_mib > 0 && togo_parts(
                    sectors,
                    persist_mib as int,
                ) is Some ==> s.last() == StepModel::Finish(
                    ready + (", +"@ + dec(persist_mib as nat) + " MiB data"@) + ")"@,
                )
            }
        }),
{
    let e = Seq::<char>::empty();
    let entry = facts.entry_guid@;
    let a = "Windows To Go ready ("@ + "GPT"@ + ", entry "@ + entry;
    assert(a + e =~= a);
    if let FlashPlan::WinToGoVhdx { vhdx_size_mib, .. } = plan {
        let mib = capacity(vhdx_size_mib as int, facts.image_bytes as int);
        let b = "Windows To Go (VHDX) ready ("@ + "GPT"@ + ", entry "@ + entry + ", "@ + dec(
            mib as nat,
        ) + " MiB"@;
        assert(b + e =~= b);
    }
}

// ---- table dumps ------------------------------------------------------------------------

proof fn lemma_found(hay: Seq<char>, needle: Seq<char>, n: int)
    requires
        at(hay, needle, n),
        forall|j: int| 0 <= j < n ==> !#[trigger] at(hay, needle, j),
    ensures
        find(hay, needle) == Some(n),
{
    law_find_is_first(hay, needle);
    let k = find(hay, needle)->0;
    if k < n {
        assert(at(hay, needle, k));
    } else if k > n {
        assert(!at(hay, needle, n));
    }
}

proof fn lemma_trim_spaces(gap: Seq<char>, s: Seq<char>)
    requires
        forall|i: int| 0 <= i < gap.len() ==> is_space(#[trigger] gap[i]),
        s.len() > 0,
        !is_space(s[0]),
    ensures
        trim_start(gap + s) == s,
    decreases gap.len(),
{
    if gap.len() > 0 {
        let rest = gap.drop_first();
        assert((gap + s)[0] == gap[0]);
        assert((gap + s).drop_first() =~= rest + s);
        assert forall|i: int| 0 <= i < rest.len() implies is_space(#[trigger] rest[i]) by {
            assert(rest[i] == gap[i + 1]);
        }
        lemma_trim_spaces(rest, s);
    } else {
        assert(gap + s =~= s);
    }
}

proof fn lemma_run(digits: Seq<char>, rest: Seq<char>)
    requires
        forall|i: int| 0 <= i < digits.len() ==> is_digit(#[trigger] digits[i]),
        rest.len() == 0 || !is_digit(rest[0]),
    ensures
        digit_run(digits + rest) == digits.len(),
    decreases digits.len(),
{
    let s = digits + rest;
    if digits.len() > 0 {
        assert(s[0] == digits[0]);
        assert(s.drop_first() =~= digits.drop_first() + rest);
        assert forall|i: int| 0 <= i < digits.drop_first().len() implies is_digit(
            #[trigger] digits.drop_first()[i],
        ) by {
            assert(digits.drop_first()[i] == digits[i + 1]);
        }
        lemma_run(digits.drop_first(), rest);
    } else if rest.len() > 0 {
        assert(s[0] == rest[0]);
    }
}

/// A number behind a key is read, whatever white space is between the two.
#[verifier::rlimit(40)]
pub proof fn law_number_after(
    front: Seq<char>,
    key: Seq<char>,
    gap: Seq<char>,
    n: nat,
    rest: Seq<char>,
)
    requires
        n <= 0xFFFF_FFFF_FFFF_FFFF,
        forall|i: int| 0 <= i < gap.len() ==> is_space(#[trigger] gap[i]),
        rest.len() == 0 || !is_digit(rest[0]),
        find(front + key + gap + dec(n) + rest, key) == Some(front.len() as int),
    ensures
        number_after(front + key + gap + dec(n) + rest, key) == Some(n as int),
{
    let s = front + key + gap + dec(n) + rest;
    lemma_dec_shape(n);
    law_dec_parses(n, u64::MAX as int);
    let tail = gap + (dec(n) + rest);
    assert(s.skip(front.len() as int + key.len()) =~= tail);
    assert((dec(n) + rest)[0] == dec(n)[0]);
    lemma_trim_spaces(gap, dec(n) + rest);
    lemma_run(dec(n), rest);
    assert((dec(n) + rest).take(dec(n).len() as int) =~= dec(n));
}

/// A line of a dump.
pub open spec fn dump_line(
    node: Seq<char>,
    gap1: Seq<char>,
    start: nat,
    gap2: Seq<char>,
    size: nat,
    rest: Seq<char>,
) -> Seq<char> {
    node + " : start="@ + gap1 + dec(start) + ", size="@ + gap2 + dec(size) + rest
}

proof fn lemma_colon(node: Seq<char>, tail: Seq<char>)
    requires
        !node.contains(':'),
    ensures
        find(node + " : start="@ + tail, ":"@) == Some(node.len() as int + 1),
{
    reveal_strlit(" : start=");
    reveal_strlit(":");
    let line = node + " : start="@ + tail;
    let c = node.len() as int + 1;
    assert(line.subrange(c, c + 1) =~= ":"@);
    assert forall|j: int| 0 <= j < c implies !#[trigger] at(line, ":"@, j) by {
        if at(line, ":"@, j) {
            assert(line.subrange(j, j + 1)[0] == ':');
            assert(line[j] == ':');
            if j < node.len() {
                assert(node[j] == ':');
            }
        }
    }
    lemma_found(line, ":"@, c);
}

proof fn lemma_start_key(node: Seq<char>, tail: Seq<char>)
    requires
        !node.contains('='),
    ensures
        find(node + " : start="@ + tail, "start="@) == Some(node.len() as int + 3),
{
    reveal_strlit(" : start=");
    reveal_strlit("start=");
    let line = node + " : start="@ + tail;
    let k = "start="@;
    let n = node.len() as int + 3;
    assert(line.subrange(n, n + 6) =~= k);
    assert forall|j: int| 0 <= j < n implies !#[trigger] at(line, k, j) by {
        if at(line, k, j) {
            assert(line.subrange(j, j + 6)[5] == '=');
            assert(line[j + 5] == '=');
            if j + 5 < node.len() {
                assert(node[j + 5] == '=');
            } else {
                let m = j + 5 - node.len();
                assert(m < 8);
                assert(line[j + 5] == " : start="@[m]);
            }
        }
    }
    lemma_found(line, k, n);
}

#[verifier::rlimit(40)]
proof fn lemma_size_key(gap1: Seq<char>, start: nat, tail: Seq<char>)
    requires
        forall|i: int| 0 <= i < gap1.len() ==> #[trigger] gap1[i] == ' ',
    ensures
        find(": start="@ + gap1 + dec(start) + ", "@ + "size="@ + tail, "size="@) == Some(
            (": start="@ + gap1 + dec(start) + ", "@).len() as int,
        ),
{
    reveal_strlit(": start=");
    reveal_strlit(", ");
    reveal_strlit("size=");
    lemma_dec_shape(start);
    let z = "size="@;
    let b = ": start="@ + gap1 + dec(start) + ", "@;
    let below = b + z + tail;
    let n = b.len() as int;
    assert(below.subrange(n, n + 5) =~= z);
    assert forall|j: int| 0 <= j < n implies !#[trigger] at(below, z, j) by {
        if at(below, z, j) {
            let w = below.subrange(j, j + 5);
            assert(w[0] == 's' && w[1] == 'i');
            assert(below[j] == 's' && below[j + 1] == 'i');
            if j < 8 {
                assert(below[j] == ": start="@[j]);
                assert(j == 2);
                assert(below[3] == ": start="@[3]);
            } else if j < 8 + gap1.len() {
                assert(below[j] == gap1[j - 8]);
            } else if j < 8 + gap1.len() + dec(start).len() {
                assert(below[j] == dec(start)[j - 8 - gap1.len()]);
                assert(is_digit(dec(start)[j - 8 - gap1.len()]));
            } else {
                assert(below[j] == ", "@[j - 8 - gap1.len() - dec(start).len()]);
            }
        }
    }
    lemma_found(below, z, n);
}

/// A line, seen from its two keys.
#[verifier::rlimit(40)]
proof fn lemma_line_shape(
    node: Seq<char>,
    gap1: Seq<char>,
    d1: Seq<char>,
    gap2: Seq<char>,
    d2: Seq<char>,
    rest: Seq<char>,
)
    ensures
        ({
            let line = node + " : start="@ + gap1 + d1 + ", size="@ + gap2 + d2 + rest;
            let t = ", size="@ + gap2 + d2 + rest;
            let b = ": start="@ + gap1 + d1 + ", "@;
            &&& line == node + " : start="@ + (gap1 + d1 + t)
            &&& line == node + seq![' ', ':', ' '] + "start="@ + gap1 + d1 + t
            &&& line.skip(node.len() as int + 1) == b + "size="@ + (gap2 + d2 + rest)
            &&& b + "size="@ + (gap2 + d2 + rest) == b + "size="@ + gap2 + d2 + rest
            &&& t[0] == ','
        }),
{
    reveal_strlit(" : start=");
    reveal_strlit("start=");
    reveal_strlit(": start=");
    reveal_strlit(", size=");
    reveal_strlit(", ");
    reveal_strlit("size=");
    let line = node + " : start="@ + gap1 + d1 + ", size="@ + gap2 + d2 + rest;
    let t = ", size="@ + gap2 + d2 + rest;
    let b = ": start="@ + gap1 + d1 + ", "@;
    assert(line =~= node + " : start="@ + (gap1 + d1 + t));
    assert(line =~= node + seq![' ', ':', ' '] + "start="@ + gap1 + d1 + t);
    assert(line.skip(node.len() as int + 1) =~= b + "size="@ + (gap2 + d2 + rest));
    assert(b + "size="@ + (gap2 + d2 + rest) =~= b + "size="@ + gap2 + d2 + rest);
}

proof fn lemma_all_spaces(gap: Seq<char>)
    requires
        forall|i: int| 0 <= i < gap.len() ==> #[trigger] gap[i] == ' ',
    ensures
        forall|i: int| 0 <= i < gap.len() ==> is_space(#[trigger] gap[i]),
{
}

/// A line of a dump tells start and size of a partition.
#[verifier::rlimit(40)]
pub proof fn law_dump_line(
    node: Seq<char>,
    gap1: Seq<char>,
    start: nat,
    gap2: Seq<char>,
    size: nat,
    rest: Seq<char>,
)
    requires
        start <= 0xFFFF_FFFF_FFFF_FFFF,
        size <= 0xFFFF_FFFF_FFFF_FFFF,
        !node.contains(':'),
        !node.contains('='),
        forall|i: int| 0 <= i < gap1.len() ==> #[trigger] gap1[i] == ' ',
        forall|i: int| 0 <= i < gap2.len() ==> #[trigger] gap2[i] == ' ',
        rest.len() == 0 || !is_digit(rest[0]),
    ensures
        line_extent(dump_line(node, gap1, start, gap2, size, rest)) == Some(
            (start as int, size as int),
        ),
{
    let line = dump_line(node, gap1, start, gap2, size, rest);
    let t = ", size="@ + gap2 + dec(size) + rest;
    let b = ": start="@ + gap1 + dec(start) + ", "@;
    let a = node + seq![' ', ':', ' '];
    lemma_line_shape(node, gap1, dec(start), gap2, dec(size), rest);
    lemma_colon(node, gap1 + dec(start) + t);
    lemma_start_key(node, gap1 + dec(start) + t);
    lemma_size_key(gap1, start, gap2 + dec(size) + rest);
    lemma_all_spaces(gap1);
    lemma_all_spaces(gap2);
    assert(a.len() == node.len() + 3);
    law_number_after(a, "start="@, gap1, start, t);
    law_number_after(b, "size="@, gap2, size, rest);
}

/// The partitions of a dump are those that its lines tell, in order; it is a GPT
/// if and only if a line says so.
pub proof fn law_dump(ls: Seq<Seq<char>>, line: Seq<char>)
    ensures
        extents(seq![]).len() == 0,
        line_extent(line) is Some ==> extents(ls.push(line)) == extents(ls).push(
            line_extent(line)->0,
        ),
        line_extent(line) is None ==> extents(ls.push(line)) == extents(ls),
        says_gpt(ls.push(line)) <==> says_gpt(ls) || starts_with(line, "label: gpt"@),
        !says_gpt(seq![]),
{
    let all = ls.push(line);
    assert(all.drop_last() =~= ls);
    if says_gpt(all) {
        let i = choose|i: int| 0 <= i < all.len() && starts_with(#[trigger] all[i], "label: gpt"@);
        if i < ls.len() {
            assert(ls[i] == all[i]);
        }
    }
    if says_gpt(ls) {
        let i = choose|i: int| 0 <= i < ls.len() && starts_with(#[trigger] ls[i], "label: gpt"@);
        assert(all[i] == ls[i]);
    }
    assert(all[ls.len() as int] == line);
}

/// A line without a colon tells of no partition.
pub proof fn law_other_lines(line: Seq<char>)
    requires
        !line.contains(':'),
    ensures
        line_extent(line) is None,
{
    reveal_strlit(":");
    law_find_is_first(line, ":"@);
    if find(line, ":"@) is Some {
        let k = find(line, ":"@)->0;
        assert(line.subrange(k, k + 1)[0] == ':');
        assert(line[k] == ':');
    }
}

} // verus!
