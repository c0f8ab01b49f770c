//! What holds of the steps of every plan: that they end once and leave nothing
//! mounted, that refusals come before anything else, and when an answer file is
//! written.

use crate::disk_image::capacity;
use crate::execute::{job_steps, plan_steps};
use crate::flash::{
    bootable, copy_in_steps, extract_scheme, extract_steps, fat_part, layout_steps, mkfs_step,
    persistence_steps, raw_steps, scan_steps, scan_verdict, setup_steps, steps_after_scan, typed,
    uefi_ntfs_parts, unmount_steps, wait_step, Facts, Slot, StepModel,
};
use crate::format::{bad_blocks_task, last_count};
use crate::partition::{data_model, node_of, PartModel};
use crate::protocol::{BadBlocks, FlashPlan, PartitionScheme, WinOptions};
use crate::text::{dec, lines};
use crate::togo::{
    boot_steps, disk_steps, installed_steps, togo_format_steps, togo_parts, vhdx_path,
};
use vstd::prelude::*;

verus! {

/// A step that ends the job.
pub open spec fn ends_job(s: StepModel) -> bool {
    s is Finish || s is FinishPersistent || s is Fail
}

/// No step ends the job.
pub open spec fn goes_on(s: Seq<StepModel>) -> bool {
    forall|i: int| 0 <= i < s.len() ==> !ends_job(#[trigger] s[i])
}

/// The steps go on up to the last, which ends the job.
pub open spec fn ends_once(s: Seq<StepModel>) -> bool {
    s.len() > 0 && ends_job(s.last()) && goes_on(s.drop_last())
}

/// Whether a step mounts something in `slot`.
pub open spec fn mounts(s: StepModel, slot: Slot) -> bool {
    match s {
        StepModel::MountImage(_) => slot == Slot::Iso,
        StepModel::Mount(x, _) => x == slot,
        StepModel::MountDisk => slot == Slot::Disk,
        _ => false,
    }
}

/// Whether a step unmounts `slot`.
pub open spec fn unmounts(s: StepModel, slot: Slot) -> bool {
    match s {
        StepModel::Unmount(x) => x == slot,
        StepModel::Release(x) => x == slot,
        _ => false,
    }
}

/// Whether `slot` is unmounted behind step `i`.
pub open spec fn unmounted_behind(s: Seq<StepModel>, i: int, slot: Slot) -> bool {
    exists|j: int| i < j < s.len() && #[trigger] unmounts(s[j], slot)
}

/// Whatever is mounted is unmounted again; image and target may stay mounted
/// where `open` says so.
pub open spec fn tidy(s: Seq<StepModel>, open: bool) -> bool {
    forall|slot: Slot, i: int|
        #![trigger mounts(s[i], slot)]
        0 <= i < s.len() && mounts(s[i], slot) ==> (open && (slot == Slot::Iso || slot
            == Slot::Target)) || unmounted_behind(s, i, slot)
}

/// Goes on, and leaves at most the image and the target mounted.
spec fn part(s: Seq<StepModel>) -> bool {
    goes_on(s) && tidy(s, true)
}

/// Ends the job, unmounts image and target, and mounts nothing.
spec fn closing(s: Seq<StepModel>) -> bool {
    &&& ends_once(s)
    &&& tidy(s, false)
    &&& unmounted_behind(s, -1, Slot::Iso)
    &&& unmounted_behind(s, -1, Slot::Target)
}

proof fn lemma_add(a: Seq<StepModel>, b: Seq<StepModel>)
    requires
        part(a),
        part(b),
    ensures
        part(a + b),
{
    let s = a + b;
    assert forall|slot: Slot, i: int|
        #![trigger mounts(s[i], slot)]
        0 <= i < s.len() && mounts(s[i], slot) && slot != Slot::Iso && slot
            != Slot::Target implies unmounted_behind(s, i, slot) by {
        if i < a.len() {
            assert(mounts(a[i], slot));
            let j = choose|j: int| i < j < a.len() && #[trigger] unmounts(a[j], slot);
            assert(unmounts(s[j], slot));
        } else {
            assert(mounts(b[i - a.len()], slot));
            let j = choose|j: int|
                i - a.len() < j < b.len() && #[trigger] unmounts(b[j], slot);
            assert(unmounts(s[j + a.len()], slot));
        }
    }
}

proof fn lemma_close(a: Seq<StepModel>, b: Seq<StepModel>)
    requires
        part(a),
        closing(b),
    ensures
        ends_once(a + b),
        tidy(a + b, false),
{
    let s = a + b;
    assert forall|i: int| 0 <= i < s.drop_last().len() implies !ends_job(
        #[trigger] s.drop_last()[i],
    ) by {
        if i < a.len() {
            assert(s.drop_last()[i] == a[i]);
        } else {
            assert(s.drop_last()[i] == b.drop_last()[i - a.len()]);
        }
    }
    assert forall|slot: Slot, i: int|
        #![trigger mounts(s[i], slot)]
        0 <= i < s.len() && mounts(s[i], slot) implies unmounted_behind(s, i, slot) by {
        if i < a.len() {
            assert(mounts(a[i], slot));
            if slot == Slot::Iso || slot == Slot::Target {
                let j = choose|j: int| -1 < j < b.len() && #[trigger] unmounts(b[j], slot);
                assert(unmounts(s[j + a.len()], slot));
            } else {
                let j = choose|j: int| i < j < a.len() && #[trigger] unmounts(a[j], slot);
                assert(unmounts(s[j], slot));
            }
        } else {
            assert(mounts(b[i - a.len()], slot));
            let j = choose|j: int|
                i - a.len() < j < b.len() && #[trigger] unmounts(b[j], slot);
            assert(unmounts(s[j + a.len()], slot));
        }
    }
}

proof fn lemma_shared_parts(
    dev: Seq<char>,
    scheme: PartitionScheme,
    parts: Seq<PartModel>,
    image: Seq<char>,
    node: Seq<char>,
    limit: Option<u64>,
    split: bool,
    options: WinOptions,
)
    ensures
        part(layout_steps(dev, scheme, parts)),
        part(copy_in_steps(image, node, limit, split)),
        part(setup_steps(options)),
{
    reveal(layout_steps);
    reveal(copy_in_steps);
    reveal(setup_steps);
}

proof fn lemma_togo_parts(
    dev: Seq<char>,
    data: bool,
    options: WinOptions,
    vhdx: Option<Seq<char>>,
    entry: Seq<char>,
)
    ensures
        part(togo_format_steps(dev, data)),
        part(installed_steps(Slot::Target, options)),
        part(boot_steps(dev, vhdx, entry)),
{
    reveal(togo_format_steps);
    reveal(installed_steps);
    reveal(boot_steps);
    let b = boot_steps(dev, vhdx, entry);
    assert(unmounts(b[4], Slot::Esp));
}

proof fn lemma_disk_part(
    dev: Seq<char>,
    image: Seq<char>,
    wim_index: int,
    mib: int,
    options: WinOptions,
)
    ensures
        part(disk_steps(dev, image, wim_index, mib, options)),
{
    reveal(disk_steps);
    reveal(installed_steps);
    let d = disk_steps(dev, image, wim_index, mib, options);
    let n = d.len() as int;
    assert(unmounts(d[n - 2], Slot::Disk));
    assert forall|slot: Slot, i: int|
        #![trigger mounts(d[i], slot)]
        0 <= i < d.len() && mounts(d[i], slot) implies slot == Slot::Iso || slot == Slot::Target
        || unmounted_behind(d, i, slot) by {
        if slot == Slot::Disk {
            assert(i < n - 2);
        }
    }
}

/// Unmounting image and target, and the end.
proof fn lemma_unmount_close(x: StepModel, y: StepModel)
    requires
        ends_job(y),
        !ends_job(x),
        forall|slot: Slot| !mounts(x, slot),
        forall|slot: Slot| !mounts(y, slot),
    ensures
        closing(unmount_steps() + seq![x, y]),
{
    reveal(unmount_steps);
    let s = unmount_steps() + seq![x, y];
    assert(s =~= seq![StepModel::Unmount(Slot::Target), StepModel::Unmount(Slot::Iso), x, y]);
    assert(unmounts(s[0], Slot::Target));
    assert(unmounts(s[1], Slot::Iso));
}

/// In every plan the steps end in one step that ends the job and in no other,
/// and whatever a plan that runs to its end has mounted is unmounted again.
pub proof fn law_plan_is_orderly(dev: Seq<char>, plan: FlashPlan, facts: Facts)
    ensures
        ends_once(plan_steps(dev, plan, facts)),
        tidy(plan_steps(dev, plan, facts), false),
{
    match plan {
        FlashPlan::RawDd { .. } => {},
        FlashPlan::FormatDevice { scheme, fs, old_bios_align, .. } => {
            lemma_format_orderly(dev, plan, facts);
        },
        FlashPlan::WinFat32 { .. } => {
            lemma_fat32_orderly(dev, plan, facts);
        },
        FlashPlan::WinUefiNtfs { .. } => {
            lemma_uefi_ntfs_orderly(dev, plan, facts);
        },
        FlashPlan::IsoExtract { .. } => {
            lemma_extract_orderly(dev, plan, facts);
        },
        FlashPlan::WinToGo { .. } => {
            lemma_togo_orderly(dev, plan, facts);
        },
        FlashPlan::WinToGoVhdx { .. } => {
            lemma_togo_vhdx_orderly(dev, plan, facts);
        },
    }
}

proof fn lemma_format_orderly(dev: Seq<char>, plan: FlashPlan, facts: Facts)
    requires
        plan is FormatDevice,
    ensures
        ends_once(plan_steps(dev, plan, facts)),
        tidy(plan_steps(dev, plan, facts), false),
{
    reveal(layout_steps);
}

proof fn lemma_fat32_orderly(dev: Seq<char>, plan: FlashPlan, facts: Facts)
    requires
        plan is WinFat32,
    ensures
        ends_once(plan_steps(dev, plan, facts)),
        tidy(plan_steps(dev, plan, facts), false),
{
    if let FlashPlan::WinFat32 { image, split_wim, scheme, options } = plan {
        let s = plan_steps(dev, plan, facts);
        let node = node_of(dev, 1);
        let limit = Some(facts.split_limit);
        let parts = seq![fat_part(scheme)];
        lemma_shared_parts(dev, scheme, parts, image@, node, limit, split_wim, options);
        let a = layout_steps(dev, scheme, parts);
        let b = seq![
            wait_step(node),
            StepModel::Tick("formatting"@),
            mkfs_step("FAT32"@, "FERRUS"@, node, None),
        ];
        let c = copy_in_steps(image@, node, limit, split_wim);
        let d = setup_steps(options);
        let x = s[s.len() - 2];
        let y = s[s.len() - 1];
        assert(part(b));
        lemma_add(a, b);
        lemma_add(a + b, c);
        lemma_add(a + b + c, d);
        lemma_unmount_close(x, y);
        assert(s =~= (a + b + c + d) + (unmount_steps() + seq![x, y]));
        lemma_close(a + b + c + d, unmount_steps() + seq![x, y]);
    }
}

proof fn lemma_uefi_ntfs_orderly(dev: Seq<char>, plan: FlashPlan, facts: Facts)
    requires
        plan is WinUefiNtfs,
    ensures
        ends_once(plan_steps(dev, plan, facts)),
        tidy(plan_steps(dev, plan, facts), false),
{
    if let FlashPlan::WinUefiNtfs { image, scheme, options } = plan {
        let s = plan_steps(dev, plan, facts);
        let n1 = node_of(dev, 1);
        let n2 = node_of(dev, 2);
        let parts = uefi_ntfs_parts();
        lemma_shared_parts(dev, scheme, parts, image@, n2, None, false, options);
        let z = seq![StepModel::LocateLoader];
        let a = layout_steps(dev, scheme, parts);
        let b = seq![
            wait_step(n1),
            wait_step(n2),
            StepModel::Tick("writing UEFI:NTFS bootloader"@),
            StepModel::WriteLoader(n1),
            StepModel::Tick("formatting"@),
            mkfs_step("NTFS"@, "WININSTALL"@, n2, None),
        ];
        let c = copy_in_steps(image@, n2, None, false);
        let d = setup_steps(options);
        let x = s[s.len() - 2];
        let y = s[s.len() - 1];
        assert(part(z));
        assert(part(b));
        lemma_add(z, a);
        lemma_add(z + a, b);
        lemma_add(z + a + b, c);
        lemma_add(z + a + b + c, d);
        lemma_unmount_close(x, y);
        assert(s =~= (z + a + b + c + d) + (unmount_steps() + seq![x, y]));
        lemma_close(z + a + b + c + d, unmount_steps() + seq![x, y]);
    }
}

proof fn lemma_extract_orderly(dev: Seq<char>, plan: FlashPlan, facts: Facts)
    requires
        plan is IsoExtract,
    ensures
        ends_once(plan_steps(dev, plan, facts)),
        tidy(plan_steps(dev, plan, facts), false),
{
    if let FlashPlan::IsoExtract { image, scheme, syslinux_bios } = plan {
        let s = plan_steps(dev, plan, facts);
        let bios = syslinux_bios;
        let node = node_of(dev, 1);
        let table = extract_scheme(scheme, bios);
        let parts = seq![
            bootable(
                typed(
                    data_model("LIVE"@, None, false),
                    "0c"@,
                ),
                bios,
            ),
        ];
        let none = WinOptions {
            hw_bypass: false,
            no_online_account: false,
            no_bitlocker: false,
        };
        lemma_shared_parts(dev, table, parts, image@, node, None, false, none);
        let z: Seq<StepModel> = if bios && scheme == PartitionScheme::Gpt {
            seq![StepModel::Tick("forcing MBR (SYSLINUX BIOS requirement)"@)]
        } else {
            seq![]
        };
        let a = layout_steps(dev, table, parts);
        let b = seq![
            wait_step(node),
            StepModel::Tick("formatting"@),
            mkfs_step("FAT32"@, "LIVE"@, node, None),
        ];
        let c = copy_in_steps(image@, node, None, false);
        let d: Seq<StepModel> = if bios {
            seq![StepModel::PrepSyslinux]
        } else {
            seq![]
        };
        let e: Seq<StepModel> = if bios {
            seq![
                StepModel::Tick("installing SYSLINUX"@),
                StepModel::InstallSyslinux(node),
                StepModel::WriteMbr,
            ]
        } else {
            seq![]
        };
        let x = s[s.len() - 2];
        let y = s[s.len() - 1];
        let u = unmount_steps();
        assert(part(z) && part(b) && part(d));
        lemma_add(z, a);
        lemma_add(z + a, b);
        lemma_add(z + a + b, c);
        lemma_add(z + a + b + c, d);
        let t = u + e + seq![x, y];
        assert(closing(t)) by {
            reveal(unmount_steps);
            assert(unmounts(t[0], Slot::Target));
            assert(unmounts(t[1], Slot::Iso));
        }
        assert(s =~= (z + a + b + c + d) + t);
        lemma_close(z + a + b + c + d, t);
    }
}

proof fn lemma_togo_orderly(dev: Seq<char>, plan: FlashPlan, facts: Facts)
    requires
        plan is WinToGo,
    ensures
        ends_once(plan_steps(dev, plan, facts)),
        tidy(plan_steps(dev, plan, facts), false),
{
    if let FlashPlan::WinToGo { image, wim_index, persist_mib, scheme, options } = plan {
        let s = plan_steps(dev, plan, facts);
        if let Some(parts) = togo_parts(facts.sectors as int, persist_mib as int) {
            if scheme == PartitionScheme::Gpt {
                let node = node_of(dev, 2);
                lemma_shared_parts(dev, scheme, parts, image@, node, None, false, options);
                lemma_togo_parts(dev, persist_mib > 0, options, None, facts.entry_guid@);
                let a = layout_steps(dev, PartitionScheme::Gpt, parts);
                let b = togo_format_steps(dev, persist_mib > 0);
                let c = seq![
                    StepModel::Tick("applying Windows image"@),
                    StepModel::MountImage(image@),
                    StepModel::LocateWim,
                    StepModel::Mount(Slot::Target, node),
                    StepModel::ApplyWim(wim_index as int, Slot::Target),
                ];
                let d = installed_steps(Slot::Target, options);
                let e = boot_steps(dev, None, facts.entry_guid@);
                let x = s[s.len() - 2];
                let y = s[s.len() - 1];
                assert(part(c));
                lemma_add(a, b);
                lemma_add(a + b, c);
                lemma_add(a + b + c, d);
                lemma_add(a + b + c + d, e);
                let t = seq![
                    StepModel::Unmount(Slot::Target),
                    StepModel::Unmount(Slot::Iso),
                    x,
                    y,
                ];
                assert(closing(t)) by {
                    assert(unmounts(t[0], Slot::Target));
                    assert(unmounts(t[1], Slot::Iso));
                }
                assert(s =~= (a + b + c + d + e) + t);
                lemma_close(a + b + c + d + e, t);
            }
        }
    }
}

proof fn lemma_togo_vhdx_orderly(dev: Seq<char>, plan: FlashPlan, facts: Facts)
    requires
        plan is WinToGoVhdx,
    ensures
        ends_once(plan_steps(dev, plan, facts)),
        tidy(plan_steps(dev, plan, facts), false),
{
    if let FlashPlan::WinToGoVhdx {
        image,
        wim_index,
        vhdx_size_mib,
        persist_mib,
        scheme,
        options,
    } = plan {
        let s = plan_steps(dev, plan, facts);
        let mib = capacity(vhdx_size_mib as int, facts.image_bytes as int);
        if let Some(parts) = togo_parts(facts.sectors as int, persist_mib as int) {
            if scheme == PartitionScheme::Gpt {
                let path = Some(vhdx_path());
                lemma_shared_parts(dev, scheme, parts, image@, dev, None, false, options);
                lemma_togo_parts(dev, persist_mib > 0, options, path, facts.entry_guid@);
                lemma_disk_part(dev, image@, wim_index as int, mib, options);
                let a = layout_steps(dev, PartitionScheme::Gpt, parts);
                let b = togo_format_steps(dev, persist_mib > 0);
                let c = disk_steps(dev, image@, wim_index as int, mib, options);
                let d = boot_steps(dev, path, facts.entry_guid@);
                lemma_add(a, b);
                lemma_add(a + b, c);
                lemma_add(a + b + c, d);
                let x = s[s.len() - 3];
                let y = s[s.len() - 1];
                let t = seq![
                    StepModel::Unmount(Slot::Iso),
                    x,
                    StepModel::Release(Slot::Target),
                    y,
                ];
                assert(closing(t)) by {
                    assert(unmounts(t[0], Slot::Iso));
                    assert(unmounts(t[2], Slot::Target));
                }
                assert(s =~= (a + b + c + d) + t);
                lemma_close(a + b + c + d, t);
            }
        }
    }
}

proof fn lemma_persistence_part(
    dev: Seq<char>,
    is_gpt: bool,
    count: int,
    start: int,
    size: int,
    label: Seq<char>,
)
    ensures
        goes_on(persistence_steps(dev, is_gpt, count, start, size, label)),
        tidy(persistence_steps(dev, is_gpt, count, start, size, label), false),
{
    let s = persistence_steps(dev, is_gpt, count, start, size, label);
    if label == "persistence"@ {
        assert(unmounts(s[11], Slot::Target));
        assert forall|slot: Slot, i: int|
            #![trigger mounts(s[i], slot)]
            0 <= i < s.len() && mounts(s[i], slot) implies unmounted_behind(s, i, slot) by {
            assert(i == 9 && slot == Slot::Target);
        }
    }
}

/// The steps that append a persistence partition end nothing, and what they
/// mount for `persistence.conf` they unmount again; so a raw write with them in
/// the place of the step that stands for them ends once, too, and leaves nothing
/// mounted.
pub proof fn law_persistence_is_orderly(
    dev: Seq<char>,
    image: Seq<char>,
    verify: bool,
    mb: int,
    is_gpt: bool,
    count: int,
    start: int,
    size: int,
    label: Seq<char>,
)
    requires
        mb > 0,
    ensures
        ({
            let p = persistence_steps(dev, is_gpt, count, start, size, label);
            let raw = raw_steps(dev, image, verify, mb, Some(label));
            let all = raw.take(1) + p + raw.skip(2);
            &&& goes_on(p)
            &&& tidy(p, false)
            &&& raw[1] == StepModel::AddPersistence(mb, label)
            &&& ends_once(all)
            &&& tidy(all, false)
        }),
{
    lemma_persistence_part(dev, is_gpt, count, start, size, label);
    let p = persistence_steps(dev, is_gpt, count, start, size, label);
    let raw = raw_steps(dev, image, verify, mb, Some(label));
    let all = raw.take(1) + p + raw.skip(2);
    assert(all.drop_last() =~= raw.take(1) + p);
    assert forall|slot: Slot, i: int|
        #![trigger mounts(all[i], slot)]
        0 <= i < all.len() && mounts(all[i], slot) implies unmounted_behind(all, i, slot) by {
        assert(1 <= i <= p.len());
        assert(mounts(p[i - 1], slot));
        let j = choose|j: int| i - 1 < j < p.len() && #[trigger] unmounts(p[j], slot);
        assert(unmounts(all[j + 1], slot));
    }
}

/// A sector scan comes before every other step. A defect leaves nothing but the
/// report of it; a clean scan is followed by the plan.
pub proof fn law_scan_goes_first(
    dev: Seq<char>,
    plan: FlashPlan,
    mode: BadBlocks,
    facts: Facts,
    out: Seq<char>,
)
    ensures
        ({
            let steps = job_steps(dev, plan, Some(mode), facts);
            let start = StepModel::Tick("checking bad blocks"@);
            let bad = last_count(lines(out));
            &&& steps[0] == start
            &&& steps[1] == StepModel::Scan(bad_blocks_task(dev, mode))
            &&& steps_after_scan(steps, 1, out) == if bad > 0 {
                seq![
                    start,
                    StepModel::Fail(
                        dec(bad as nat)
                            + " bad sectors detected — aborting to protect your data"@,
                    ),
                ]
            } else {
                seq![start, StepModel::Tick("bad-block scan clean"@)] + plan_steps(
                    dev,
                    plan,
                    facts,
                )
            }
        }),
{
    let steps = job_steps(dev, plan, Some(mode), facts);
    let after = steps_after_scan(steps, 1, out);
    let start = StepModel::Tick("checking bad blocks"@);
    assert(steps.take(1) =~= seq![start]);
    assert(steps.skip(2) =~= plan_steps(dev, plan, facts));
    if last_count(lines(out)) > 0 {
        assert(after =~= seq![start, scan_verdict(out)]);
    } else {
        assert(after =~= seq![start, scan_verdict(out)] + plan_steps(dev, plan, facts));
    }
}

/// Behind a sector scan too, the steps end in one step that ends the job and in
/// no other, and leave nothing mounted.
pub proof fn law_job_is_orderly(
    dev: Seq<char>,
    plan: FlashPlan,
    bad_blocks: Option<BadBlocks>,
    facts: Facts,
)
    ensures
        ends_once(job_steps(dev, plan, bad_blocks, facts)),
        tidy(job_steps(dev, plan, bad_blocks, facts), false),
{
    law_plan_is_orderly(dev, plan, facts);
    if let Some(mode) = bad_blocks {
        let a = scan_steps(dev, mode);
        let b = plan_steps(dev, plan, facts);
        let s = a + b;
        assert(s.drop_last() =~= a + b.drop_last());
        assert forall|slot: Slot, i: int|
            #![trigger mounts(s[i], slot)]
            0 <= i < s.len() && mounts(s[i], slot) implies unmounted_behind(s, i, slot) by {
            if i >= a.len() {
                assert(mounts(b[i - a.len()], slot));
                let j = choose|j: int|
                    i - a.len() < j < b.len() && #[trigger] unmounts(b[j], slot);
                assert(unmounts(s[j + a.len()], slot));
            }
        }
    }
}

/// Windows To Go on an MBR table is refused before the device is touched.
pub proof fn law_togo_needs_gpt(dev: Seq<char>, plan: FlashPlan, facts: Facts)
    requires
        match plan {
            FlashPlan::WinToGo { scheme, .. } => scheme == PartitionScheme::Mbr,
            FlashPlan::WinToGoVhdx { scheme, .. } => scheme == PartitionScheme::Mbr,
            _ => false,
        },
    ensures
        plan_steps(dev, plan, facts).len() == 1,
        plan_steps(dev, plan, facts)[0] is Fail,
{
}

/// A plan that cannot be done says so before anything else: it has no other
/// step.
pub proof fn law_refusals_come_first(dev: Seq<char>, plan: FlashPlan, facts: Facts)
    requires
        plan_steps(dev, plan, facts).last() is Fail,
    ensures
        plan_steps(dev, plan, facts).len() == 1,
{
}

/// BIOS booting needs an MBR: extraction for it on a GPT is announced and then
/// done as on an MBR.
pub proof fn law_bios_extraction_is_mbr(dev: Seq<char>, image: String, facts: Facts)
    ensures
        ({
            let gpt = FlashPlan::IsoExtract {
                image,
                scheme: PartitionScheme::Gpt,
                syslinux_bios: true,
            };
            let mbr = FlashPlan::IsoExtract {
                image,
                scheme: PartitionScheme::Mbr,
                syslinux_bios: true,
            };
            plan_steps(dev, gpt, facts) == seq![
                StepModel::Tick("forcing MBR (SYSLINUX BIOS requirement)"@),
            ] + plan_steps(dev, mbr, facts)
        }),
{
    let a = extract_steps(dev, image@, PartitionScheme::Gpt, true);
    let b = extract_steps(dev, image@, PartitionScheme::Mbr, true);
    assert(a =~= seq![StepModel::Tick("forcing MBR (SYSLINUX BIOS requirement)"@)] + b);
}

/// The Windows options of a plan; none where it has none.
pub open spec fn options_of(plan: FlashPlan) -> WinOptions {
    match plan {
        FlashPlan::WinFat32 { options, .. } => options,
        FlashPlan::WinUefiNtfs { options, .. } => options,
        FlashPlan::WinToGo { options, .. } => options,
        FlashPlan::WinToGoVhdx { options, .. } => options,
        _ => WinOptions { hw_bypass: false, no_online_account: false, no_bitlocker: false },
    }
}

/// Whether a step writes an answer file for these options.
pub open spec fn answers(s: StepModel, options: WinOptions) -> bool {
    match s {
        StepModel::InjectSetup(o) => o == options,
        StepModel::InjectInstalled(_, o) => o == options,
        _ => false,
    }
}

/// No step writes an answer file.
pub open spec fn quiet(s: Seq<StepModel>) -> bool {
    forall|i: int|
        0 <= i < s.len() ==> !((#[trigger] s[i]) is InjectSetup) && !(s[i] is InjectInstalled)
}

proof fn lemma_quiet_add(a: Seq<StepModel>, b: Seq<StepModel>)
    requires
        quiet(a),
        quiet(b),
    ensures
        quiet(a + b),
{
}

proof fn lemma_quiet_parts(
    dev: Seq<char>,
    scheme: PartitionScheme,
    parts: Seq<PartModel>,
    image: Seq<char>,
    node: Seq<char>,
    limit: Option<u64>,
    split: bool,
)
    ensures
        quiet(layout_steps(dev, scheme, parts)),
        quiet(copy_in_steps(image, node, limit, split)),
        quiet(unmount_steps()),
{
    reveal(layout_steps);
    reveal(copy_in_steps);
    reveal(unmount_steps);
}

/// Without an option no step writes an answer file; with one, some step writes
/// one for the options.
pub open spec fn answered(s: Seq<StepModel>, o: WinOptions) -> bool {
    &&& !o.some() ==> quiet(s)
    &&& o.some() ==> exists|i: int| 0 <= i < s.len() && answers(#[trigger] s[i], o)
}

/// An answer file is written in the middle, where any option asks for it.
proof fn lemma_answer_mid(
    a: Seq<StepModel>,
    m: Seq<StepModel>,
    b: Seq<StepModel>,
    o: WinOptions,
)
    requires
        quiet(a),
        quiet(b),
        answered(m, o),
    ensures
        answered(a + m + b, o),
{
    let s = a + m + b;
    if o.some() {
        let k = choose|k: int| 0 <= k < m.len() && answers(#[trigger] m[k], o);
        assert(s[a.len() + k] == m[k]);
    }
}

proof fn lemma_answer_steps(slot: Slot, o: WinOptions)
    ensures
        answered(setup_steps(o), o),
        answered(installed_steps(slot, o), o),
{
    reveal(setup_steps);
    reveal(installed_steps);
    if o.some() {
        assert(answers(setup_steps(o)[0], o));
        assert(answers(installed_steps(slot, o)[1], o));
    }
}

proof fn lemma_fat32_answered(dev: Seq<char>, plan: FlashPlan, facts: Facts)
    requires
        plan is WinFat32,
    ensures
        answered(plan_steps(dev, plan, facts), options_of(plan)),
{
    if let FlashPlan::WinFat32 { image, split_wim, scheme, options } = plan {
        let s = plan_steps(dev, plan, facts);
        let node = node_of(dev, 1);
        let limit = Some(facts.split_limit);
        let parts = seq![fat_part(scheme)];
        lemma_quiet_parts(dev, scheme, parts, image@, node, limit, split_wim);
        lemma_answer_steps(Slot::Target, options);
        let l = layout_steps(dev, scheme, parts);
        let f = seq![
            wait_step(node),
            StepModel::Tick("formatting"@),
            mkfs_step("FAT32"@, "FERRUS"@, node, None),
        ];
        let c = copy_in_steps(image@, node, limit, split_wim);
        let m = setup_steps(options);
        let e = seq![s[s.len() - 2], s[s.len() - 1]];
        lemma_quiet_add(l, f);
        lemma_quiet_add(l + f, c);
        lemma_quiet_add(unmount_steps(), e);
        assert(s =~= (l + f + c) + m + (unmount_steps() + e));
        lemma_answer_mid(l + f + c, m, unmount_steps() + e, options);
    }
}

proof fn lemma_uefi_ntfs_answered(dev: Seq<char>, plan: FlashPlan, facts: Facts)
    requires
        plan is WinUefiNtfs,
    ensures
        answered(plan_steps(dev, plan, facts), options_of(plan)),
{
    if let FlashPlan::WinUefiNtfs { image, scheme, options } = plan {
        let s = plan_steps(dev, plan, facts);
        let n1 = node_of(dev, 1);
        let n2 = node_of(dev, 2);
        let parts = uefi_ntfs_parts();
        lemma_quiet_parts(dev, scheme, parts, image@, n2, None, false);
        lemma_answer_steps(Slot::Target, options);
        let z = seq![StepModel::LocateLoader];
        let l = layout_steps(dev, scheme, parts);
        let f = seq![
            wait_step(n1),
            wait_step(n2),
            StepModel::Tick("writing UEFI:NTFS bootloader"@),
            StepModel::WriteLoader(n1),
            StepModel::Tick("formatting"@),
            mkfs_step("NTFS"@, "WININSTALL"@, n2, None),
        ];
        let c = copy_in_steps(image@, n2, None, false);
        let m = setup_steps(options);
        let e = seq![s[s.len() - 2], s[s.len() - 1]];
        lemma_quiet_add(z, l);
        lemma_quiet_add(z + l, f);
        lemma_quiet_add(z + l + f, c);
        lemma_quiet_add(unmount_steps(), e);
        assert(s =~= (z + l + f + c) + m + (unmount_steps() + e));
        lemma_answer_mid(z + l + f + c, m, unmount_steps() + e, options);
    }
}

proof fn lemma_quiet_togo(dev: Seq<char>, data: bool, vhdx: Option<Seq<char>>, entry: Seq<char>)
    ensures
        quiet(togo_format_steps(dev, data)),
        quiet(boot_steps(dev, vhdx, entry)),
{
    reveal(togo_format_steps);
    reveal(boot_steps);
}

proof fn lemma_togo_answered(dev: Seq<char>, plan: FlashPlan, facts: Facts)
    requires
        plan is WinToGo,
        plan_steps(dev, plan, facts).len() > 1,
    ensures
        answered(plan_steps(dev, plan, facts), options_of(plan)),
{
    if let FlashPlan::WinToGo { image, wim_index, persist_mib, scheme, options } = plan {
        let s = plan_steps(dev, plan, facts);
        let parts = togo_parts(facts.sectors as int, persist_mib as int)->0;
        let node = node_of(dev, 2);
        lemma_quiet_parts(dev, scheme, parts, image@, node, None, false);
        lemma_quiet_togo(dev, persist_mib > 0, None, facts.entry_guid@);
        lemma_answer_steps(Slot::Target, options);
        let l = layout_steps(dev, PartitionScheme::Gpt, parts);
        let f = togo_format_steps(dev, persist_mib > 0);
        let c = seq![
            StepModel::Tick("applying Windows image"@),
            StepModel::MountImage(image@),
            StepModel::LocateWim,
            StepModel::Mount(Slot::Target, node),
            StepModel::ApplyWim(wim_index as int, Slot::Target),
        ];
        let m = installed_steps(Slot::Target, options);
        let b = boot_steps(dev, None, facts.entry_guid@);
        let e = seq![
            StepModel::Unmount(Slot::Target),
            StepModel::Unmount(Slot::Iso),
            s[s.len() - 2],
            s[s.len() - 1],
        ];
        lemma_quiet_add(l, f);
        lemma_quiet_add(l + f, c);
        lemma_quiet_add(b, e);
        assert(s =~= (l + f + c) + m + (b + e));
        lemma_answer_mid(l + f + c, m, b + e, options);
    }
}

proof fn lemma_disk_answered(
    dev: Seq<char>,
    image: Seq<char>,
    wim_index: int,
    mib: int,
    options: WinOptions,
)
    ensures
        answered(disk_steps(dev, image, wim_index, mib, options), options),
{
    reveal(disk_steps);
    lemma_answer_steps(Slot::Disk, options);
    let d = disk_steps(dev, image, wim_index, mib, options);
    let m = installed_steps(Slot::Disk, options);
    let a = d.take(9);
    let b = seq![StepModel::Unmount(Slot::Disk), StepModel::DetachDisk];
    assert(d =~= a + m + b);
    lemma_answer_mid(a, m, b, options);
}

proof fn lemma_togo_vhdx_answered(dev: Seq<char>, plan: FlashPlan, facts: Facts)
    requires
        plan is WinToGoVhdx,
        plan_steps(dev, plan, facts).len() > 1,
    ensures
        answered(plan_steps(dev, plan, facts), options_of(plan)),
{
    if let FlashPlan::WinToGoVhdx {
        image,
        wim_index,
        vhdx_size_mib,
        persist_mib,
        scheme,
        options,
    } = plan {
        let s = plan_steps(dev, plan, facts);
        let mib = capacity(vhdx_size_mib as int, facts.image_bytes as int);
        let path = Some(vhdx_path());
        let parts = togo_parts(facts.sectors as int, persist_mib as int)->0;
        lemma_quiet_parts(dev, scheme, parts, image@, dev, None, false);
        lemma_quiet_togo(dev, persist_mib > 0, path, facts.entry_guid@);
        lemma_disk_answered(dev, image@, wim_index as int, mib, options);
        let l = layout_steps(dev, PartitionScheme::Gpt, parts);
        let f = togo_format_steps(dev, persist_mib > 0);
        let m = disk_steps(dev, image@, wim_index as int, mib, options);
        let b = boot_steps(dev, path, facts.entry_guid@);
        let e = seq![
            StepModel::Unmount(Slot::Iso),
            s[s.len() - 3],
            StepModel::Release(Slot::Target),
            s[s.len() - 1],
        ];
        lemma_quiet_add(l, f);
        lemma_quiet_add(b, e);
        assert(s =~= (l + f) + m + (b + e));
        lemma_answer_mid(l + f, m, b + e, options);
    }
}

proof fn lemma_extract_quiet(dev: Seq<char>, plan: FlashPlan, facts: Facts)
    requires
        plan is IsoExtract,
    ensures
        quiet(plan_steps(dev, plan, facts)),
{
    reveal(layout_steps);
    reveal(copy_in_steps);
    reveal(unmount_steps);
}

/// Without a Windows option no plan writes an answer file; with one, a plan
/// that has options and can be done writes one for them.
pub proof fn law_answer_file_when_asked(dev: Seq<char>, plan: FlashPlan, facts: Facts)
    ensures
        !options_of(plan).some() ==> quiet(plan_steps(dev, plan, facts)),
        options_of(plan).some() && !(plan_steps(dev, plan, facts).last() is Fail) ==> exists|i: int|
            0 <= i < plan_steps(dev, plan, facts).len() && answers(
                #[trigger] plan_steps(dev, plan, facts)[i],
                options_of(plan),
            ),
{
    match plan {
        FlashPlan::RawDd { .. } => {},
        FlashPlan::FormatDevice { .. } => {
            reveal(layout_steps);
        },
        FlashPlan::WinFat32 { .. } => {
            lemma_fat32_answered(dev, plan, facts);
        },
        FlashPlan::WinUefiNtfs { .. } => {
            lemma_uefi_ntfs_answered(dev, plan, facts);
        },
        FlashPlan::IsoExtract { .. } => {
            lemma_extract_quiet(dev, plan, facts);
        },
        FlashPlan::WinToGo { .. } => {
            if plan_steps(dev, plan, facts).len() > 1 {
                lemma_togo_answered(dev, plan, facts);
            }
        },
        FlashPlan::WinToGoVhdx { .. } => {
            if plan_steps(dev, plan, facts).len() > 1 {
                lemma_togo_vhdx_answered(dev, plan, facts);
            }
        },
    }
}

} // verus!
