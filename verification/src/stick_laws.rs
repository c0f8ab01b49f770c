//! What every plan does to a stick: which table it writes, which filesystems it
//! makes where, and that each step finds what it needs.

use crate::commands::CmdModel;
use crate::disk_image::capacity;
use crate::execute::plan_steps;
use crate::flash::{
    bootable, copy_in_steps, extract_scheme, fat_part, layout_steps, mkfs_step, setup_steps,
    stick_part, sync_step, typed, uefi_ntfs_parts, unmount_steps, wait_step, Facts, Slot,
    StepModel,
};
use crate::format::{final_label, mkfs_task, opt_int};
use crate::format_laws::{law_fat_is_made_as_asked, law_ntfs_is_made_as_asked};
use crate::layout_laws::{law_extract_table, law_fat32_table, law_uefi_ntfs_table};
use crate::partition::{
    data_model, node_of, partition_task, release_cmd, reread_cmds, table_script, PartModel,
};
use crate::protocol::{FlashPlan, PartitionScheme, WinOptions};
use crate::text::lower;
use crate::togo::{
    boot_steps, disk_steps, installed_steps, togo_format_steps, togo_parts, vhdx_path,
};
use vstd::prelude::*;
use vstd::string::*;

verus! {

// ---- what a step does ------------------------------------------------------------

/// Whether a step writes a fresh table to `dev` by this script.
pub open spec fn is_table(s: StepModel, dev: Seq<char>, script: Seq<char>) -> bool {
    s matches StepModel::Run(t) && t.cmd.program == "sfdisk"@ && t.cmd.args == seq![
        "-q"@,
        "--force"@,
        "--wipe=always"@,
        dev,
    ] && t.cmd.stdin == Some(script) && t.attempts == 1
}

/// Whether a step makes a FAT32 filesystem with this label on `node`.
pub open spec fn makes_fat(s: StepModel, label: Seq<char>, node: Seq<char>) -> bool {
    s matches StepModel::Run(t) && t.cmd.program == "mkfs.vfat"@ && t.cmd.args == seq![
        "-F32"@,
        "-n"@,
        label,
        node,
    ]
}

/// Whether a step makes an NTFS filesystem with this label on `node`.
pub open spec fn makes_ntfs(s: StepModel, label: Seq<char>, node: Seq<char>) -> bool {
    s matches StepModel::Run(t) && t.cmd.program == "mkfs.ntfs"@ && t.cmd.args == seq![
        "-Q"@,
        "-F"@,
        "-L"@,
        label,
        node,
    ]
}

/// Whether a step unmounts the first eight partitions of `dev`.
pub open spec fn releases_all(s: StepModel, dev: Seq<char>) -> bool {
    s matches StepModel::Try(c) && c.len() == 8 && forall|k: int|
        0 <= k < 8 ==> #[trigger] c[k] == (CmdModel {
            program: "umount"@,
            args: seq!["-l"@, node_of(dev, k + 1)],
            stdin: None,
        })
}

/// Whether a step tries one command without input.
pub open spec fn tries(s: StepModel, program: Seq<char>, args: Seq<Seq<char>>) -> bool {
    s == StepModel::Try(seq![CmdModel { program, args, stdin: None }])
}

/// Whether step `i` is the first that changes the device, and a table: before it
/// the partitions are unmounted and their signatures wiped, and behind it the
/// kernel re-reads the table.
pub open spec fn table_at(s: Seq<StepModel>, dev: Seq<char>, script: Seq<char>, i: int) -> bool {
    &&& 3 <= i && i + 2 < s.len()
    &&& is_table(s[i], dev, script)
    &&& releases_all(s[i - 3], dev)
    &&& s[i - 2] == StepModel::Tick("partitioning"@)
    &&& tries(s[i - 1], "wipefs"@, seq!["-a"@, dev])
    &&& s[i + 1] == StepModel::Try(reread_cmds(dev))
    &&& s[i + 2] == StepModel::Pause(400)
    &&& forall|j: int| 0 <= j < i ==> harmless(#[trigger] s[j], dev)
    &&& forall|j: int| i < j < s.len() ==> !is_sfdisk(#[trigger] s[j])
}

pub open spec fn is_sfdisk(s: StepModel) -> bool {
    s matches StepModel::Run(t) && t.cmd.program == "sfdisk"@
}

/// Steps that may come before the table: reports, a look for the loader, and
/// the release of the device.
pub open spec fn harmless(s: StepModel, dev: Seq<char>) -> bool {
    match s {
        StepModel::Tick(_) => true,
        StepModel::LocateLoader => true,
        StepModel::Try(c) => forall|k: int|
            0 <= k < c.len() ==> (#[trigger] c[k]).program == "umount"@ || c[k] == (CmdModel {
                program: "wipefs"@,
                args: seq!["-a"@, dev],
                stdin: None,
            }),
        _ => false,
    }
}

// ---- the steps one by one --------------------------------------------------------

proof fn lemma_layout_at(dev: Seq<char>, scheme: PartitionScheme, parts: Seq<PartModel>)
    ensures
        ({
            let l = layout_steps(dev, scheme, parts);
            &&& l.len() == 6
            &&& harmless(l[0], dev) && harmless(l[1], dev) && harmless(l[2], dev)
            &&& l[0] is Try && l[2] is Try
            &&& releases_all(l[0], dev)
            &&& l[1] == StepModel::Tick("partitioning"@)
            &&& tries(l[2], "wipefs"@, seq!["-a"@, dev])
            &&& is_table(l[3], dev, table_script(scheme, parts))
            &&& l[3] is Run
            &&& l[4] == StepModel::Try(reread_cmds(dev))
            &&& l[5] == StepModel::Pause(400)
        }),
{
    reveal(layout_steps);
    let l = layout_steps(dev, scheme, parts);
    let c = Seq::new(8, |i: int| release_cmd(dev, i + 1));
    assert(l[0] == StepModel::Try(c));
    assert forall|k: int| 0 <= k < c.len() implies (#[trigger] c[k]).program == "umount"@ by {}
    assert(l[2] == StepModel::Try(seq![crate::commands::cmd("wipefs"@, seq!["-a"@, dev])]));
}

proof fn lemma_fat_step(label: Seq<char>, node: Seq<char>)
    ensures
        makes_fat(mkfs_step("FAT32"@, label, node, None), final_label("FAT32"@, label), node),
{
    reveal_strlit("FAT32");
    reveal_strlit("fat32");
    assert(lower("FAT32"@) =~= "fat32"@);
    law_fat_is_made_as_asked("FAT32"@, final_label("FAT32"@, label), node, 1);
}

proof fn lemma_ntfs_step(label: Seq<char>, node: Seq<char>)
    ensures
        makes_ntfs(mkfs_step("NTFS"@, label, node, None), final_label("NTFS"@, label), node),
{
    reveal_strlit("NTFS");
    reveal_strlit("ntfs");
    assert(lower("NTFS"@) =~= "ntfs"@);
    law_ntfs_is_made_as_asked("NTFS"@, final_label("NTFS"@, label), node, 1);
}

proof fn lemma_programs()
    ensures
        "mkfs.vfat"@ != "sfdisk"@,
        "mkfs.ntfs"@ != "sfdisk"@,
        "mkfs.vfat"@ != "mkfs.ntfs"@,
{
    reveal_strlit("mkfs.vfat");
    reveal_strlit("mkfs.ntfs");
    reveal_strlit("sfdisk");
    assert("mkfs.vfat"@.len() != "sfdisk"@.len());
    assert("mkfs.ntfs"@.len() != "sfdisk"@.len());
    assert("mkfs.vfat"@[5] != "mkfs.ntfs"@[5]);
}

/// How many steps put an answer file on install media.
pub open spec fn extra(o: WinOptions) -> int {
    if o.some() {
        2
    } else {
        0
    }
}

proof fn lemma_extra(o: WinOptions, slot: Slot)
    ensures
        setup_steps(o).len() == extra(o),
        installed_steps(slot, o).len() == extra(o),
        o.some() ==> setup_steps(o)[0] == StepModel::InjectSetup(o) && setup_steps(o)[1]
            == StepModel::Tick("injected unattend.xml"@),
        o.some() ==> installed_steps(slot, o)[0] == StepModel::Tick(
            "injecting unattend.xml"@,
        ) && installed_steps(slot, o)[1]
            == StepModel::InjectInstalled(slot, o),
{
    reveal(setup_steps);
    reveal(installed_steps);
}

proof fn lemma_copy_at(image: Seq<char>, node: Seq<char>, limit: Option<u64>, split: bool)
    ensures
        ({
            let c = copy_in_steps(image, node, limit, split);
            &&& c.len() == 5
            &&& c[0] == StepModel::Tick("mounting"@) && c[3] == StepModel::Tick("copying files"@)
            &&& c[1] == StepModel::MountImage(image)
            &&& c[2] == StepModel::Mount(Slot::Target, node)
            &&& c[4] == StepModel::CopyTree(limit, split)
            &&& unmount_steps().len() == 2
            &&& unmount_steps()[0] == StepModel::Unmount(Slot::Target)
            &&& unmount_steps()[1] == StepModel::Unmount(Slot::Iso)
        }),
{
    reveal(copy_in_steps);
    reveal(unmount_steps);
}

/// What is said in front of an error of the table's command.
pub proof fn law_words_of_tables(dev: Seq<char>, parts: Seq<PartModel>)
    ensures
        partition_task(dev, PartitionScheme::Gpt, parts).context
            == "writing GPT partition table"@,
        partition_task(dev, PartitionScheme::Mbr, parts).context
            == "writing MBR partition table"@,
{
}

// ---- plain sticks ------------------------------------------------------------------

/// Formatting a stick without an image: one table, by the law on plain tables,
/// then the filesystem that was asked for, with its label and cluster size, on
/// the first partition once its node is there; then the device is flushed.
#[verifier::rlimit(40)]
pub proof fn law_format_stick(dev: Seq<char>, plan: FlashPlan, facts: Facts)
    requires
        plan is FormatDevice,
    ensures
        ({
            let s = plan_steps(dev, plan, facts);
            let node = node_of(dev, 1);
            let fs = plan->fs@;
            &&& table_at(
                s,
                dev,
                table_script(
                    plan->FormatDevice_scheme,
                    seq![stick_part(plan->FormatDevice_scheme, fs, plan->old_bios_align)],
                ),
                3,
            )
            &&& s[6] == StepModel::WaitNode(node, 10)
            &&& s[7] == StepModel::Tick("formatting"@)
            &&& s[8] == StepModel::Run(
                mkfs_task(
                    fs,
                    final_label(fs, plan->label@),
                    node,
                    opt_int(plan->cluster_bytes),
                ),
            )
            &&& s[9] == StepModel::Try(
                seq![CmdModel { program: "sync"@, args: seq!["-f"@, dev], stdin: None }],
            )
            &&& s[10] is Finish
            &&& s.len() == 11
            &&& forall|i: int| 0 <= i < 11 && (#[trigger] s[i]) is Run ==> i == 3 || i == 8
        }),
{
    if let FlashPlan::FormatDevice { scheme, fs, label, cluster_bytes, old_bios_align } = plan {
        let parts = seq![stick_part(scheme, fs@, old_bios_align)];
        lemma_layout_at(dev, scheme, parts);
        let s = plan_steps(dev, plan, facts);
        let l = layout_steps(dev, scheme, parts);
        assert forall|i: int| 0 <= i < 6 implies s[i] == #[trigger] l[i] by {}
        assert(s[0] == l[0] && s[1] == l[1] && s[2] == l[2] && s[3] == l[3] && s[4] == l[4] && s[5]
            == l[5]);
        lemma_mkfs_is_no_table(fs@, final_label(fs@, label@), node_of(dev, 1), opt_int(
            cluster_bytes,
        ));
        assert forall|j: int| 3 < j < s.len() implies !is_sfdisk(#[trigger] s[j]) by {
            assert(j == 4 || j == 5 || j == 6 || j == 7 || j == 8 || j == 9 || j == 10);
        }
        assert forall|j: int| 0 <= j < 3 implies harmless(#[trigger] s[j], dev) by {
            assert(j == 0 || j == 1 || j == 2);
        }
        assert forall|i: int| 0 <= i < 11 && (#[trigger] s[i]) is Run implies i == 3 || i == 8 by {
            assert(i == 0 || i == 1 || i == 2 || i == 3 || i == 4 || i == 5 || i == 6 || i == 7
                || i == 8 || i == 9 || i == 10);
        }
    }
}

proof fn lemma_mkfs_is_no_table(
    fs: Seq<char>,
    label: Seq<char>,
    node: Seq<char>,
    cluster: Option<int>,
)
    ensures
        mkfs_task(fs, label, node, cluster).cmd.program != "sfdisk"@,
        mkfs_task(fs, label, node, cluster).cmd.stdin is None,
        mkfs_task(fs, label, node, cluster).cmd.args.last() == node,
{
    reveal_strlit("mkfs.vfat");
    reveal_strlit("mkfs.ntfs");
    reveal_strlit("mkfs.exfat");
    reveal_strlit("mkudffs");
    reveal_strlit("mkfs.ext2");
    reveal_strlit("mkfs.ext3");
    reveal_strlit("mkfs.ext4");
    reveal_strlit("sfdisk");
    assert("sfdisk"@.len() == 6);
}

// ---- FAT32 install sticks --------------------------------------------------------------

/// A FAT32 install stick: one partition of basic data (on an MBR an active one of
/// FAT32), FAT32 on it, and the tree of the image copied to it while both are
/// mounted. Files up to the limit are copied; larger ones are split if and only
/// if the plan says so.
#[verifier::rlimit(40)]
pub proof fn law_fat32_stick(dev: Seq<char>, plan: FlashPlan, facts: Facts)
    requires
        plan is WinFat32,
    ensures
        ({
            let s = plan_steps(dev, plan, facts);
            let node = node_of(dev, 1);
            let scheme = plan->WinFat32_scheme;
            let k = extra(plan->WinFat32_options);
            &&& s.len() == 18 + k
            &&& scheme == PartitionScheme::Gpt ==> table_at(
                s,
                dev,
                "label: gpt\n"@ + ("name=\""@ + "FERRUS"@ + "\""@)
                    + ", type=EBD0A0A2-B9E5-4433-87C0-68B6B72699C7\n"@,
                3,
            )
            &&& scheme == PartitionScheme::Mbr ==> table_at(
                s,
                dev,
                "label: dos\n"@ + "type=0c, bootable\n"@,
                3,
            )
            &&& s[6] == StepModel::WaitNode(node, 10)
            &&& s[7] == StepModel::Tick("formatting"@)
            &&& makes_fat(s[8], final_label("FAT32"@, "FERRUS"@), node)
            &&& s[9] == StepModel::Tick("mounting"@) && s[12] == StepModel::Tick("copying files"@)
            &&& s[10] == StepModel::MountImage(plan->WinFat32_image@)
            &&& s[11] == StepModel::Mount(Slot::Target, node)
            &&& s[13] == StepModel::CopyTree(Some(facts.split_limit), plan->split_wim)
            &&& k > 0 ==> s[14] == StepModel::InjectSetup(plan->WinFat32_options) && s[15]
                == StepModel::Tick("injected unattend.xml"@)
            &&& s[14 + k] == StepModel::Unmount(Slot::Target)
            &&& s[15 + k] == StepModel::Unmount(Slot::Iso)
            &&& tries(s[16 + k], "sync"@, seq!["-f"@, dev])
            &&& s[17 + k] is Finish
            &&& forall|i: int| 0 <= i < s.len() && (#[trigger] s[i]) is Run ==> i == 3 || i == 8
        }),
{
    if let FlashPlan::WinFat32 { image, split_wim, scheme, options } = plan {
        let parts = seq![fat_part(scheme)];
        let node = node_of(dev, 1);
        lemma_layout_at(dev, scheme, parts);
        lemma_fat_step("FERRUS"@, node);
        lemma_extra(options, Slot::Target);
        lemma_copy_at(image@, node, Some(facts.split_limit), split_wim);
        law_fat32_table(scheme);
        lemma_programs();
        let s = plan_steps(dev, plan, facts);
        let k = extra(options);
        let l = layout_steps(dev, scheme, parts);
        let c = copy_in_steps(image@, node, Some(facts.split_limit), split_wim);
        assert(s[0] == l[0] && s[1] == l[1] && s[2] == l[2] && s[3] == l[3] && s[4] == l[4] && s[5]
            == l[5]);
        assert(s[6] == wait_step(node) && s[7] == StepModel::Tick("formatting"@));
        assert(s[8] == mkfs_step("FAT32"@, "FERRUS"@, node, None));
        assert(s[9] == c[0] && s[10] == c[1] && s[11] == c[2] && s[12] == c[3] && s[13] == c[4]);
        if k > 0 {
            assert(s[14] == setup_steps(options)[0] && s[15] == setup_steps(options)[1]);
        }
        assert(s[14 + k] == unmount_steps()[0] && s[15 + k] == unmount_steps()[1]);
        assert(s[16 + k] == sync_step(dev) && s[17 + k] is Finish);
        assert forall|i: int| 0 <= i < s.len() && (#[trigger] s[i]) is Run implies i == 3 || i
            == 8 by {
            assert(i == 0 || i == 1 || i == 2 || i == 3 || i == 4 || i == 5 || i == 6 || i == 7
                || i == 8 || i == 9 || i == 10 || i == 11 || i == 12 || i == 13 || (k > 0 && (i
                == 14 || i == 15)) || i == 14 + k || i == 15 + k || i == 16 + k || i == 17 + k);
        }
        assert forall|j: int| 0 <= j < 3 implies harmless(#[trigger] s[j], dev) by {
            assert(j == 0 || j == 1 || j == 2);
        }
        assert forall|j: int| 3 < j < s.len() implies !is_sfdisk(#[trigger] s[j]) by {
            if s[j] is Run {
                assert(j == 8);
            }
        }
    }
}

// ---- UEFI:NTFS sticks ------------------------------------------------------------------

/// A UEFI:NTFS stick: the loader is found before anything is changed and written
/// to the first partition; the second gets NTFS and the whole tree of the image,
/// nothing split.
#[verifier::rlimit(40)]
pub proof fn law_uefi_ntfs_stick(dev: Seq<char>, plan: FlashPlan, facts: Facts)
    requires
        plan is WinUefiNtfs,
    ensures
        ({
            let s = plan_steps(dev, plan, facts);
            let n1 = node_of(dev, 1);
            let n2 = node_of(dev, 2);
            let scheme = plan->WinUefiNtfs_scheme;
            let k = extra(plan->WinUefiNtfs_options);
            let basic = ", type=EBD0A0A2-B9E5-4433-87C0-68B6B72699C7\n"@;
            &&& s.len() == 22 + k
            &&& s[0] == StepModel::LocateLoader
            &&& scheme == PartitionScheme::Gpt ==> table_at(
                s,
                dev,
                "label: gpt\n"@ + ("name=\""@ + "UEFI-NTFS"@ + "\""@ + (", size="@ + "32768"@)
                    + basic) + ("name=\""@ + "WININSTALL"@ + "\""@ + basic),
                4,
            )
            &&& scheme == PartitionScheme::Mbr ==> table_at(
                s,
                dev,
                "label: dos\n"@ + "size=32768, type=0c\n"@ + "type=07\n"@,
                4,
            )
            &&& s[7] == StepModel::WaitNode(n1, 10)
            &&& s[8] == StepModel::WaitNode(n2, 10)
            &&& s[9] == StepModel::Tick("writing UEFI:NTFS bootloader"@)
            &&& s[10] == StepModel::WriteLoader(n1)
            &&& s[11] == StepModel::Tick("formatting"@)
            &&& makes_ntfs(s[12], final_label("NTFS"@, "WININSTALL"@), n2)
            &&& s[13] == StepModel::Tick("mounting"@) && s[16] == StepModel::Tick("copying files"@)
            &&& s[14] == StepModel::MountImage(plan->WinUefiNtfs_image@)
            &&& s[15] == StepModel::Mount(Slot::Target, n2)
            &&& s[17] == StepModel::CopyTree(None, false)
            &&& k > 0 ==> s[18] == StepModel::InjectSetup(plan->WinUefiNtfs_options) && s[19]
                == StepModel::Tick("injected unattend.xml"@)
            &&& s[18 + k] == StepModel::Unmount(Slot::Target)
            &&& s[19 + k] == StepModel::Unmount(Slot::Iso)
            &&& tries(s[20 + k], "sync"@, seq!["-f"@, dev])
            &&& s[21 + k] is Finish
            &&& forall|i: int| 0 <= i < s.len() && (#[trigger] s[i]) is Run ==> i == 4 || i == 12
        }),
{
    if let FlashPlan::WinUefiNtfs { image, scheme, options } = plan {
        let parts = uefi_ntfs_parts();
        let n1 = node_of(dev, 1);
        let n2 = node_of(dev, 2);
        lemma_layout_at(dev, scheme, parts);
        lemma_ntfs_step("WININSTALL"@, n2);
        lemma_extra(options, Slot::Target);
        lemma_copy_at(image@, n2, None, false);
        law_uefi_ntfs_table(scheme);
        lemma_programs();
        let s = plan_steps(dev, plan, facts);
        let k = extra(options);
        let l = layout_steps(dev, scheme, parts);
        let c = copy_in_steps(image@, n2, None, false);
        assert(s[0] == StepModel::LocateLoader);
        assert(s[1] == l[0] && s[2] == l[1] && s[3] == l[2] && s[4] == l[3] && s[5] == l[4] && s[6]
            == l[5]);
        assert(s[7] == wait_step(n1) && s[8] == wait_step(n2));
        assert(s[9] == StepModel::Tick("writing UEFI:NTFS bootloader"@));
        assert(s[10] == StepModel::WriteLoader(n1) && s[11] == StepModel::Tick("formatting"@));
        assert(s[12] == mkfs_step("NTFS"@, "WININSTALL"@, n2, None));
        assert(s[13] == c[0] && s[14] == c[1] && s[15] == c[2] && s[16] == c[3] && s[17] == c[4]);
        if k > 0 {
            assert(s[18] == setup_steps(options)[0] && s[19] == setup_steps(options)[1]);
        }
        assert(s[18 + k] == unmount_steps()[0] && s[19 + k] == unmount_steps()[1]);
        assert(s[20 + k] == sync_step(dev) && s[21 + k] is Finish);
        assert forall|i: int| 0 <= i < s.len() && (#[trigger] s[i]) is Run implies i == 4 || i
            == 12 by {
            assert(i == 0 || i == 1 || i == 2 || i == 3 || i == 4 || i == 5 || i == 6 || i == 7
                || i == 8 || i == 9 || i == 10 || i == 11 || i == 12 || i == 13 || i == 14 || i
                == 15 || i == 16 || i == 17 || (k > 0 && (i == 18 || i == 19)) || i == 18 + k || i
                == 19 + k || i == 20 + k || i == 21 + k);
        }
        assert forall|j: int| 0 <= j < 4 implies harmless(#[trigger] s[j], dev) by {
            assert(j == 0 || j == 1 || j == 2 || j == 3);
        }
        assert forall|j: int| 4 < j < s.len() implies !is_sfdisk(#[trigger] s[j]) by {
            if s[j] is Run {
                assert(j == 12);
            }
        }
    }
}

// ---- extracted sticks ------------------------------------------------------------------

/// An extracted stick: one FAT32 partition with the whole tree of the image. For
/// a BIOS the table is an MBR, the loader's directory is prepared while the
/// stick is mounted, its boot sector is installed once it is not, and its boot
/// code is written last.
#[verifier::rlimit(40)]
pub proof fn law_extracted_stick(dev: Seq<char>, plan: FlashPlan, facts: Facts)
    requires
        plan is IsoExtract,
    ensures
        ({
            let s = plan_steps(dev, plan, facts);
            let node = node_of(dev, 1);
            let bios = plan->syslinux_bios;
            let z: int = if bios && plan->IsoExtract_scheme == PartitionScheme::Gpt {
                1
            } else {
                0
            };
            let basic = ", type=EBD0A0A2-B9E5-4433-87C0-68B6B72699C7\n"@;
            &&& bios ==> table_at(s, dev, "label: dos\n"@ + "type=0c, bootable\n"@, z + 3)
            &&& !bios && plan->IsoExtract_scheme == PartitionScheme::Gpt ==> table_at(
                s,
                dev,
                "label: gpt\n"@ + ("name=\""@ + "LIVE"@ + "\""@) + basic,
                z + 3,
            )
            &&& !bios && plan->IsoExtract_scheme == PartitionScheme::Mbr ==> table_at(
                s,
                dev,
                "label: dos\n"@ + "type=0c\n"@,
                z + 3,
            )
            &&& s[z + 6] == StepModel::WaitNode(node, 10)
            &&& z == 1 ==> s[0] == StepModel::Tick("forcing MBR (SYSLINUX BIOS requirement)"@)
            &&& s[z + 7] == StepModel::Tick("formatting"@)
            &&& makes_fat(s[z + 8], final_label("FAT32"@, "LIVE"@), node)
            &&& s[z + 9] == StepModel::Tick("mounting"@)
            &&& s[z + 12] == StepModel::Tick("copying files"@)
            &&& s[z + 10] == StepModel::MountImage(plan->IsoExtract_image@)
            &&& s[z + 11] == StepModel::Mount(Slot::Target, node)
            &&& s[z + 13] == StepModel::CopyTree(None, false)
            &&& bios ==> s.len() == z + 22 && s[z + 14] == StepModel::PrepSyslinux && s[z + 15]
                == StepModel::Unmount(Slot::Target) && s[z + 16] == StepModel::Unmount(Slot::Iso)
                && s[z + 17] == StepModel::Tick("installing SYSLINUX"@) && s[z + 18]
                == StepModel::InstallSyslinux(node) && s[z + 19] == StepModel::WriteMbr && tries(
                s[z + 20],
                "sync"@,
                seq!["-f"@, dev],
            ) && s[z + 21] is Finish
            &&& !bios ==> s.len() == 18 && s[14] == StepModel::Unmount(Slot::Target) && s[15]
                == StepModel::Unmount(Slot::Iso) && tries(s[16], "sync"@, seq!["-f"@, dev])
                && s[17] is Finish
            &&& forall|i: int|
                0 <= i < s.len() && (#[trigger] s[i]) is Run ==> i == z + 3 || i == z + 8
        }),
{
    if let FlashPlan::IsoExtract { image, scheme, syslinux_bios } = plan {
        let bios = syslinux_bios;
        let z: int = if bios && scheme == PartitionScheme::Gpt {
            1
        } else {
            0
        };
        let table = extract_scheme(scheme, bios);
        let parts = seq![bootable(typed(data_model("LIVE"@, None, false), "0c"@), bios)];
        let node = node_of(dev, 1);
        lemma_layout_at(dev, table, parts);
        lemma_fat_step("LIVE"@, node);
        lemma_copy_at(image@, node, None, false);
        law_extract_table(bios);
        lemma_programs();
        let s = plan_steps(dev, plan, facts);
        let l = layout_steps(dev, table, parts);
        let c = copy_in_steps(image@, node, None, false);
        if z == 1 {
            assert(s[0] == StepModel::Tick("forcing MBR (SYSLINUX BIOS requirement)"@));
        }
        assert(s[z] == l[0] && s[z + 1] == l[1] && s[z + 2] == l[2] && s[z + 3] == l[3] && s[z + 4]
            == l[4] && s[z + 5] == l[5]);
        assert(s[z + 6] == wait_step(node) && s[z + 7] == StepModel::Tick("formatting"@));
        assert(s[z + 8] == mkfs_step("FAT32"@, "LIVE"@, node, None));
        assert(s[z + 9] == c[0] && s[z + 10] == c[1] && s[z + 11] == c[2] && s[z + 12] == c[3]
            && s[z + 13] == c[4]);
        if bios {
            assert(s[z + 14] == StepModel::PrepSyslinux);
            assert(s[z + 15] == unmount_steps()[0] && s[z + 16] == unmount_steps()[1]);
            assert(s[z + 17] == StepModel::Tick("installing SYSLINUX"@));
            assert(s[z + 18] == StepModel::InstallSyslinux(node));
            assert(s[z + 19] == StepModel::WriteMbr && s[z + 20] == sync_step(dev));
            assert(s[z + 21] is Finish && s.len() == z + 22);
        } else {
            assert(s[14] == unmount_steps()[0] && s[15] == unmount_steps()[1]);
            assert(s[16] == sync_step(dev) && s[17] is Finish && s.len() == 18);
        }
        assert forall|i: int| 0 <= i < s.len() && (#[trigger] s[i]) is Run implies i == z + 3 || i
            == z + 8 by {
            let m = i - z;
            assert(m == -1 || m == 0 || m == 1 || m == 2 || m == 3 || m == 4 || m == 5 || m == 6
                || m == 7 || m == 8 || m == 9 || m == 10 || m == 11 || m == 12 || m == 13 || m
                == 14 || m == 15 || m == 16 || m == 17 || m == 18 || m == 19 || m == 20 || m
                == 21);
        }
        assert forall|j: int| 0 <= j < z + 3 implies harmless(#[trigger] s[j], dev) by {
            let m = j - z;
            assert(m == -1 || m == 0 || m == 1 || m == 2);
        }
        assert forall|j: int| z + 3 < j < s.len() implies !is_sfdisk(#[trigger] s[j]) by {
            if s[j] is Run {
                assert(j == z + 8);
            }
        }
    }
}

// ---- Windows To Go ---------------------------------------------------------------------

/// How many steps a data partition takes.
pub open spec fn data_extra(persist_mib: int) -> int {
    if persist_mib > 0 {
        2
    } else {
        0
    }
}

proof fn lemma_togo_front(dev: Seq<char>, parts: Seq<PartModel>, data: bool)
    ensures
        ({
            let f = togo_format_steps(dev, data);
            let d: int = if data {
                2
            } else {
                0
            };
            &&& f.len() == 6 + d
            &&& f[0] == StepModel::WaitNode(node_of(dev, 1), 10)
            &&& f[1] == StepModel::WaitNode(node_of(dev, 2), 10)
            &&& f[2] == StepModel::Tick("formatting"@)
            &&& makes_fat(f[3], final_label("FAT32"@, "FERRUS"@), node_of(dev, 1))
            &&& data ==> f[4] == StepModel::WaitNode(node_of(dev, 3), 10) && makes_ntfs(
                f[5],
                final_label("NTFS"@, "FERRUSDATA"@),
                node_of(dev, 3),
            )
            &&& makes_ntfs(f[4 + d], final_label("NTFS"@, "WINDOWS"@), node_of(dev, 2))
            &&& f[5 + d] == StepModel::ReadGuids(2)
        }),
{
    reveal(togo_format_steps);
    lemma_fat_step("FERRUS"@, node_of(dev, 1));
    lemma_ntfs_step("FERRUSDATA"@, node_of(dev, 3));
    lemma_ntfs_step("WINDOWS"@, node_of(dev, 2));
}

proof fn lemma_boot_at(dev: Seq<char>, vhdx: Option<Seq<char>>, entry: Seq<char>)
    ensures
        ({
            let b = boot_steps(dev, vhdx, entry);
            &&& b.len() == 5
            &&& b[0] == StepModel::Tick("writing boot files"@)
            &&& b[1] == StepModel::Mount(Slot::Esp, node_of(dev, 1))
            &&& b[2] == StepModel::CopyBootFiles
            &&& b[3] == StepModel::WriteBcd(vhdx, entry)
            &&& b[4] == StepModel::Unmount(Slot::Esp)
        }),
{
    reveal(boot_steps);
}

/// A Windows To Go stick: the table of the law on its layout; FAT32 on the first
/// partition, NTFS on the second and, where there is one, on the data partition
/// behind them; the GUIDs are read once the table stands; the chosen edition is
/// applied to the second partition; and boot manager and boot store go to the
/// first one while it is mounted.
#[verifier::rlimit(40)]
pub proof fn law_togo_stick(dev: Seq<char>, plan: FlashPlan, facts: Facts)
    requires
        plan is WinToGo,
        plan->WinToGo_scheme == PartitionScheme::Gpt,
        togo_parts(facts.sectors as int, plan->WinToGo_persist_mib as int) is Some,
    ensures
        ({
            let s = plan_steps(dev, plan, facts);
            let d = data_extra(plan->WinToGo_persist_mib as int);
            let k = extra(plan->WinToGo_options);
            &&& s.len() == 26 + d + k
            &&& table_at(
                s,
                dev,
                table_script(
                    PartitionScheme::Gpt,
                    togo_parts(facts.sectors as int, plan->WinToGo_persist_mib as int)->0,
                ),
                3,
            )
            &&& s[6] == StepModel::WaitNode(node_of(dev, 1), 10)
            &&& s[7] == StepModel::WaitNode(node_of(dev, 2), 10)
            &&& s[8] == StepModel::Tick("formatting"@)
            &&& makes_fat(s[9], final_label("FAT32"@, "FERRUS"@), node_of(dev, 1))
            &&& d > 0 ==> s[10] == StepModel::WaitNode(node_of(dev, 3), 10) && makes_ntfs(
                s[11],
                final_label("NTFS"@, "FERRUSDATA"@),
                node_of(dev, 3),
            )
            &&& makes_ntfs(s[10 + d], final_label("NTFS"@, "WINDOWS"@), node_of(dev, 2))
            &&& s[11 + d] == StepModel::ReadGuids(2)
            &&& s[12 + d] == StepModel::Tick("applying Windows image"@)
            &&& s[13 + d] == StepModel::MountImage(plan->WinToGo_image@)
            &&& s[14 + d] == StepModel::LocateWim
            &&& s[15 + d] == StepModel::Mount(Slot::Target, node_of(dev, 2))
            &&& s[16 + d] == StepModel::ApplyWim(plan->WinToGo_wim_index as int, Slot::Target)
            &&& k > 0 ==> s[17 + d] == StepModel::Tick("injecting unattend.xml"@) && s[18 + d]
                == StepModel::InjectInstalled(Slot::Target, plan->WinToGo_options)
            &&& s[17 + d + k] == StepModel::Tick("writing boot files"@)
            &&& s[18 + d + k] == StepModel::Mount(Slot::Esp, node_of(dev, 1))
            &&& s[19 + d + k] == StepModel::CopyBootFiles
            &&& s[20 + d + k] == StepModel::WriteBcd(None, facts.entry_guid@)
            &&& s[21 + d + k] == StepModel::Unmount(Slot::Esp)
            &&& s[22 + d + k] == StepModel::Unmount(Slot::Target)
            &&& s[23 + d + k] == StepModel::Unmount(Slot::Iso)
            &&& tries(s[24 + d + k], "sync"@, seq!["-f"@, dev])
            &&& s[25 + d + k] is Finish
            &&& forall|i: int|
                0 <= i < s.len() && (#[trigger] s[i]) is Run ==> i == 3 || i == 9 || i == 10 + d
                    || (d > 0 && i == 11)
        }),
{
    if let FlashPlan::WinToGo { image, wim_index, persist_mib, scheme, options } = plan {
        let parts = togo_parts(facts.sectors as int, persist_mib as int)->0;
        let data = persist_mib > 0;
        let d = data_extra(persist_mib as int);
        let k = extra(options);
        lemma_layout_at(dev, PartitionScheme::Gpt, parts);
        lemma_togo_front(dev, parts, data);
        lemma_extra(options, Slot::Target);
        lemma_boot_at(dev, None, facts.entry_guid@);
        lemma_programs();
        let s = plan_steps(dev, plan, facts);
        let l = layout_steps(dev, PartitionScheme::Gpt, parts);
        let f = togo_format_steps(dev, data);
        let b = boot_steps(dev, None, facts.entry_guid@);
        assert(s[0] == l[0] && s[1] == l[1] && s[2] == l[2] && s[3] == l[3] && s[4] == l[4] && s[5]
            == l[5]);
        assert(s[6] == f[0] && s[7] == f[1] && s[8] == f[2] && s[9] == f[3]);
        if data {
            assert(s[10] == f[4] && s[11] == f[5]);
        }
        assert(s[10 + d] == f[4 + d] && s[11 + d] == f[5 + d]);
        assert(s[12 + d] == StepModel::Tick("applying Windows image"@));
        assert(s[13 + d] == StepModel::MountImage(image@));
        assert(s[14 + d] == StepModel::LocateWim);
        assert(s[15 + d] == StepModel::Mount(Slot::Target, node_of(dev, 2)));
        assert(s[16 + d] == StepModel::ApplyWim(wim_index as int, Slot::Target));
        if k > 0 {
            let m = installed_steps(Slot::Target, options);
            assert(s[17 + d] == m[0] && s[18 + d] == m[1]);
        }
        assert(s[17 + d + k] == b[0] && s[18 + d + k] == b[1] && s[19 + d + k] == b[2]);
        assert(s[20 + d + k] == b[3] && s[21 + d + k] == b[4]);
        assert(s[22 + d + k] == StepModel::Unmount(Slot::Target));
        assert(s[23 + d + k] == StepModel::Unmount(Slot::Iso));
        assert(s[24 + d + k] == sync_step(dev) && s[25 + d + k] is Finish);
        assert forall|i: int| 0 <= i < s.len() && (#[trigger] s[i]) is Run implies i == 3 || i == 9
            || i == 10 + d || (d > 0 && i == 11) by {
            if i < 10 {
                assert(i == 0 || i == 1 || i == 2 || i == 3 || i == 4 || i == 5 || i == 6 || i == 7
                    || i == 8 || i == 9);
            } else if i < 10 + d {
                assert(i == 10 || i == 11);
            } else if i < 17 + d {
                let m = i - d;
                assert(m == 10 || m == 11 || m == 12 || m == 13 || m == 14 || m == 15 || m == 16);
            } else if i < 17 + d + k {
                assert(i == 17 + d || i == 18 + d);
            } else {
                let m = i - d - k;
                assert(m == 17 || m == 18 || m == 19 || m == 20 || m == 21 || m == 22 || m == 23
                    || m == 24 || m == 25);
            }
        }
        assert forall|j: int| 0 <= j < 3 implies harmless(#[trigger] s[j], dev) by {
            assert(j == 0 || j == 1 || j == 2);
        }
        assert forall|j: int| 3 < j < s.len() implies !is_sfdisk(#[trigger] s[j]) by {
            if s[j] is Run {
                assert(j == 9 || j == 10 + d || j == 11);
            }
        }
    }
}

/// Windows To Go from a virtual disk: as without one, but on the second partition
/// a disk of the right capacity is created, attached, formatted, mounted, filled
/// with the chosen edition, unmounted and detached, in this order; and the boot
/// store names its file.
#[verifier::rlimit(40)]
pub proof fn law_togo_vhdx_stick(dev: Seq<char>, plan: FlashPlan, facts: Facts)
    requires
        plan is WinToGoVhdx,
        plan->WinToGoVhdx_scheme == PartitionScheme::Gpt,
        togo_parts(facts.sectors as int, plan->WinToGoVhdx_persist_mib as int) is Some,
    ensures
        ({
            let s = plan_steps(dev, plan, facts);
            let d = data_extra(plan->WinToGoVhdx_persist_mib as int);
            let k = extra(plan->WinToGoVhdx_options);
            &&& s.len() == 32 + d + k
            &&& table_at(
                s,
                dev,
                table_script(
                    PartitionScheme::Gpt,
                    togo_parts(facts.sectors as int, plan->WinToGoVhdx_persist_mib as int)->0,
                ),
                3,
            )
            &&& s[6] == StepModel::WaitNode(node_of(dev, 1), 10)
            &&& s[7] == StepModel::WaitNode(node_of(dev, 2), 10)
            &&& s[8] == StepModel::Tick("formatting"@)
            &&& makes_fat(s[9], final_label("FAT32"@, "FERRUS"@), node_of(dev, 1))
            &&& d > 0 ==> s[10] == StepModel::WaitNode(node_of(dev, 3), 10) && makes_ntfs(
                s[11],
                final_label("NTFS"@, "FERRUSDATA"@),
                node_of(dev, 3),
            )
            &&& makes_ntfs(s[10 + d], final_label("NTFS"@, "WINDOWS"@), node_of(dev, 2))
            &&& s[11 + d] == StepModel::ReadGuids(2)
            &&& s[12 + d] == StepModel::Tick("applying Windows image to VHDX"@)
            &&& s[13 + d] == StepModel::MountImage(plan->WinToGoVhdx_image@)
            &&& s[14 + d] == StepModel::LocateWim
            &&& s[15 + d] == StepModel::Mount(Slot::Target, node_of(dev, 2))
            &&& s[16 + d] == StepModel::CreateDisk(
                capacity(plan->vhdx_size_mib as int, facts.image_bytes as int),
            )
            &&& s[17 + d] == StepModel::AttachDisk
            &&& s[18 + d] == StepModel::FormatDisk
            &&& s[19 + d] == StepModel::MountDisk
            &&& s[20 + d] == StepModel::ApplyWim(plan->WinToGoVhdx_wim_index as int, Slot::Disk)
            &&& k > 0 ==> s[21 + d] == StepModel::Tick("injecting unattend.xml"@) && s[22 + d]
                == StepModel::InjectInstalled(Slot::Disk, plan->WinToGoVhdx_options)
            &&& s[23 + d + k] == StepModel::Tick("writing boot files"@)
            &&& s[21 + d + k] == StepModel::Unmount(Slot::Disk)
            &&& s[22 + d + k] == StepModel::DetachDisk
            &&& s[24 + d + k] == StepModel::Mount(Slot::Esp, node_of(dev, 1))
            &&& s[25 + d + k] == StepModel::CopyBootFiles
            &&& s[26 + d + k] == StepModel::WriteBcd(Some("\\windows.vhdx"@), facts.entry_guid@)
            &&& s[27 + d + k] == StepModel::Unmount(Slot::Esp)
            &&& s[28 + d + k] == StepModel::Unmount(Slot::Iso)
            &&& tries(s[29 + d + k], "sync"@, seq!["-f"@, dev])
            &&& s[30 + d + k] == StepModel::Release(Slot::Target)
            &&& s[31 + d + k] is Finish
            &&& forall|i: int|
                0 <= i < s.len() && (#[trigger] s[i]) is Run ==> i == 3 || i == 9 || i == 10 + d
                    || (d > 0 && i == 11)
        }),
{
    if let FlashPlan::WinToGoVhdx {
        image,
        wim_index,
        vhdx_size_mib,
        persist_mib,
        scheme,
        options,
    } = plan {
        let parts = togo_parts(facts.sectors as int, persist_mib as int)->0;
        let data = persist_mib > 0;
        let d = data_extra(persist_mib as int);
        let k = extra(options);
        let mib = capacity(vhdx_size_mib as int, facts.image_bytes as int);
        let path = Some(vhdx_path());
        lemma_layout_at(dev, PartitionScheme::Gpt, parts);
        lemma_togo_front(dev, parts, data);
        lemma_disk_at(dev, image@, wim_index as int, mib, options);
        lemma_boot_at(dev, path, facts.entry_guid@);
        lemma_programs();
        let s = plan_steps(dev, plan, facts);
        let l = layout_steps(dev, PartitionScheme::Gpt, parts);
        let f = togo_format_steps(dev, data);
        let v = disk_steps(dev, image@, wim_index as int, mib, options);
        let b = boot_steps(dev, path, facts.entry_guid@);
        assert(s[0] == l[0] && s[1] == l[1] && s[2] == l[2] && s[3] == l[3] && s[4] == l[4] && s[5]
            == l[5]);
        assert(s[6] == f[0] && s[7] == f[1] && s[8] == f[2] && s[9] == f[3]);
        if data {
            assert(s[10] == f[4] && s[11] == f[5]);
        }
        assert(s[10 + d] == f[4 + d] && s[11 + d] == f[5 + d]);
        assert(s[12 + d] == v[0] && s[13 + d] == v[1] && s[14 + d] == v[2] && s[15 + d] == v[3]);
        assert(s[16 + d] == v[4] && s[17 + d] == v[5] && s[18 + d] == v[6] && s[19 + d] == v[7]);
        assert(s[20 + d] == v[8]);
        if k > 0 {
            assert(s[21 + d] == v[9] && s[22 + d] == v[10]);
        }
        assert(s[21 + d + k] == v[9 + k] && s[22 + d + k] == v[10 + k]);
        assert(s[23 + d + k] == b[0] && s[24 + d + k] == b[1] && s[25 + d + k] == b[2]);
        assert(s[26 + d + k] == b[3] && s[27 + d + k] == b[4]);
        assert(s[28 + d + k] == StepModel::Unmount(Slot::Iso));
        assert(s[29 + d + k] == sync_step(dev));
        assert(s[30 + d + k] == StepModel::Release(Slot::Target) && s[31 + d + k] is Finish);
        assert forall|i: int| 0 <= i < s.len() && (#[trigger] s[i]) is Run implies i == 3 || i == 9
            || i == 10 + d || (d > 0 && i == 11) by {
            if i < 10 {
                assert(i == 0 || i == 1 || i == 2 || i == 3 || i == 4 || i == 5 || i == 6 || i == 7
                    || i == 8 || i == 9);
            } else if i < 10 + d {
                assert(i == 10 || i == 11);
            } else if i < 21 + d {
                let m = i - d;
                assert(m == 10 || m == 11 || m == 12 || m == 13 || m == 14 || m == 15 || m == 16
                    || m == 17 || m == 18 || m == 19 || m == 20);
            } else if i < 21 + d + k {
                assert(i == 21 + d || i == 22 + d);
            } else {
                let m = i - d - k;
                assert(m == 21 || m == 22 || m == 23 || m == 24 || m == 25 || m == 26 || m == 27
                    || m == 28 || m == 29 || m == 30 || m == 31);
            }
        }
        assert forall|j: int| 0 <= j < 3 implies harmless(#[trigger] s[j], dev) by {
            assert(j == 0 || j == 1 || j == 2);
        }
        assert forall|j: int| 3 < j < s.len() implies !is_sfdisk(#[trigger] s[j]) by {
            if s[j] is Run {
                assert(j == 9 || j == 10 + d || j == 11);
            }
        }
    }
}

proof fn lemma_disk_at(
    dev: Seq<char>,
    image: Seq<char>,
    wim_index: int,
    mib: int,
    options: WinOptions,
)
    ensures
        ({
            let v = disk_steps(dev, image, wim_index, mib, options);
            let k = extra(options);
            &&& v.len() == 11 + k
            &&& v[0] == StepModel::Tick("applying Windows image to VHDX"@)
            &&& v[1] == StepModel::MountImage(image)
            &&& v[2] == StepModel::LocateWim
            &&& v[3] == StepModel::Mount(Slot::Target, node_of(dev, 2))
            &&& v[4] == StepModel::CreateDisk(mib)
            &&& v[5] == StepModel::AttachDisk
            &&& v[6] == StepModel::FormatDisk
            &&& v[7] == StepModel::MountDisk
            &&& v[8] == StepModel::ApplyWim(wim_index, Slot::Disk)
            &&& k > 0 ==> v[9] == StepModel::Tick("injecting unattend.xml"@) && v[10]
                == StepModel::InjectInstalled(Slot::Disk, options)
            &&& v[9 + k] == StepModel::Unmount(Slot::Disk)
            &&& v[10 + k] == StepModel::DetachDisk
        }),
{
    reveal(disk_steps);
    lemma_extra(options, Slot::Disk);
}

} // verus!
