//! Plan execution: the steps that a flashing plan takes, in order.
//!
//! A plan becomes a list of steps. Whoever runs them performs one after
//! another and stops at the first that fails.

use crate::commands::{cmd, once, retried, Cmd, CmdModel, Task, TaskModel};
use crate::format::{
    bad_block_count, bad_blocks_task, final_label, kind_of, last_count, mkfs_any, mkfs_task,
    opt_int, scan_bad_blocks, to_upper, uppercase_of, fs_kind, FsKind,
};
use crate::iso::opt_text;
use crate::partition::{
    append_task, cmd_models, data_model, data_part, extent_models, node_of, part_models, part_node,
    partition, partition_task, persist_extent, persist_script, place_persistence, release_cmd,
    release_partitions, reread_cmds, reread_partitions, sync_dev, wipe_signatures, PartModel,
    PartSpec, PersistError, UEFI_NTFS_PART_SECTORS,
};
use crate::protocol::{BadBlocks, PartitionScheme, WinOptions};
use crate::text::{dec, lines, push_dec, str_eq};
use crate::write::{written_message, written_text};
use vstd::prelude::*;
use vstd::string::*;

verus! {

/// What can be mounted while a plan runs.
#[derive(Debug, Clone, Copy, PartialEq, Eq, Structural)]
pub enum Slot {
    /// The image, read-only.
    Iso,
    /// The partition that gets the tree.
    Target,
    /// The EFI system partition.
    Esp,
    /// The inside of the virtual disk.
    Disk,
}

/// One step of a plan.
#[derive(Debug, Clone, PartialEq, Eq)]
pub enum Step {
    /// Report a phase.
    Tick(String),
    /// Run commands and go on whatever they say.
    Try(Vec<Cmd>),
    /// Wait for so many milliseconds.
    Pause(u64),
    /// Run a command that has to succeed.
    Run(Task),
    /// Run the sector scan; what it writes decides what follows.
    Scan(Task),
    /// Wait until the node exists, for so many seconds at most.
    WaitNode(String, u64),
    /// Stop here if a cancel was asked for.
    CheckCancel,
    /// Write the image to the device, and compare it if asked to.
    WriteImage(String, bool),
    /// Append a persistence partition of so many MiB with this label.
    AddPersistence(u64, String),
    /// Find the uefi:ntfs image.
    LocateLoader,
    /// Write the uefi:ntfs image to this node.
    WriteLoader(String),
    /// Mount the image.
    MountImage(String),
    /// Mount a partition.
    Mount(Slot, String),
    /// Mount the virtual disk.
    MountDisk,
    /// Unmount; busy is an error.
    Unmount(Slot),
    /// Unmount lazily.
    Release(Slot),
    /// Copy the tree of the image: files beyond the limit are split or refused.
    CopyTree(Option<u64>, bool),
    /// Put an answer file where setup finds it.
    InjectSetup(WinOptions),
    /// Put an answer file into an installed Windows.
    InjectInstalled(Slot, WinOptions),
    /// Read the GUIDs of the disk, of partition 1 and of this partition.
    ReadGuids(u8),
    /// Find `install.wim` or `install.esd`.
    LocateWim,
    /// Apply an image of the archive.
    ApplyWim(u32, Slot),
    /// Create a virtual disk of so many MiB as `windows.vhdx` on the target.
    CreateDisk(u64),
    /// Attach the virtual disk to a loop device.
    AttachDisk,
    /// Format the virtual disk.
    FormatDisk,
    /// Detach the virtual disk.
    DetachDisk,
    /// Copy the boot manager to the EFI system partition.
    CopyBootFiles,
    /// Write a boot store for the partition, or for the virtual disk at this
    /// path, with this entry GUID.
    WriteBcd(Option<String>, String),
    /// Prepare the bootloader directory for SYSLINUX.
    PrepSyslinux,
    /// Install the SYSLINUX boot sector on this node.
    InstallSyslinux(String),
    /// Write the SYSLINUX boot code to the start of the device.
    WriteMbr,
    /// Write `persistence.conf` to the target.
    WriteConf,
    /// The plan is done.
    Finish(String),
    /// The plan is done; name the persistence partition.
    FinishPersistent(bool, u64),
    /// The plan cannot be done.
    Fail(String),
}

/// A step as plain values.
pub enum StepModel {
    Tick(Seq<char>),
    Try(Seq<CmdModel>),
    Pause(int),
    Run(TaskModel),
    Scan(TaskModel),
    WaitNode(Seq<char>, int),
    CheckCancel,
    WriteImage(Seq<char>, bool),
    AddPersistence(int, Seq<char>),
    LocateLoader,
    WriteLoader(Seq<char>),
    MountImage(Seq<char>),
    Mount(Slot, Seq<char>),
    MountDisk,
    Unmount(Slot),
    Release(Slot),
    CopyTree(Option<u64>, bool),
    InjectSetup(WinOptions),
    InjectInstalled(Slot, WinOptions),
    ReadGuids(int),
    LocateWim,
    ApplyWim(int, Slot),
    CreateDisk(int),
    AttachDisk,
    FormatDisk,
    DetachDisk,
    CopyBootFiles,
    WriteBcd(Option<Seq<char>>, Seq<char>),
    PrepSyslinux,
    InstallSyslinux(Seq<char>),
    WriteMbr,
    WriteConf,
    Finish(Seq<char>),
    FinishPersistent(bool, int),
    Fail(Seq<char>),
}

impl Step {
    pub open spec fn view(self) -> StepModel {
        match self {
            Step::Tick(t) => StepModel::Tick(t@),
            Step::Try(c) => StepModel::Try(cmd_models(c@)),
            Step::Pause(n) => StepModel::Pause(n as int),
            Step::Run(t) => StepModel::Run(t@),
            Step::Scan(t) => StepModel::Scan(t@),
            Step::WaitNode(n, s) => StepModel::WaitNode(n@, s as int),
            Step::CheckCancel => StepModel::CheckCancel,
            Step::WriteImage(i, v) => StepModel::WriteImage(i@, v),
            Step::AddPersistence(n, l) => StepModel::AddPersistence(n as int, l@),
            Step::LocateLoader => StepModel::LocateLoader,
            Step::WriteLoader(n) => StepModel::WriteLoader(n@),
            Step::MountImage(i) => StepModel::MountImage(i@),
            Step::Mount(s, n) => StepModel::Mount(s, n@),
            Step::MountDisk => StepModel::MountDisk,
            Step::Unmount(s) => StepModel::Unmount(s),
            Step::Release(s) => StepModel::Release(s),
            Step::CopyTree(l, s) => StepModel::CopyTree(l, s),
            Step::InjectSetup(o) => StepModel::InjectSetup(o),
            Step::InjectInstalled(s, o) => StepModel::InjectInstalled(s, o),
            Step::ReadGuids(n) => StepModel::ReadGuids(n as int),
            Step::LocateWim => StepModel::LocateWim,
            Step::ApplyWim(n, s) => StepModel::ApplyWim(n as int, s),
            Step::CreateDisk(n) => StepModel::CreateDisk(n as int),
            Step::AttachDisk => StepModel::AttachDisk,
            Step::FormatDisk => StepModel::FormatDisk,
            Step::DetachDisk => StepModel::DetachDisk,
            Step::CopyBootFiles => StepModel::CopyBootFiles,
            Step::WriteBcd(p, g) => StepModel::WriteBcd(opt_text(p), g@),
            Step::PrepSyslinux => StepModel::PrepSyslinux,
            Step::InstallSyslinux(n) => StepModel::InstallSyslinux(n@),
            Step::WriteMbr => StepModel::WriteMbr,
            Step::WriteConf => StepModel::WriteConf,
            Step::Finish(m) => StepModel::Finish(m@),
            Step::FinishPersistent(v, n) => StepModel::FinishPersistent(v, n as int),
            Step::Fail(m) => StepModel::Fail(m@),
        }
    }
}

pub open spec fn step_models(steps: Seq<Step>) -> Seq<StepModel> {
    steps.map_values(|s: Step| s@)
}

/// What is known of the device and the image before a plan runs.
pub struct Facts {
    /// Size of the device in sectors.
    pub sectors: u64,
    /// Size of the image in bytes.
    pub image_bytes: u64,
    /// Largest file that is copied to FAT32 as it is.
    pub split_limit: u64,
    /// GUID of the boot entry.
    pub entry_guid: String,
}

// ---- the sector scan ------------------------------------------------------------

/// The steps of the scan.
pub open spec fn scan_steps(dev: Seq<char>, mode: BadBlocks) -> Seq<StepModel> {
    seq![StepModel::Tick("checking bad blocks"@), StepModel::Scan(bad_blocks_task(dev, mode))]
}

/// What follows from the output of the scan: any bad block ends the job.
pub open spec fn scan_verdict(out: Seq<char>) -> StepModel {
    let bad = last_count(lines(out));
    if bad > 0 {
        StepModel::Fail(
            dec(bad as nat) + " bad sectors detected — aborting to protect your data"@,
        )
    } else {
        StepModel::Tick("bad-block scan clean"@)
    }
}

pub fn scan_program(dev: &str, mode: BadBlocks) -> (r: Vec<Step>)
    ensures
        step_models(r@) == scan_steps(dev@, mode),
{
    let mut r: Vec<Step> = Vec::new();
    r.push(Step::Tick("checking bad blocks".to_owned()));
    r.push(Step::Scan(scan_bad_blocks(dev, mode)));
    assert(step_models(r@) =~= scan_steps(dev@, mode));
    r
}

pub fn after_scan(out: &str) -> (s: Step)
    ensures
        s@ == scan_verdict(out@),
{
    let bad: u64 = bad_block_count(out);
    if bad > 0 {
        let mut m: String = String::new();
        push_dec(&mut m, bad);
        m.append(" bad sectors detected — aborting to protect your data");
        assert(m@ =~= dec(bad as nat)
            + " bad sectors detected — aborting to protect your data"@);
        Step::Fail(m)
    } else {
        Step::Tick("bad-block scan clean".to_owned())
    }
}

/// The steps once the scan at `at` has written `out`: its verdict takes its
/// place, and nothing follows a defect.
pub open spec fn steps_after_scan(steps: Seq<StepModel>, at: int, out: Seq<char>) -> Seq<
    StepModel,
> {
    steps.take(at).push(scan_verdict(out)) + (if scan_verdict(out) is Fail {
        seq![]
    } else {
        steps.skip(at + 1)
    })
}

/// A scan that reports a bad block ends the job, and no other does.
pub proof fn law_any_defect_aborts(out: Seq<char>)
    ensures
        last_count(lines(out)) != 0 <==> scan_verdict(out) is Fail,
{
    lemma_count_nonnegative(lines(out));
}

proof fn lemma_count_nonnegative(ls: Seq<Seq<char>>)
    ensures
        last_count(ls) >= 0,
    decreases ls.len(),
{
    if ls.len() > 0 {
        lemma_count_nonnegative(ls.drop_last());
        lemma_line_count_nonnegative(ls.last());
    }
}

proof fn lemma_line_count_nonnegative(line: Seq<char>)
    ensures
        crate::format::line_count(line) is Some ==> crate::format::line_count(line)->0 >= 0,
{
    match crate::text::find(line, "bad blocks found"@) {
        Some(i) => {
            crate::text::lemma_number_nonnegative(
                crate::format::last_word(crate::text::trim_end(line.take(i))),
                u64::MAX as int,
            );
        },
        None => {},
    }
}

// ---- parts of programs ----------------------------------------------------------

/// A fresh partition table: the old partitions are released and their
/// signatures wiped, and the kernel re-reads the table.
#[verifier::opaque]
pub open spec fn layout_steps(
    dev: Seq<char>,
    scheme: PartitionScheme,
    parts: Seq<PartModel>,
) -> Seq<StepModel> {
    seq![
        StepModel::Try(Seq::new(8, |i: int| release_cmd(dev, i + 1))),
        StepModel::Tick("partitioning"@),
        StepModel::Try(seq![cmd("wipefs"@, seq!["-a"@, dev])]),
        StepModel::Run(partition_task(dev, scheme, parts)),
        StepModel::Try(reread_cmds(dev)),
        StepModel::Pause(400),
    ]
}

pub(crate) fn push_layout(r: &mut Vec<Step>, dev: &str, scheme: PartitionScheme, parts: &Vec<PartSpec>)
    ensures
        step_models(final(r)@) == step_models(old(r)@) + layout_steps(
            dev@,
            scheme,
            part_models(parts@),
        ),
{
    let ghost start = step_models(r@);
    r.push(Step::Try(release_partitions(dev)));
    r.push(Step::Tick("partitioning".to_owned()));
    let mut wipe: Vec<Cmd> = Vec::new();
    wipe.push(wipe_signatures(dev));
    assert(cmd_models(wipe@) =~= seq![cmd("wipefs"@, seq!["-a"@, dev@])]);
    r.push(Step::Try(wipe));
    r.push(Step::Run(partition(dev, scheme, parts)));
    r.push(Step::Try(reread_partitions(dev)));
    r.push(Step::Pause(400));
    proof {
        reveal(layout_steps);
        assert(step_models(r@) =~= start + layout_steps(dev@, scheme, part_models(parts@)));
    }
}

/// A filesystem with a label as it was asked for.
pub open spec fn mkfs_step(
    fs: Seq<char>,
    label: Seq<char>,
    node: Seq<char>,
    cluster: Option<int>,
) -> StepModel {
    StepModel::Run(
        mkfs_task(fs, final_label(fs, label), node, cluster),
    )
}

pub(crate) fn push_mkfs(r: &mut Vec<Step>, fs: &str, label: &str, node: &str, cluster: Option<u64>)
    ensures
        step_models(final(r)@) == step_models(old(r)@).push(
            mkfs_step(fs@, label@, node@, opt_int(cluster)),
        ),
{
    let s = Step::Run(mkfs_any(fs, label, node, cluster));
    push_step(r, s);
}

pub(crate) fn push_step(r: &mut Vec<Step>, s: Step)
    ensures
        step_models(final(r)@) == step_models(old(r)@).push(s@),
{
    let ghost start = step_models(r@);
    r.push(s);
    assert(step_models(r@) =~= start.push(s@));
}

pub(crate) fn push_tick(r: &mut Vec<Step>, phase: &str)
    ensures
        step_models(final(r)@) == step_models(old(r)@).push(StepModel::Tick(phase@)),
{
    push_step(r, Step::Tick(phase.to_owned()));
}

pub open spec fn wait_step(node: Seq<char>) -> StepModel {
    StepModel::WaitNode(node, 10)
}

pub open spec fn sync_step(dev: Seq<char>) -> StepModel {
    StepModel::Try(seq![cmd("sync"@, seq!["-f"@, dev])])
}

pub(crate) fn push_wait(r: &mut Vec<Step>, node: &str)
    ensures
        step_models(final(r)@) == step_models(old(r)@).push(wait_step(node@)),
{
    push_step(r, Step::WaitNode(node.to_owned(), 10));
}

pub(crate) fn push_sync(r: &mut Vec<Step>, dev: &str)
    ensures
        step_models(final(r)@) == step_models(old(r)@).push(sync_step(dev@)),
{
    let mut c: Vec<Cmd> = Vec::new();
    c.push(sync_dev(dev));
    assert(cmd_models(c@) =~= seq![cmd("sync"@, seq!["-f"@, dev@])]);
    push_step(r, Step::Try(c));
}

/// `p` with another MBR type.
pub open spec fn typed(p: PartModel, mbr_type: Seq<char>) -> PartModel {
    PartModel { mbr_type, ..p }
}

pub open spec fn bootable(p: PartModel, boot: bool) -> PartModel {
    PartModel { boot, ..p }
}

// ---- formatting --------------------------------------------------------------------

/// The one partition of a plain stick.
pub open spec fn stick_part(
    scheme: PartitionScheme,
    fs: Seq<char>,
    old_bios_align: bool,
) -> PartModel {
    let kind = kind_of(fs);
    PartModel {
        mbr_type: match kind {
            FsKind::Fat => "0c"@,
            FsKind::Ext => "83"@,
            _ => "07"@,
        },
        boot: scheme == PartitionScheme::Mbr,
        start: if scheme == PartitionScheme::Mbr && old_bios_align {
            Some(63)
        } else {
            None
        },
        ..data_model("FERRUS"@, None, kind == FsKind::Ext)
    }
}

pub open spec fn format_steps(
    dev: Seq<char>,
    scheme: PartitionScheme,
    fs: Seq<char>,
    label: Seq<char>,
    cluster: Option<int>,
    old_bios_align: bool,
) -> Seq<StepModel> {
    layout_steps(dev, scheme, seq![stick_part(scheme, fs, old_bios_align)]) + seq![
        wait_step(node_of(dev, 1)),
        StepModel::Tick("formatting"@),
        mkfs_step(fs, label, node_of(dev, 1), cluster),
        sync_step(dev),
        StepModel::Finish(
            "Formatted "@ + dev + " as "@ + uppercase_of(fs) + " "@ + scheme.text(),
        ),
    ]
}

pub(crate) fn format_program(
    dev: &str,
    scheme: PartitionScheme,
    fs: &str,
    label: &str,
    cluster: Option<u64>,
    old_bios_align: bool,
) -> (r: Vec<Step>)
    ensures
        step_models(r@) == format_steps(
            dev@,
            scheme,
            fs@,
            label@,
            opt_int(cluster),
            old_bios_align,
        ),
{
    let kind = fs_kind(fs);
    let mut part = data_part("FERRUS", None, kind == FsKind::Ext);
    part.mbr_type = match kind {
        FsKind::Fat => "0c",
        FsKind::Ext => "83",
        _ => "07",
    };
    if scheme == PartitionScheme::Mbr {
        part.mbr_boot = true;
        if old_bios_align {
            part.mbr_start = Some(63);
        }
    }
    let mut parts: Vec<PartSpec> = Vec::new();
    parts.push(part);
    assert(part_models(parts@) =~= seq![stick_part(scheme, fs@, old_bios_align)]);
    let node: String = part_node(dev, 1);
    let mut r: Vec<Step> = Vec::new();
    assert(step_models(r@) =~= seq![]);
    push_layout(&mut r, dev, scheme, &parts);
    push_wait(&mut r, node.as_str());
    push_tick(&mut r, "formatting");
    push_mkfs(&mut r, fs, label, node.as_str(), cluster);
    push_sync(&mut r, dev);
    let m: String = "Formatted ".to_owned().concat(dev).concat(" as ").concat(
        to_upper(fs).as_str(),
    ).concat(" ").concat(scheme.describe());
    push_step(&mut r, Step::Finish(m));
    assert(step_models(r@) =~= format_steps(
        dev@,
        scheme,
        fs@,
        label@,
        opt_int(cluster),
        old_bios_align,
    ));
    r
}

// ---- plans that copy a tree --------------------------------------------------------

/// Mounting the image and a partition, and copying the tree.
#[verifier::opaque]
pub open spec fn copy_in_steps(
    image: Seq<char>,
    node: Seq<char>,
    limit: Option<u64>,
    split: bool,
) -> Seq<StepModel> {
    seq![
        StepModel::Tick("mounting"@),
        StepModel::MountImage(image),
        StepModel::Mount(Slot::Target, node),
        StepModel::Tick("copying files"@),
        StepModel::CopyTree(limit, split),
    ]
}

/// Putting an answer file on install media, where any option asks for it.
#[verifier::opaque]
pub open spec fn setup_steps(options: WinOptions) -> Seq<StepModel> {
    if options.some() {
        seq![StepModel::InjectSetup(options), StepModel::Tick("injected unattend.xml"@)]
    } else {
        seq![]
    }
}

#[verifier::opaque]
pub open spec fn unmount_steps() -> Seq<StepModel> {
    seq![StepModel::Unmount(Slot::Target), StepModel::Unmount(Slot::Iso)]
}

fn push_copy_in(r: &mut Vec<Step>, image: &str, node: &str, limit: Option<u64>, split: bool)
    ensures
        step_models(final(r)@) == step_models(old(r)@) + copy_in_steps(image@, node@, limit, split),
{
    let ghost start = step_models(r@);
    push_tick(r, "mounting");
    push_step(r, Step::MountImage(image.to_owned()));
    push_step(r, Step::Mount(Slot::Target, node.to_owned()));
    push_tick(r, "copying files");
    push_step(r, Step::CopyTree(limit, split));
    proof {
        reveal(copy_in_steps);
        assert(step_models(r@) =~= start + copy_in_steps(image@, node@, limit, split));
    }
}

fn push_setup(r: &mut Vec<Step>, options: WinOptions)
    ensures
        step_models(final(r)@) == step_models(old(r)@) + setup_steps(options),
{
    let ghost start = step_models(r@);
    if options.any() {
        push_step(r, Step::InjectSetup(options));
        push_tick(r, "injected unattend.xml");
    }
    proof {
        reveal(setup_steps);
        assert(step_models(r@) =~= start + setup_steps(options));
    }
}

fn push_unmount(r: &mut Vec<Step>)
    ensures
        step_models(final(r)@) == step_models(old(r)@) + unmount_steps(),
{
    let ghost start = step_models(r@);
    push_step(r, Step::Unmount(Slot::Target));
    push_step(r, Step::Unmount(Slot::Iso));
    proof {
        reveal(unmount_steps);
        assert(step_models(r@) =~= start + unmount_steps());
    }
}

/// The one partition of a FAT32 install stick.
pub open spec fn fat_part(scheme: PartitionScheme) -> PartModel {
    bootable(
        typed(data_model("FERRUS"@, None, false), "0c"@),
        scheme == PartitionScheme::Mbr,
    )
}

pub open spec fn fat32_steps(
    dev: Seq<char>,
    image: Seq<char>,
    split_wim: bool,
    scheme: PartitionScheme,
    options: WinOptions,
    limit: u64,
) -> Seq<StepModel> {
    layout_steps(dev, scheme, seq![fat_part(scheme)]) + seq![
        wait_step(node_of(dev, 1)),
        StepModel::Tick("formatting"@),
        mkfs_step("FAT32"@, "FERRUS"@, node_of(dev, 1), None),
    ] + copy_in_steps(image, node_of(dev, 1), Some(limit), split_wim) + setup_steps(options)
        + unmount_steps() + seq![
        sync_step(dev),
        StepModel::Finish(
            "Windows USB ready (FAT32"@ + (if split_wim {
                ", split WIM"@
            } else {
                seq![]
            }) + ", "@ + scheme.text() + ")"@,
        ),
    ]
}

pub(crate) fn fat32_program(
    dev: &str,
    image: &str,
    split_wim: bool,
    scheme: PartitionScheme,
    options: WinOptions,
    limit: u64,
) -> (r: Vec<Step>)
    ensures
        step_models(r@) == fat32_steps(dev@, image@, split_wim, scheme, options, limit),
{
    let mut part = data_part("FERRUS", None, false);
    part.mbr_type = "0c";
    if scheme == PartitionScheme::Mbr {
        part.mbr_boot = true;
    }
    let mut parts: Vec<PartSpec> = Vec::new();
    parts.push(part);
    assert(part_models(parts@) =~= seq![fat_part(scheme)]);
    let node: String = part_node(dev, 1);
    let mut r: Vec<Step> = Vec::new();
    assert(step_models(r@) =~= seq![]);
    push_layout(&mut r, dev, scheme, &parts);
    push_wait(&mut r, node.as_str());
    push_tick(&mut r, "formatting");
    push_mkfs(&mut r, "FAT32", "FERRUS", node.as_str(), None);
    push_copy_in(&mut r, image, node.as_str(), Some(limit), split_wim);
    push_setup(&mut r, options);
    push_unmount(&mut r);
    push_sync(&mut r, dev);
    let mut m: String = "Windows USB ready (FAT32".to_owned();
    if split_wim {
        m.append(", split WIM");
    }
    m.append(", ");
    m.append(scheme.describe());
    m.append(")");
    assert(m@ =~= "Windows USB ready (FAT32"@ + (if split_wim {
        ", split WIM"@
    } else {
        seq![]
    }) + ", "@ + scheme.text() + ")"@);
    push_step(&mut r, Step::Finish(m));
    assert(step_models(r@) =~= fat32_steps(dev@, image@, split_wim, scheme, options, limit));
    r
}

/// The boot partition and the data partition of a UEFI:NTFS stick.
pub open spec fn uefi_ntfs_parts() -> Seq<PartModel> {
    seq![
        typed(data_model("UEFI-NTFS"@, Some(UEFI_NTFS_PART_SECTORS), false), "0c"@),
        data_model("WININSTALL"@, None, false),
    ]
}

pub open spec fn uefi_ntfs_steps(
    dev: Seq<char>,
    image: Seq<char>,
    scheme: PartitionScheme,
    options: WinOptions,
) -> Seq<StepModel> {
    seq![StepModel::LocateLoader] + layout_steps(dev, scheme, uefi_ntfs_parts()) + seq![
        wait_step(node_of(dev, 1)),
        wait_step(node_of(dev, 2)),
        StepModel::Tick("writing UEFI:NTFS bootloader"@),
        StepModel::WriteLoader(node_of(dev, 1)),
        StepModel::Tick("formatting"@),
        mkfs_step("NTFS"@, "WININSTALL"@, node_of(dev, 2), None),
    ] + copy_in_steps(image, node_of(dev, 2), None, false) + setup_steps(options)
        + unmount_steps() + seq![
        sync_step(dev),
        StepModel::Finish("Windows USB ready (UEFI:NTFS, "@ + scheme.text() + ")"@),
    ]
}

pub(crate) fn uefi_ntfs_program(dev: &str, image: &str, scheme: PartitionScheme, options: WinOptions) -> (r:
    Vec<Step>)
    ensures
        step_models(r@) == uefi_ntfs_steps(dev@, image@, scheme, options),
{
    let mut p_boot = data_part("UEFI-NTFS", Some(UEFI_NTFS_PART_SECTORS), false);
    p_boot.mbr_type = "0c";
    let p_data = data_part("WININSTALL", None, false);
    let mut parts: Vec<PartSpec> = Vec::new();
    parts.push(p_boot);
    parts.push(p_data);
    assert(part_models(parts@) =~= uefi_ntfs_parts());
    let n1: String = part_node(dev, 1);
    let n2: String = part_node(dev, 2);
    let mut r: Vec<Step> = Vec::new();
    assert(step_models(r@) =~= seq![]);
    push_step(&mut r, Step::LocateLoader);
    assert(step_models(r@) =~= seq![StepModel::LocateLoader]);
    push_layout(&mut r, dev, scheme, &parts);
    push_wait(&mut r, n1.as_str());
    push_wait(&mut r, n2.as_str());
    push_tick(&mut r, "writing UEFI:NTFS bootloader");
    push_step(&mut r, Step::WriteLoader(n1));
    push_tick(&mut r, "formatting");
    push_mkfs(&mut r, "NTFS", "WININSTALL", n2.as_str(), None);
    push_copy_in(&mut r, image, n2.as_str(), None, false);
    push_setup(&mut r, options);
    push_unmount(&mut r);
    push_sync(&mut r, dev);
    let m: String = "Windows USB ready (UEFI:NTFS, ".to_owned().concat(scheme.describe()).concat(
        ")",
    );
    push_step(&mut r, Step::Finish(m));
    assert(step_models(r@) =~= uefi_ntfs_steps(dev@, image@, scheme, options));
    r
}

/// SYSLINUX on a BIOS needs an MBR table: its boot code starts the active
/// partition.
pub open spec fn extract_scheme(scheme: PartitionScheme, bios: bool) -> PartitionScheme {
    if bios {
        PartitionScheme::Mbr
    } else {
        scheme
    }
}

pub open spec fn extract_steps(
    dev: Seq<char>,
    image: Seq<char>,
    scheme: PartitionScheme,
    bios: bool,
) -> Seq<StepModel> {
    let table = extract_scheme(scheme, bios);
    (if bios && scheme == PartitionScheme::Gpt {
        seq![StepModel::Tick("forcing MBR (SYSLINUX BIOS requirement)"@)]
    } else {
        seq![]
    }) + layout_steps(
        dev,
        table,
        seq![bootable(typed(data_model("LIVE"@, None, false), "0c"@), bios)],
    ) + seq![
        wait_step(node_of(dev, 1)),
        StepModel::Tick("formatting"@),
        mkfs_step("FAT32"@, "LIVE"@, node_of(dev, 1), None),
    ] + copy_in_steps(image, node_of(dev, 1), None, false) + (if bios {
        seq![StepModel::PrepSyslinux]
    } else {
        seq![]
    }) + unmount_steps() + (if bios {
        seq![
            StepModel::Tick("installing SYSLINUX"@),
            StepModel::InstallSyslinux(node_of(dev, 1)),
            StepModel::WriteMbr,
        ]
    } else {
        seq![]
    }) + seq![
        sync_step(dev),
        StepModel::Finish(
            "Linux USB ready (extracted"@ + (if bios {
                " + SYSLINUX"@
            } else {
                seq![]
            }) + ", "@ + table.text() + ")"@,
        ),
    ]
}

pub(crate) fn extract_program(dev: &str, image: &str, scheme: PartitionScheme, bios: bool) -> (r: Vec<Step>)
    ensures
        step_models(r@) == extract_steps(dev@, image@, scheme, bios),
{
    let table: PartitionScheme = if bios { PartitionScheme::Mbr } else { scheme };
    let mut part = data_part("LIVE", None, false);
    part.mbr_type = "0c";
    part.mbr_boot = bios;
    let mut parts: Vec<PartSpec> = Vec::new();
    parts.push(part);
    let ghost live = bootable(typed(data_model("LIVE"@, None, false), "0c"@), bios);
    assert(part_models(parts@) =~= seq![live]);
    let node: String = part_node(dev, 1);
    let mut r: Vec<Step> = Vec::new();
    assert(step_models(r@) =~= seq![]);
    if bios && scheme == PartitionScheme::Gpt {
        push_tick(&mut r, "forcing MBR (SYSLINUX BIOS requirement)");
        assert(step_models(r@) =~= seq![
            StepModel::Tick("forcing MBR (SYSLINUX BIOS requirement)"@),
        ]);
    }
    push_layout(&mut r, dev, table, &parts);
    push_wait(&mut r, node.as_str());
    push_tick(&mut r, "formatting");
    push_mkfs(&mut r, "FAT32", "LIVE", node.as_str(), None);
    push_copy_in(&mut r, image, node.as_str(), None, false);
    if bios {
        push_step(&mut r, Step::PrepSyslinux);
    }
    push_unmount(&mut r);
    if bios {
        push_tick(&mut r, "installing SYSLINUX");
        push_step(&mut r, Step::InstallSyslinux(node));
        push_step(&mut r, Step::WriteMbr);
    }
    push_sync(&mut r, dev);
    let mut m: String = "Linux USB ready (extracted".to_owned();
    if bios {
        m.append(" + SYSLINUX");
    }
    m.append(", ");
    m.append(table.describe());
    m.append(")");
    assert(m@ =~= "Linux USB ready (extracted"@ + (if bios {
        " + SYSLINUX"@
    } else {
        seq![]
    }) + ", "@ + table.text() + ")"@);
    push_step(&mut r, Step::Finish(m));
    assert(step_models(r@) =~= extract_steps(dev@, image@, scheme, bios));
    r
}

// ---- raw images ----------------------------------------------------------------------

/// The label of a persistence partition, where none was detected.
pub open spec fn persist_label(label: Option<Seq<char>>) -> Seq<char> {
    match label {
        Some(l) => l,
        None => "casper-rw"@,
    }
}

pub open spec fn raw_steps(
    dev: Seq<char>,
    image: Seq<char>,
    verify: bool,
    persistence_mb: int,
    label: Option<Seq<char>>,
) -> Seq<StepModel> {
    if persistence_mb > 0 {
        seq![
            StepModel::WriteImage(image, verify),
            StepModel::AddPersistence(persistence_mb, persist_label(label)),
            StepModel::FinishPersistent(verify, persistence_mb),
        ]
    } else {
        seq![
            StepModel::WriteImage(image, verify),
            StepModel::Finish(written_text(verify, dev)),
        ]
    }
}

pub(crate) fn raw_program(
    dev: &str,
    image: &str,
    verify: bool,
    persistence_mb: u64,
    label: &Option<String>,
) -> (r: Vec<Step>)
    ensures
        step_models(r@) == raw_steps(
            dev@,
            image@,
            verify,
            persistence_mb as int,
            opt_text(*label),
        ),
{
    let mut r: Vec<Step> = Vec::new();
    assert(step_models(r@) =~= seq![]);
    push_step(&mut r, Step::WriteImage(image.to_owned(), verify));
    if persistence_mb > 0 {
        let l: String = match label {
            Some(l) => l.as_str().to_owned(),
            None => "casper-rw".to_owned(),
        };
        push_step(&mut r, Step::AddPersistence(persistence_mb, l));
        push_step(&mut r, Step::FinishPersistent(verify, persistence_mb));
    } else {
        push_step(&mut r, Step::Finish(written_message(verify, dev)));
    }
    assert(step_models(r@) =~= raw_steps(
        dev@,
        image@,
        verify,
        persistence_mb as int,
        opt_text(*label),
    ));
    r
}

/// The number of the partition behind `n` others, as a byte.
pub open spec fn next_number(n: int) -> int {
    (n % 256 + 1) % 256
}

/// The steps that append a persistence partition, once its place is known.
pub open spec fn persistence_steps(
    dev: Seq<char>,
    is_gpt: bool,
    count: int,
    start: int,
    size: int,
    label: Seq<char>,
) -> Seq<StepModel> {
    let node = node_of(dev, next_number(count));
    seq![
        StepModel::Tick("adding persistence partition"@),
        StepModel::CheckCancel,
        StepModel::Run(
            once(
                crate::commands::cmd_with(
                    "sfdisk"@,
                    seq!["-q"@, "--force"@, "--append"@, dev],
                    persist_script(is_gpt, start, size),
                ),
                "appending persistence partition"@,
            ),
        ),
        StepModel::Try(reread_cmds(dev)),
        StepModel::Pause(400),
        wait_step(node),
        StepModel::Tick("formatting persistence"@),
        StepModel::Run(
            retried(
                cmd("mkfs.ext4"@, seq!["-F"@, "-L"@, label, node]),
                "creating ext4 ("@ + label + ")"@,
            ),
        ),
    ] + (if label == "persistence"@ {
        seq![
            StepModel::Tick("writing persistence.conf"@),
            StepModel::Mount(Slot::Target, node),
            StepModel::WriteConf,
            StepModel::Unmount(Slot::Target),
        ]
    } else {
        seq![]
    }) + seq![sync_step(dev)]
}

/// The steps that append an ext4 persistence partition in the free space behind
/// the image. The Debian label also gets a `persistence.conf`.
pub fn add_persistence(
    dev: &str,
    is_gpt: bool,
    parts: &Vec<(u64, u64)>,
    total: u64,
    persistence_mb: u64,
    label: &str,
) -> (r: Result<Vec<Step>, PersistError>)
    ensures
        match persist_extent(
            is_gpt,
            extent_models(parts@),
            total as int,
            persistence_mb as int,
        ) {
            Ok((start, size)) => r matches Ok(steps) && step_models(steps@) == persistence_steps(
                dev@,
                is_gpt,
                parts@.len() as int,
                start,
                size,
                label@,
            ),
            Err(e) => r matches Err(x) && x == e,
        },
{
    let (start, size) = match place_persistence(is_gpt, parts, total, persistence_mb) {
        Ok(p) => p,
        Err(e) => return Err(e),
    };
    let n: u8 = ((parts.len() % 256 + 1) % 256) as u8;
    let node: String = part_node(dev, n);
    let mut r: Vec<Step> = Vec::new();
    assert(step_models(r@) =~= seq![]);
    push_tick(&mut r, "adding persistence partition");
    push_step(&mut r, Step::CheckCancel);
    push_step(&mut r, Step::Run(append_task(dev, is_gpt, start, size)));
    push_step(&mut r, Step::Try(reread_partitions(dev)));
    push_step(&mut r, Step::Pause(400));
    push_wait(&mut r, node.as_str());
    push_tick(&mut r, "formatting persistence");
    let c = Cmd::new("mkfs.ext4").arg("-F").arg("-L").arg(label).arg(node.as_str());
    assert(c@.args =~= seq!["-F"@, "-L"@, label@, node@]);
    push_step(
        &mut r,
        Step::Run(
            Task::retried(c, "creating ext4 (".to_owned().concat(label).concat(")").as_str()),
        ),
    );
    if str_eq(label, "persistence") {
        push_tick(&mut r, "writing persistence.conf");
        push_step(&mut r, Step::Mount(Slot::Target, node));
        push_step(&mut r, Step::WriteConf);
        push_step(&mut r, Step::Unmount(Slot::Target));
    }
    push_sync(&mut r, dev);
    assert(step_models(r@) =~= persistence_steps(
        dev@,
        is_gpt,
        parts@.len() as int,
        start as int,
        size as int,
        label@,
    ));
    Ok(r)
}

/// The words for a finished write with persistence; `count` partitions are
/// there now.
pub open spec fn persistent_text(verify: bool, dev: Seq<char>, mb: int, count: int) -> Seq<char> {
    written_text(verify, dev) + " (+"@ + dec(mb as nat) + " MiB persistence on "@ + node_of(
        dev,
        count % 256,
    ) + ")"@
}

pub fn persistent_message(verify: bool, dev: &str, persistence_mb: u64, count: usize) -> (m: String)
    ensures
        m@ == persistent_text(verify, dev@, persistence_mb as int, count as int),
{
    let mut m: String = written_message(verify, dev);
    m.append(" (+");
    push_dec(&mut m, persistence_mb);
    m.append(" MiB persistence on ");
    m.append(part_node(dev, (count % 256) as u8).as_str());
    m.append(")");
    m
}

} // verus!
