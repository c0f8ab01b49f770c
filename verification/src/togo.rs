//! Windows To Go: layouts and steps.

use crate::bcd::{
    bcd_tree, filetime, generate_uefi_bcd, generate_uefi_bcd_vhdx, valid_guid, vhdx_tree,
    BcdError, PartitionRef,
};
use crate::bytes::{lemma_utf16_len, utf16};
use crate::commands::Task;
use crate::flash::{
    layout_steps, mkfs_step, push_layout, push_mkfs, push_step, push_sync, push_tick, push_wait,
    step_models, sync_step, typed, wait_step, Slot, Step, StepModel,
};
use crate::format::{final_label, mkfs_any, mkfs_task};
use crate::hive_store::store_file;
use crate::partition::{
    data_model, data_part, node_of, part_models, part_node, usable_end, PartModel, PartSpec,
    ESP_SECTORS,
};
use crate::paths::{join, path_join};
use crate::protocol::{PartitionScheme, WinOptions};
use crate::text::{dec, push_dec};
use vstd::prelude::*;
use vstd::string::*;

verus! {

/// What is said where a data partition does not fit.
pub open spec fn no_room() -> Seq<char> {
    "not enough space left on the device for the data partition"@
}

/// The size of the Windows partition, in sectors, where a data partition of
/// `persist_mib` MiB stands behind it. The system partition starts at 1 MiB, and
/// everything is aligned to 1 MiB.
pub open spec fn windows_sectors(sectors: int, persist_mib: int) -> int {
    usable_end(sectors, true) / 2048 * 2048 - 2048 - ESP_SECTORS - persist_mib * 2048
}

/// The partitions of a Windows To Go stick: the EFI system partition, Windows,
/// and a data partition behind it where one is asked for. Without one, Windows
/// gets all the rest. None where the data partition does not fit.
pub open spec fn togo_parts(sectors: int, persist_mib: int) -> Option<Seq<PartModel>> {
    let esp = typed(data_model("FERRUS"@, Some(ESP_SECTORS), false), "0c"@);
    let win = windows_sectors(sectors, persist_mib);
    if persist_mib == 0 {
        Some(seq![esp, data_model("WINDOWS"@, None, false)])
    } else if win < 2048 {
        None
    } else {
        Some(
            seq![
                esp,
                data_model("WINDOWS"@, Some(win as u64), false),
                data_model("FERRUSDATA"@, Some((persist_mib * 2048) as u64), false),
            ],
        )
    }
}

pub fn togo_layout(sectors: u64, persist_mib: u64) -> (r: Option<Vec<PartSpec>>)
    ensures
        match r {
            Some(p) => togo_parts(sectors as int, persist_mib as int) == Some(part_models(p@)),
            None => togo_parts(sectors as int, persist_mib as int) is None,
        },
{
    let mut esp = data_part("FERRUS", Some(ESP_SECTORS), false);
    esp.mbr_type = "0c";
    let mut parts: Vec<PartSpec> = Vec::new();
    parts.push(esp);
    if persist_mib == 0 {
        parts.push(data_part("WINDOWS", None, false));
        assert(part_models(parts@) =~= togo_parts(sectors as int, persist_mib as int)->0);
        return Some(parts);
    }
    let end: u128 = if sectors >= 128 { (sectors as u128 - 128) / 2048 * 2048 } else { 0 };
    let data: u128 = persist_mib as u128 * 2048;
    if end < 2048 + ESP_SECTORS as u128 + data + 2048 {
        return None;
    }
    let win: u64 = (end - 2048 - ESP_SECTORS as u128 - data) as u64;
    parts.push(data_part("WINDOWS", Some(win), false));
    parts.push(data_part("FERRUSDATA", Some(data as u64), false));
    assert(part_models(parts@) =~= togo_parts(sectors as int, persist_mib as int)->0);
    Some(parts)
}

/// With a data partition the three partitions fill the device up to its last
/// usable MiB and no further, Windows lies between the other two, and the data
/// partition is as large as asked for.
pub proof fn law_togo_fits(sectors: int, persist_mib: int)
    requires
        0 <= sectors < 0x1_0000_0000_0000_0000,
        0 < persist_mib,
        togo_parts(sectors, persist_mib) is Some,
    ensures
        ({
            let p = togo_parts(sectors, persist_mib)->0;
            &&& p.len() == 3
            &&& p[0].name == "FERRUS"@ && p[1].name == "WINDOWS"@ && p[2].name == "FERRUSDATA"@
            &&& p[2].size == Some((persist_mib * 2048) as u64)
            &&& persist_mib * 2048 < 0x1_0000_0000_0000_0000
            &&& 2048 + p[0].size->0 + p[1].size->0 + p[2].size->0 == usable_end(sectors, true)
                / 2048 * 2048
            &&& usable_end(sectors, true) <= sectors
        }),
{
}

/// Formatting the partitions of a Windows To Go stick.
#[verifier::opaque]
pub open spec fn togo_format_steps(dev: Seq<char>, data: bool) -> Seq<StepModel> {
    seq![
        wait_step(node_of(dev, 1)),
        wait_step(node_of(dev, 2)),
        StepModel::Tick("formatting"@),
        mkfs_step("FAT32"@, "FERRUS"@, node_of(dev, 1), None),
    ] + (if data {
        seq![
            wait_step(node_of(dev, 3)),
            mkfs_step("NTFS"@, "FERRUSDATA"@, node_of(dev, 3), None),
        ]
    } else {
        seq![]
    }) + seq![mkfs_step("NTFS"@, "WINDOWS"@, node_of(dev, 2), None), StepModel::ReadGuids(2)]
}

fn push_togo_format(r: &mut Vec<Step>, dev: &str, data: bool)
    ensures
        step_models(final(r)@) == step_models(old(r)@) + togo_format_steps(dev@, data),
{
    let ghost start = step_models(r@);
    let n1: String = part_node(dev, 1);
    let n2: String = part_node(dev, 2);
    push_wait(r, n1.as_str());
    push_wait(r, n2.as_str());
    push_tick(r, "formatting");
    push_mkfs(r, "FAT32", "FERRUS", n1.as_str(), None);
    if data {
        let n3: String = part_node(dev, 3);
        push_wait(r, n3.as_str());
        push_mkfs(r, "NTFS", "FERRUSDATA", n3.as_str(), None);
    }
    push_mkfs(r, "NTFS", "WINDOWS", n2.as_str(), None);
    push_step(r, Step::ReadGuids(2));
    proof {
        reveal(togo_format_steps);
        assert(step_models(r@) =~= start + togo_format_steps(dev@, data));
    }
}

/// Putting an answer file into an installed Windows, where any option asks for
/// it.
#[verifier::opaque]
pub open spec fn installed_steps(slot: Slot, options: WinOptions) -> Seq<StepModel> {
    if options.some() {
        seq![
            StepModel::Tick("injecting unattend.xml"@),
            StepModel::InjectInstalled(slot, options),
        ]
    } else {
        seq![]
    }
}

fn push_installed(r: &mut Vec<Step>, slot: Slot, options: WinOptions)
    ensures
        step_models(final(r)@) == step_models(old(r)@) + installed_steps(slot, options),
{
    let ghost start = step_models(r@);
    if options.any() {
        push_tick(r, "injecting unattend.xml");
        push_step(r, Step::InjectInstalled(slot, options));
    }
    proof {
        reveal(installed_steps);
        assert(step_models(r@) =~= start + installed_steps(slot, options));
    }
}

/// Writing boot manager and boot store to the EFI system partition.
#[verifier::opaque]
pub open spec fn boot_steps(
    dev: Seq<char>,
    vhdx: Option<Seq<char>>,
    entry: Seq<char>,
) -> Seq<StepModel> {
    seq![
        StepModel::Tick("writing boot files"@),
        StepModel::Mount(Slot::Esp, node_of(dev, 1)),
        StepModel::CopyBootFiles,
        StepModel::WriteBcd(vhdx, entry),
        StepModel::Unmount(Slot::Esp),
    ]
}

fn push_boot(r: &mut Vec<Step>, dev: &str, vhdx: Option<String>, entry: &str)
    ensures
        step_models(final(r)@) == step_models(old(r)@) + boot_steps(
            dev@,
            crate::iso::opt_text(vhdx),
            entry@,
        ),
{
    let ghost start = step_models(r@);
    let ghost path = crate::iso::opt_text(vhdx);
    push_tick(r, "writing boot files");
    push_step(r, Step::Mount(Slot::Esp, part_node(dev, 1)));
    push_step(r, Step::CopyBootFiles);
    push_step(r, Step::WriteBcd(vhdx, entry.to_owned()));
    push_step(r, Step::Unmount(Slot::Esp));
    proof {
        reveal(boot_steps);
        assert(step_models(r@) =~= start + boot_steps(dev@, path, entry@));
    }
}

/// `, +N MiB data`, where there is a data partition.
pub open spec fn data_text(persist_mib: int) -> Seq<char> {
    if persist_mib > 0 {
        ", +"@ + dec(persist_mib as nat) + " MiB data"@
    } else {
        seq![]
    }
}

fn push_data_text(m: &mut String, persist_mib: u64)
    ensures
        final(m)@ == old(m)@ + data_text(persist_mib as int),
{
    let ghost start = m@;
    if persist_mib > 0 {
        m.append(", +");
        push_dec(m, persist_mib);
        m.append(" MiB data");
    }
    assert(m@ =~= start + data_text(persist_mib as int));
}

/// Windows applied to a partition.
pub open spec fn togo_steps(
    dev: Seq<char>,
    image: Seq<char>,
    wim_index: int,
    persist_mib: int,
    scheme: PartitionScheme,
    options: WinOptions,
    sectors: int,
    entry: Seq<char>,
) -> Seq<StepModel> {
    if scheme == PartitionScheme::Mbr {
        seq![
            StepModel::Fail("Windows To Go requires GPT (UEFI boot); pick the GPT scheme"@),
        ]
    } else {
        match togo_parts(sectors, persist_mib) {
            None => seq![StepModel::Fail(no_room())],
            Some(parts) => layout_steps(dev, PartitionScheme::Gpt, parts) + togo_format_steps(
                dev,
                persist_mib > 0,
            ) + seq![
                StepModel::Tick("applying Windows image"@),
                StepModel::MountImage(image),
                StepModel::LocateWim,
                StepModel::Mount(Slot::Target, node_of(dev, 2)),
                StepModel::ApplyWim(wim_index, Slot::Target),
            ] + installed_steps(Slot::Target, options) + boot_steps(dev, None, entry) + seq![
                StepModel::Unmount(Slot::Target),
                StepModel::Unmount(Slot::Iso),
                sync_step(dev),
                StepModel::Finish(
                    "Windows To Go ready ("@ + scheme.text() + ", entry "@ + entry + data_text(
                        persist_mib,
                    ) + ")"@,
                ),
            ],
        }
    }
}

pub(crate) fn togo_program(
    dev: &str,
    image: &str,
    wim_index: u32,
    persist_mib: u64,
    scheme: PartitionScheme,
    options: WinOptions,
    sectors: u64,
    entry: &str,
) -> (r: Vec<Step>)
    ensures
        step_models(r@) == togo_steps(
            dev@,
            image@,
            wim_index as int,
            persist_mib as int,
            scheme,
            options,
            sectors as int,
            entry@,
        ),
{
    let ghost want = togo_steps(
        dev@,
        image@,
        wim_index as int,
        persist_mib as int,
        scheme,
        options,
        sectors as int,
        entry@,
    );
    let mut r: Vec<Step> = Vec::new();
    assert(step_models(r@) =~= seq![]);
    if scheme == PartitionScheme::Mbr {
        push_step(
            &mut r,
            Step::Fail(
                "Windows To Go requires GPT (UEFI boot); pick the GPT scheme".to_owned(),
            ),
        );
        assert(step_models(r@) =~= want);
        return r;
    }
    let parts: Vec<PartSpec> = match togo_layout(sectors, persist_mib) {
        Some(p) => p,
        None => {
            push_step(
                &mut r,
                Step::Fail(
                    "not enough space left on the device for the data partition".to_owned(),
                ),
            );
            assert(step_models(r@) =~= want);
            return r;
        },
    };
    push_layout(&mut r, dev, PartitionScheme::Gpt, &parts);
    push_togo_format(&mut r, dev, persist_mib > 0);
    push_tick(&mut r, "applying Windows image");
    push_step(&mut r, Step::MountImage(image.to_owned()));
    push_step(&mut r, Step::LocateWim);
    push_step(&mut r, Step::Mount(Slot::Target, part_node(dev, 2)));
    push_step(&mut r, Step::ApplyWim(wim_index, Slot::Target));
    push_installed(&mut r, Slot::Target, options);
    push_boot(&mut r, dev, None, entry);
    push_step(&mut r, Step::Unmount(Slot::Target));
    push_step(&mut r, Step::Unmount(Slot::Iso));
    push_sync(&mut r, dev);
    let mut m: String = "Windows To Go ready (".to_owned();
    m.append(scheme.describe());
    m.append(", entry ");
    m.append(entry);
    push_data_text(&mut m, persist_mib);
    m.append(")");
    push_step(&mut r, Step::Finish(m));
    assert(step_models(r@) =~= want);
    r
}

/// The name of the virtual disk's file.
pub open spec fn disk_name() -> Seq<char> {
    "windows.vhdx"@
}

/// The virtual disk on a partition that is mounted at `root`.
pub fn disk_file(root: &str) -> (p: String)
    ensures
        p@ == join(root@, disk_name()),
{
    path_join(root, "windows.vhdx")
}

/// The command that formats the virtual disk, attached at `node`.
pub fn format_disk_task(node: &str) -> (t: Task)
    ensures
        t@ == mkfs_task("NTFS"@, final_label("NTFS"@, "WINDOWS"@), node@, None),
{
    mkfs_any("NTFS", "WINDOWS", node, None)
}

/// The boot store names the file that is created: its path from the root of the
/// partition is a backslash and the file's name.
pub proof fn law_store_names_the_disk()
    ensures
        vhdx_path() == seq!['\\'] + disk_name(),
{
    reveal_strlit("\\windows.vhdx");
    reveal_strlit("windows.vhdx");
    assert(vhdx_path() =~= seq!['\\'] + disk_name());
}

/// The place of the virtual disk on its partition.
pub open spec fn vhdx_path() -> Seq<char> {
    "\\windows.vhdx"@
}

/// Creating a virtual disk and applying Windows to it.
#[verifier::opaque]
pub open spec fn disk_steps(
    dev: Seq<char>,
    image: Seq<char>,
    wim_index: int,
    mib: int,
    options: WinOptions,
) -> Seq<StepModel> {
    seq![
        StepModel::Tick("applying Windows image to VHDX"@),
        StepModel::MountImage(image),
        StepModel::LocateWim,
        StepModel::Mount(Slot::Target, node_of(dev, 2)),
        StepModel::CreateDisk(mib),
        StepModel::AttachDisk,
        StepModel::FormatDisk,
        StepModel::MountDisk,
        StepModel::ApplyWim(wim_index, Slot::Disk),
    ] + installed_steps(Slot::Disk, options) + seq![
        StepModel::Unmount(Slot::Disk),
        StepModel::DetachDisk,
    ]
}

fn push_disk(
    r: &mut Vec<Step>,
    dev: &str,
    image: &str,
    wim_index: u32,
    mib: u64,
    options: WinOptions,
)
    ensures
        step_models(final(r)@) == step_models(old(r)@) + disk_steps(
            dev@,
            image@,
            wim_index as int,
            mib as int,
            options,
        ),
{
    let ghost start = step_models(r@);
    push_tick(r, "applying Windows image to VHDX");
    push_step(r, Step::MountImage(image.to_owned()));
    push_step(r, Step::LocateWim);
    push_step(r, Step::Mount(Slot::Target, part_node(dev, 2)));
    push_step(r, Step::CreateDisk(mib));
    push_step(r, Step::AttachDisk);
    push_step(r, Step::FormatDisk);
    push_step(r, Step::MountDisk);
    push_step(r, Step::ApplyWim(wim_index, Slot::Disk));
    push_installed(r, Slot::Disk, options);
    push_step(r, Step::Unmount(Slot::Disk));
    push_step(r, Step::DetachDisk);
    proof {
        reveal(disk_steps);
        assert(step_models(r@) =~= start + disk_steps(
            dev@,
            image@,
            wim_index as int,
            mib as int,
            options,
        ));
    }
}

/// Windows applied to a virtual disk on a partition.
pub open spec fn togo_vhdx_steps(
    dev: Seq<char>,
    image: Seq<char>,
    wim_index: int,
    mib: int,
    persist_mib: int,
    scheme: PartitionScheme,
    options: WinOptions,
    sectors: int,
    entry: Seq<char>,
) -> Seq<StepModel> {
    if scheme == PartitionScheme::Mbr {
        seq![
            StepModel::Fail("Windows To Go VHDX requires GPT (UEFI boot); pick the GPT scheme"@),
        ]
    } else {
        match togo_parts(sectors, persist_mib) {
            None => seq![StepModel::Fail(no_room())],
            Some(parts) => layout_steps(dev, PartitionScheme::Gpt, parts) + togo_format_steps(
                dev,
                persist_mib > 0,
            ) + disk_steps(dev, image, wim_index, mib, options) + boot_steps(dev, Some(vhdx_path()), entry) + seq![
                StepModel::Unmount(Slot::Iso),
                sync_step(dev),
                StepModel::Release(Slot::Target),
                StepModel::Finish(
                    "Windows To Go (VHDX) ready ("@ + scheme.text() + ", entry "@ + entry + ", "@
                        + dec(mib as nat) + " MiB"@ + data_text(persist_mib) + ")"@,
                ),
            ],
        }
    }
}

pub(crate) fn togo_vhdx_program(
    dev: &str,
    image: &str,
    wim_index: u32,
    mib: u64,
    persist_mib: u64,
    scheme: PartitionScheme,
    options: WinOptions,
    sectors: u64,
    entry: &str,
) -> (r: Vec<Step>)
    ensures
        step_models(r@) == togo_vhdx_steps(
            dev@,
            image@,
            wim_index as int,
            mib as int,
            persist_mib as int,
            scheme,
            options,
            sectors as int,
            entry@,
        ),
{
    let ghost want = togo_vhdx_steps(
        dev@,
        image@,
        wim_index as int,
        mib as int,
        persist_mib as int,
        scheme,
        options,
        sectors as int,
        entry@,
    );
    let mut r: Vec<Step> = Vec::new();
    assert(step_models(r@) =~= seq![]);
    if scheme == PartitionScheme::Mbr {
        push_step(
            &mut r,
            Step::Fail(
                "Windows To Go VHDX requires GPT (UEFI boot); pick the GPT scheme".to_owned(),
            ),
        );
        assert(step_models(r@) =~= want);
        return r;
    }
    let parts: Vec<PartSpec> = match togo_layout(sectors, persist_mib) {
        Some(p) => p,
        None => {
            push_step(
                &mut r,
                Step::Fail(
                    "not enough space left on the device for the data partition".to_owned(),
                ),
            );
            assert(step_models(r@) =~= want);
            return r;
        },
    };
    push_layout(&mut r, dev, PartitionScheme::Gpt, &parts);
    push_togo_format(&mut r, dev, persist_mib > 0);
    push_disk(&mut r, dev, image, wim_index, mib, options);
    push_boot(&mut r, dev, Some("\\windows.vhdx".to_owned()), entry);
    push_step(&mut r, Step::Unmount(Slot::Iso));
    push_sync(&mut r, dev);
    push_step(&mut r, Step::Release(Slot::Target));
    let mut m: String = "Windows To Go (VHDX) ready (".to_owned();
    m.append(scheme.describe());
    m.append(", entry ");
    m.append(entry);
    m.append(", ");
    push_dec(&mut m, mib);
    m.append(" MiB");
    push_data_text(&mut m, persist_mib);
    m.append(")");
    push_step(&mut r, Step::Finish(m));
    assert(step_models(r@) =~= want);
    r
}

/// The boot store of a Windows To Go stick, for Windows on the partition `win`
/// or in the virtual disk `vhdx` on it: titled `Windows To Go`, with a countdown
/// of ten seconds.
pub fn boot_store(vhdx: &Option<String>, entry: &str, esp: &PartitionRef, win: &PartitionRef) -> (r:
    Result<Vec<u8>, BcdError>)
    requires
        vhdx matches Some(path) ==> utf16(path@).len() <= 1934,
    ensures
        match r {
            Ok(store) => valid_guid(entry@) && exists|secs: u64|
                store@ == store_file(
                    match *vhdx {
                        Some(path) => vhdx_tree(
                            entry@,
                            "Windows To Go"@,
                            *esp,
                            *win,
                            path@,
                            10,
                        ),
                        None => bcd_tree(entry@, "Windows To Go"@, *esp, *win, 10),
                    },
                    #[trigger] filetime(secs as int),
                ),
            Err(BcdError::BadGuid(g)) => !valid_guid(entry@) && g@ == entry@,
        },
{
    proof {
        reveal_strlit("Windows To Go");
        lemma_utf16_len("Windows To Go"@);
    }
    match vhdx {
        Some(path) => generate_uefi_bcd_vhdx(
            entry,
            "Windows To Go",
            esp,
            win,
            path.as_str(),
            10,
        ),
        None => generate_uefi_bcd(entry, "Windows To Go", esp, win, 10),
    }
}

} // verus!
