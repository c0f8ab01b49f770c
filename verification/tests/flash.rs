//! Plans as steps.

use ferrus::bcd::PartitionRef;
use ferrus::execute::{execute_plan, needs_device_size, Job};
use ferrus::flash::{
    add_persistence, after_scan, persistent_message, scan_program, Facts, Slot, Step,
};
use ferrus::partition::PersistError;
use ferrus::protocol::{BadBlocks, FlashPlan, PartitionScheme, WinOptions};
use ferrus::togo::{boot_store, togo_layout};

const ENTRY: &str = "{00010203-0405-4607-8809-0a0b0c0d0e0f}";

fn facts() -> Facts {
    Facts {
        sectors: 60_000_000,
        image_bytes: 6 << 30,
        split_limit: 1000,
        entry_guid: ENTRY.into(),
    }
}

/// Each step in a word or two; commands by their program.
fn brief(steps: &[Step]) -> Vec<String> {
    steps
        .iter()
        .map(|s| match s {
            Step::Tick(t) => format!("- {t}"),
            Step::Try(c) => format!("try {} x{}", c[0].program, c.len()),
            Step::Pause(n) => format!("pause {n}"),
            Step::Run(t) => format!("run {}", t.cmd.program),
            Step::Scan(t) => format!("scan {}", t.cmd.program),
            Step::WaitNode(n, s) => format!("wait {n} {s}"),
            other => format!("{other:?}"),
        })
        .collect()
}

fn steps_of(plan: &FlashPlan) -> Vec<Step> {
    execute_plan("/dev/sda", plan, None, &facts())
}

const LAYOUT: [&str; 6] =
    ["try umount x8", "- partitioning", "try wipefs x1", "run sfdisk", "try partx x4", "pause 400"];

fn with_layout(before: &[&str], after: &[&str]) -> Vec<String> {
    before.iter().chain(LAYOUT.iter()).chain(after.iter()).map(|s| s.to_string()).collect()
}

fn script(steps: &[Step]) -> String {
    steps
        .iter()
        .find_map(|s| match s {
            Step::Run(t) if t.cmd.program == "sfdisk" => t.cmd.stdin.clone(),
            _ => None,
        })
        .unwrap()
}

#[test]
fn raw_plan() {
    let raw = |verify, persistence_mb, persistence_label| FlashPlan::RawDd {
        image: "/l.iso".into(),
        verify,
        persistence_mb,
        persistence_label,
    };
    assert_eq!(
        steps_of(&raw(true, 0, None)),
        [
            Step::WriteImage("/l.iso".into(), true),
            Step::Finish("image written and verified to /dev/sda".into())
        ]
    );
    assert_eq!(
        steps_of(&raw(false, 512, Some("persistence".into()))),
        [
            Step::WriteImage("/l.iso".into(), false),
            Step::AddPersistence(512, "persistence".into()),
            Step::FinishPersistent(false, 512)
        ]
    );
    assert_eq!(
        steps_of(&raw(false, 512, None))[1],
        Step::AddPersistence(512, "casper-rw".into())
    );
    assert_eq!(
        persistent_message(false, "/dev/sda", 512, 3),
        "image written to /dev/sda (+512 MiB persistence on /dev/sda3)"
    );
}

#[test]
fn format_only_plan() {
    let plan = |scheme, fs: &str, old_bios_align| FlashPlan::FormatDevice {
        scheme,
        fs: fs.into(),
        label: "Data".into(),
        cluster_bytes: Some(4096),
        old_bios_align,
    };
    let s = steps_of(&plan(PartitionScheme::Gpt, "ext4", true));
    assert_eq!(
        brief(&s),
        with_layout(
            &[],
            &[
                "wait /dev/sda1 10",
                "- formatting",
                "run mkfs.ext4",
                "try sync x1",
                "Finish(\"Formatted /dev/sda as EXT4 GPT\")"
            ]
        )
    );
    assert_eq!(
        script(&s),
        "label: gpt\nname=\"FERRUS\", type=0FC63DAF-8483-4772-8E79-3D69D8477DE4\n"
    );
    let s = steps_of(&plan(PartitionScheme::Mbr, "FAT32", true));
    assert_eq!(script(&s), "label: dos\nstart=63, type=0c, bootable\n");
    let s = steps_of(&plan(PartitionScheme::Mbr, "NTFS", false));
    assert_eq!(script(&s), "label: dos\ntype=07, bootable\n");
    assert!(!needs_device_size(&plan(PartitionScheme::Gpt, "ext4", false)));
}

#[test]
fn fat32_plan() {
    let s = steps_of(&FlashPlan::WinFat32 {
        image: "/w.iso".into(),
        split_wim: true,
        scheme: PartitionScheme::Mbr,
        options: WinOptions { hw_bypass: true, ..Default::default() },
    });
    assert_eq!(
        brief(&s),
        with_layout(
            &[],
            &[
                "wait /dev/sda1 10",
                "- formatting",
                "run mkfs.vfat",
                "- mounting",
                "MountImage(\"/w.iso\")",
                "Mount(Target, \"/dev/sda1\")",
                "- copying files",
                "CopyTree(Some(1000), true)",
                "InjectSetup(WinOptions { hw_bypass: true, no_online_account: false, no_bitlocker: false })",
                "- injected unattend.xml",
                "Unmount(Target)",
                "Unmount(Iso)",
                "try sync x1",
                "Finish(\"Windows USB ready (FAT32, split WIM, MBR)\")"
            ]
        )
    );
    assert_eq!(script(&s), "label: dos\ntype=0c, bootable\n");
}

#[test]
fn uefi_ntfs_plan() {
    let s = steps_of(&FlashPlan::WinUefiNtfs {
        image: "/w.iso".into(),
        scheme: PartitionScheme::Gpt,
        options: WinOptions::default(),
    });
    assert_eq!(
        brief(&s),
        with_layout(
            &["LocateLoader"],
            &[
                "wait /dev/sda1 10",
                "wait /dev/sda2 10",
                "- writing UEFI:NTFS bootloader",
                "WriteLoader(\"/dev/sda1\")",
                "- formatting",
                "run mkfs.ntfs",
                "- mounting",
                "MountImage(\"/w.iso\")",
                "Mount(Target, \"/dev/sda2\")",
                "- copying files",
                "CopyTree(None, false)",
                "Unmount(Target)",
                "Unmount(Iso)",
                "try sync x1",
                "Finish(\"Windows USB ready (UEFI:NTFS, GPT)\")"
            ]
        )
    );
    assert_eq!(
        script(&s),
        "label: gpt\nname=\"UEFI-NTFS\", size=32768, type=EBD0A0A2-B9E5-4433-87C0-68B6B72699C7\n\
         name=\"WININSTALL\", type=EBD0A0A2-B9E5-4433-87C0-68B6B72699C7\n"
    );
}

#[test]
fn extract_plan() {
    let plan = |scheme, syslinux_bios| FlashPlan::IsoExtract {
        image: "/l.iso".into(),
        scheme,
        syslinux_bios,
    };
    let s = steps_of(&plan(PartitionScheme::Gpt, true));
    assert_eq!(s[0], Step::Tick("forcing MBR (SYSLINUX BIOS requirement)".into()));
    assert_eq!(script(&s), "label: dos\ntype=0c, bootable\n");
    let prep = s.iter().position(|x| *x == Step::PrepSyslinux).unwrap();
    assert_eq!(
        &s[prep + 1..prep + 6],
        &[
            Step::Unmount(Slot::Target),
            Step::Unmount(Slot::Iso),
            Step::Tick("installing SYSLINUX".into()),
            Step::InstallSyslinux("/dev/sda1".into()),
            Step::WriteMbr,
        ]
    );
    let s = steps_of(&plan(PartitionScheme::Gpt, false));
    assert_eq!(
        script(&s),
        "label: gpt\nname=\"LIVE\", type=EBD0A0A2-B9E5-4433-87C0-68B6B72699C7\n"
    );
    assert!(!s.contains(&Step::PrepSyslinux) && !s.contains(&Step::WriteMbr));
}

fn togo(scheme: PartitionScheme, persist_mib: u64) -> FlashPlan {
    FlashPlan::WinToGo {
        image: "/w.iso".into(),
        wim_index: 2,
        persist_mib,
        scheme,
        options: WinOptions::default(),
    }
}

#[test]
fn to_go_plan() {
    let s = steps_of(&togo(PartitionScheme::Gpt, 0));
    assert_eq!(
        brief(&s),
        with_layout(
            &[],
            &[
                "wait /dev/sda1 10",
                "wait /dev/sda2 10",
                "- formatting",
                "run mkfs.vfat",
                "run mkfs.ntfs",
                "ReadGuids(2)",
                "- applying Windows image",
                "MountImage(\"/w.iso\")",
                "LocateWim",
                "Mount(Target, \"/dev/sda2\")",
                "ApplyWim(2, Target)",
                "- writing boot files",
                "Mount(Esp, \"/dev/sda1\")",
                "CopyBootFiles",
                "WriteBcd(None, \"{00010203-0405-4607-8809-0a0b0c0d0e0f}\")",
                "Unmount(Esp)",
                "Unmount(Target)",
                "Unmount(Iso)",
                "try sync x1",
                "Finish(\"Windows To Go ready (GPT, entry {00010203-0405-4607-8809-0a0b0c0d0e0f})\")"
            ]
        )
    );
    assert!(!needs_device_size(&togo(PartitionScheme::Gpt, 0)));
    assert!(needs_device_size(&togo(PartitionScheme::Gpt, 1)));
}

#[test]
fn to_go_data_partition_is_last() {
    let parts = togo_layout(60_000_000, 1024).unwrap();
    let sizes: Vec<(String, Option<u64>)> =
        parts.iter().map(|p| (p.name.clone(), p.size_sectors)).collect();
    // 60,000,000 - 128 sectors hold 29,296 whole MiB.
    assert_eq!(
        sizes,
        [
            ("FERRUS".to_string(), Some(1_048_576)),
            ("WINDOWS".to_string(), Some(29_296 * 2048 - 2048 - 1_048_576 - 1024 * 2048)),
            ("FERRUSDATA".to_string(), Some(1024 * 2048)),
        ]
    );
    let s = steps_of(&togo(PartitionScheme::Gpt, 1024));
    assert!(s.contains(&Step::WaitNode("/dev/sda3".into(), 10)));
    assert!(matches!(s.last(), Some(Step::Finish(m)) if m.ends_with(", +1024 MiB data)")));
}

#[test]
fn to_go_is_refused() {
    assert_eq!(
        steps_of(&togo(PartitionScheme::Mbr, 0)),
        [Step::Fail("Windows To Go requires GPT (UEFI boot); pick the GPT scheme".into())]
    );
    assert_eq!(
        steps_of(&togo(PartitionScheme::Gpt, 40_000)),
        [Step::Fail("not enough space left on the device for the data partition".into())]
    );
    assert_eq!(togo_layout(0, u64::MAX), None);
}

#[test]
fn to_go_vhdx_plan() {
    let plan = |scheme, vhdx_size_mib| FlashPlan::WinToGoVhdx {
        image: "/w.iso".into(),
        wim_index: 1,
        vhdx_size_mib,
        persist_mib: 0,
        scheme,
        options: WinOptions { no_bitlocker: true, ..Default::default() },
    };
    let s = steps_of(&plan(PartitionScheme::Gpt, 0));
    let at = s.iter().position(|x| *x == Step::LocateWim).unwrap();
    assert_eq!(
        brief(&s[at..]),
        [
            "LocateWim",
            "Mount(Target, \"/dev/sda2\")",
            "CreateDisk(65536)",
            "AttachDisk",
            "FormatDisk",
            "MountDisk",
            "ApplyWim(1, Disk)",
            "- injecting unattend.xml",
            "InjectInstalled(Disk, WinOptions { hw_bypass: false, no_online_account: false, no_bitlocker: true })",
            "Unmount(Disk)",
            "DetachDisk",
            "- writing boot files",
            "Mount(Esp, \"/dev/sda1\")",
            "CopyBootFiles",
            "WriteBcd(Some(\"\\\\windows.vhdx\"), \"{00010203-0405-4607-8809-0a0b0c0d0e0f}\")",
            "Unmount(Esp)",
            "Unmount(Iso)",
            "try sync x1",
            "Release(Target)",
            "Finish(\"Windows To Go (VHDX) ready (GPT, entry {00010203-0405-4607-8809-0a0b0c0d0e0f}, 65536 MiB)\")"
        ]
    );
    assert!(steps_of(&plan(PartitionScheme::Gpt, 4096)).contains(&Step::CreateDisk(4096)));
    assert_eq!(
        steps_of(&plan(PartitionScheme::Mbr, 0)),
        [Step::Fail("Windows To Go VHDX requires GPT (UEFI boot); pick the GPT scheme".into())]
    );
}

#[test]
fn what_is_mounted_is_unmounted() {
    let plans = [
        togo(PartitionScheme::Gpt, 0),
        togo(PartitionScheme::Gpt, 64),
        FlashPlan::IsoExtract {
            image: "/l.iso".into(),
            scheme: PartitionScheme::Mbr,
            syslinux_bios: true,
        },
    ];
    for plan in plans {
        let mut open: Vec<Slot> = Vec::new();
        let steps = steps_of(&plan);
        for s in &steps {
            match s {
                Step::MountImage(_) => open.push(Slot::Iso),
                Step::Mount(slot, _) => open.push(*slot),
                Step::Unmount(slot) | Step::Release(slot) => open.retain(|o| o != slot),
                _ => {}
            }
        }
        assert!(open.is_empty());
        assert!(matches!(steps.last(), Some(Step::Finish(_))));
    }
}

#[test]
fn scan_comes_first() {
    assert_eq!(
        brief(&scan_program("/dev/sda", BadBlocks::Thorough)),
        ["- checking bad blocks", "scan badblocks"]
    );
    assert_eq!(
        after_scan("Pass completed, 0 bad blocks found. (0/0/0 errors)"),
        Step::Tick("bad-block scan clean".into())
    );
    assert_eq!(
        after_scan("Pass completed, 7 bad blocks found. (7/0/0 errors)"),
        Step::Fail("7 bad sectors detected — aborting to protect your data".into())
    );
}

#[test]
fn persistence_steps_follow_the_label() {
    let parts = vec![(64u64, 9_613_440u64), (9_613_504, 8_496)];
    let s = add_persistence("/dev/sda", false, &parts, 30_000_000, 100, "persistence").unwrap();
    assert_eq!(
        brief(&s),
        [
            "- adding persistence partition",
            "CheckCancel",
            "run sfdisk",
            "try partx x4",
            "pause 400",
            "wait /dev/sda3 10",
            "- formatting persistence",
            "run mkfs.ext4",
            "- writing persistence.conf",
            "Mount(Target, \"/dev/sda3\")",
            "WriteConf",
            "Unmount(Target)",
            "try sync x1"
        ]
    );
    // What is mounted for the file is unmounted again.
    assert_eq!(s[9], Step::Mount(Slot::Target, "/dev/sda3".into()));
    assert_eq!(s[11], Step::Unmount(Slot::Target));
    match &s[7] {
        Step::Run(t) => {
            assert_eq!(t.cmd.args, ["-F", "-L", "persistence", "/dev/sda3"]);
            assert_eq!(t.context, "creating ext4 (persistence)");
            assert_eq!(t.attempts, 4);
        }
        other => panic!("{other:?}"),
    }
    let s = add_persistence("/dev/sda", false, &parts, 30_000_000, 100, "casper-rw").unwrap();
    assert!(!s.contains(&Step::WriteConf));
    assert_eq!(
        add_persistence("/dev/sda", false, &vec![], 30_000_000, 100, "x"),
        Err(PersistError::NoPartitions)
    );
}

#[test]
fn job_runs_in_order() {
    let mut job = Job::new(vec![Step::Pause(1), Step::Pause(2), Step::Pause(3)]);
    assert_eq!(job.current(), Some(&Step::Pause(1)));
    job.succeed();
    job.expand(vec![Step::Pause(20), Step::Pause(21)]);
    assert_eq!(job.current(), Some(&Step::Pause(20)));
    job.succeed();
    assert_eq!(job.current(), Some(&Step::Pause(21)));
    job.succeed();
    assert_eq!(job.current(), Some(&Step::Pause(3)));
    job.succeed();
    assert_eq!(job.current(), None);

    let mut job = Job::new(vec![Step::Pause(1), Step::Pause(2)]);
    job.fail();
    assert_eq!(job.current(), None);
}

#[test]
fn bios_extraction_on_gpt_is_announced() {
    let plan = |scheme| FlashPlan::IsoExtract {
        image: "/l.iso".into(),
        scheme,
        syslinux_bios: true,
    };
    let gpt = steps_of(&plan(PartitionScheme::Gpt));
    let mbr = steps_of(&plan(PartitionScheme::Mbr));
    assert_eq!(gpt[1..], mbr[..]);
    assert_eq!(
        mbr.last(),
        Some(&Step::Finish("Linux USB ready (extracted + SYSLINUX, MBR)".into()))
    );
}

#[test]
fn answer_file_only_when_asked() {
    let plan = |options| FlashPlan::WinToGo {
        image: "/w.iso".into(),
        wim_index: 0,
        persist_mib: 0,
        scheme: PartitionScheme::Gpt,
        options,
    };
    let injects = |s: &Step| matches!(s, Step::InjectSetup(_) | Step::InjectInstalled(_, _));
    assert!(!steps_of(&plan(WinOptions::default())).iter().any(injects));
    let options = WinOptions { no_online_account: true, ..Default::default() };
    assert!(steps_of(&plan(options)).contains(&Step::InjectInstalled(Slot::Target, options)));
}

#[test]
fn nothing_follows_a_defect() {
    let plan = togo(PartitionScheme::Gpt, 0);
    let steps = execute_plan("/dev/sda", &plan, Some(BadBlocks::Fast), &facts());
    assert_eq!(brief(&steps[..2]), ["- checking bad blocks", "scan badblocks"]);
    assert_eq!(steps[2..], steps_of(&plan)[..]);

    let mut job = Job::new(steps.clone());
    job.succeed();
    job.scanned("Pass completed, 3 bad blocks found. (3/0/0 errors)");
    assert_eq!(
        job.current(),
        Some(&Step::Fail("3 bad sectors detected — aborting to protect your data".into()))
    );
    job.succeed();
    assert_eq!(job.current(), None);

    let mut job = Job::new(steps);
    job.succeed();
    job.scanned("Pass completed, 0 bad blocks found. (0/0/0 errors)");
    assert_eq!(job.current(), Some(&Step::Tick("bad-block scan clean".into())));
    job.succeed();
    assert_eq!(job.current(), steps_of(&plan).first());
}

#[test]
fn stores_of_to_go_sticks() {
    let esp = PartitionRef { partition_guid: [1; 16], disk_guid: [2; 16] };
    let win = PartitionRef { partition_guid: [3; 16], disk_guid: [2; 16] };
    let units = |t: &str| -> Vec<u8> { t.encode_utf16().flat_map(u16::to_le_bytes).collect() };
    let has = |b: &[u8], t: &str| {
        let u = units(t);
        b.windows(u.len()).any(|w| w == u)
    };
    let plain = boot_store(&None, ENTRY, &esp, &win).unwrap();
    assert!(has(&plain, "Windows To Go") && !has(&plain, "windows.vhdx"));
    let disk = boot_store(&Some("\\windows.vhdx".into()), ENTRY, &esp, &win).unwrap();
    assert!(has(&disk, "\\windows.vhdx"));
    assert!(boot_store(&None, "x", &esp, &win).is_err());
}
