//! The window's decisions, the headless tools, and copying.

use ferrus::cli::{
    forced_plan, format_options, option_number, progress_line, take_flag, take_value,
    with_persistence, FormatOptions, PlanOptions,
};
use ferrus::copy::{
    apply_cmd, dir_size_approx, extract_cmds, info_cmd, split_cmd, split_progress, watch_child,
    wimlib_failure, Child, ChildAction, TopEntry,
};
use ferrus::device::BlockDevice;
use ferrus::protocol::{BadBlocks, FlashPlan, PartitionScheme, WinOptions};
use ferrus::ui::{
    bad_blocks_choice, chosen_scheme, cluster_choice, cluster_options, detected_text, dynamic_rows,
    edition_index, effective_plan, erase_question, format_plan, format_question, image_subtitle, image_title,
    is_shown, progress_text, result_text, suggested_label, usable, ProbeState, Settings, Situation,
};

fn settings() -> Settings {
    Settings {
        scheme_index: 0,
        fs: Some("FAT32".into()),
        persist_mib: 0,
        flavor: None,
        options: WinOptions::default(),
        wtg: false,
        wtg_vhdx: false,
        wtg_index: 0,
        wtg_storage_mib: 0,
        vhdx_size_mib: 0,
    }
}

fn fat32() -> FlashPlan {
    FlashPlan::WinFat32 {
        image: "/w.iso".into(),
        split_wim: true,
        scheme: PartitionScheme::Gpt,
        options: WinOptions::default(),
    }
}

fn stick() -> BlockDevice {
    BlockDevice {
        name: "sdb".into(),
        devnode: "/dev/sdb".into(),
        model: None,
        vendor: None,
        serial: None,
        size_bytes: 8_000_000_000,
        removable: false,
        read_only: false,
        bus: Some("usb".into()),
    }
}

#[test]
fn choices_are_layered_on_the_plan() {
    let options = WinOptions { no_bitlocker: true, ..Default::default() };
    let s = Settings { scheme_index: 1, options, ..settings() };
    assert_eq!(
        effective_plan(fat32(), &s),
        FlashPlan::WinFat32 {
            image: "/w.iso".into(),
            split_wim: true,
            scheme: PartitionScheme::Mbr,
            options
        }
    );
    let s = Settings { fs: Some("NTFS".into()), ..settings() };
    assert!(matches!(
        effective_plan(fat32(), &s),
        FlashPlan::WinUefiNtfs { image, scheme: PartitionScheme::Gpt, .. } if image == "/w.iso"
    ));
    let s = Settings { scheme_index: 1, wtg: true, wtg_index: 3, wtg_storage_mib: 9, ..settings() };
    assert_eq!(
        effective_plan(fat32(), &s),
        FlashPlan::WinToGo {
            image: "/w.iso".into(),
            wim_index: 3,
            persist_mib: 9,
            scheme: PartitionScheme::Gpt,
            options: WinOptions::default()
        }
    );
    let s = Settings { wtg: true, wtg_vhdx: true, vhdx_size_mib: 4096, ..settings() };
    assert!(matches!(
        effective_plan(fat32(), &s),
        FlashPlan::WinToGoVhdx { vhdx_size_mib: 4096, .. }
    ));
    let raw = FlashPlan::RawDd {
        image: "/l.iso".into(),
        verify: true,
        persistence_mb: 0,
        persistence_label: None,
    };
    let s = Settings { persist_mib: 512, flavor: Some("casper-rw".into()), wtg: true, ..settings() };
    assert_eq!(
        effective_plan(raw, &s),
        FlashPlan::RawDd {
            image: "/l.iso".into(),
            verify: true,
            persistence_mb: 512,
            persistence_label: Some("casper-rw".into())
        }
    );
    let extract = FlashPlan::IsoExtract {
        image: "/l.iso".into(),
        scheme: PartitionScheme::Mbr,
        syslinux_bios: true,
    };
    assert_eq!(effective_plan(extract.clone(), &s), extract);
}

#[test]
fn combos() {
    assert_eq!(chosen_scheme(0), PartitionScheme::Gpt);
    assert_eq!(chosen_scheme(1), PartitionScheme::Mbr);
    assert_eq!(bad_blocks_choice(0), None);
    assert_eq!(bad_blocks_choice(1), Some(BadBlocks::Fast));
    assert_eq!(bad_blocks_choice(2), Some(BadBlocks::Thorough));
    assert_eq!(edition_index(0, 3, 9), 1);
    assert_eq!(edition_index(2, 3, 9), 3);
    assert_eq!(edition_index(u32::MAX, 3, 9), 0);
    assert_eq!(edition_index(u32::MAX, 0, 9), 9);
    assert_eq!(cluster_options("FAT32").len(), 8);
    assert_eq!(cluster_options("exFAT")[0], "Default (128 KB)");
    assert_eq!(cluster_options("UDF"), ["Default", "512", "1024", "2048", "4096"]);
    assert_eq!(cluster_options("ext4"), ["Default (4096)", "1024", "2048", "4096"]);
    assert_eq!(cluster_choice(Some("Default (4096)")), None);
    assert_eq!(cluster_choice(Some("8192")), Some(8192));
    assert_eq!(cluster_choice(Some("8192 bytes")), Some(8192));
    assert_eq!(cluster_choice(Some("131072")), None);
    assert_eq!(cluster_choice(None), None);
}

#[test]
fn format_plan_from_the_window() {
    assert_eq!(
        format_plan(1, None, "  ", Some(512), true),
        FlashPlan::FormatDevice {
            scheme: PartitionScheme::Mbr,
            fs: "FAT32".into(),
            label: "FERRUS".into(),
            cluster_bytes: Some(512),
            old_bios_align: true
        }
    );
    assert!(matches!(
        format_plan(0, Some("ext4"), " My Disk ", None, false),
        FlashPlan::FormatDevice { fs, label, .. } if fs == "ext4" && label == "My Disk"
    ));
}

#[test]
fn controls_follow_the_situation() {
    let s = Situation {
        busy: false,
        has_devices: true,
        boot_index: 1,
        scheme_index: 0,
        has_image: true,
        has_plan: true,
        probe: ProbeState::Finished,
    };
    let u = usable(&s);
    assert!(u.controls && u.device_combo && u.select_button && u.start_button);
    assert!(!u.target_combo && !u.cancel_button);
    assert!(!usable(&Situation { probe: ProbeState::Running, ..s }).start_button);
    assert!(!usable(&Situation { has_plan: false, ..s }).start_button);
    assert!(!usable(&Situation { has_image: false, ..s }).start_button);
    assert!(!usable(&Situation { has_devices: false, ..s }).start_button);
    assert!(usable(&Situation { boot_index: 0, has_image: false, ..s }).start_button);
    let busy = usable(&Situation { busy: true, scheme_index: 1, ..s });
    assert!(busy.cancel_button);
    assert!(!busy.controls && !busy.start_button && !busy.target_combo && !busy.select_button);
    assert_eq!(dynamic_rows(Some(&fat32()), true), (false, true));
    assert_eq!(dynamic_rows(None, true), (false, false));
}

#[test]
fn devices_that_are_shown() {
    let mut d = stick();
    assert!(is_shown(&d, false));
    d.bus = Some("ata".into());
    assert!(!is_shown(&d, false));
    assert!(is_shown(&d, true));
    d.removable = true;
    assert!(is_shown(&d, false));
}

#[test]
fn names_of_images() {
    assert_eq!(image_title("/tmp/ubuntu 24.04.iso"), "ubuntu 24.04");
    assert_eq!(image_title("/"), "IMAGE");
    assert_eq!(image_subtitle("/x.iso", 5_700_000_000), "/x.iso · 5.7 GB");
    assert_eq!(suggested_label("ubuntu 24.04-desktop amd64"), "UBUNTU2404-DESKT");
    assert_eq!(suggested_label("…"), "");
}

#[test]
fn questions_before_erasing() {
    let format = format_plan(0, Some("NTFS"), "X", None, false);
    let (h, b) = format_question(&stick(), &format);
    assert_eq!(h, "Format /dev/sdb ?");
    assert_eq!(
        b,
        "ALL data on /dev/sdb (8.0 GB) will be destroyed.\n\nThe stick will be partitioned and \
         formatted as No bootable · NTFS (GPT) — no bootable image is written."
    );
    let options =
        WinOptions { hw_bypass: true, no_online_account: true, no_bitlocker: true };
    let plan = effective_plan(fat32(), &Settings { options, ..settings() });
    let (h, b) = erase_question(&stick(), "/w.iso", &plan, &None);
    assert_eq!(h, "Erase /dev/sdb ?");
    assert_eq!(
        b,
        "ALL data on /dev/sdb (8.0 GB) will be destroyed.\n\nSource image:\n/w.iso\n\nLayout: \
         Windows · FAT32 + WIM split (GPT)\nUnattend: no HW requirement checks, local account, \
         BitLocker off"
    );
    let raw = FlashPlan::RawDd {
        image: "/l.iso".into(),
        verify: true,
        persistence_mb: 64,
        persistence_label: None,
    };
    let (_, b) = erase_question(&stick(), "/l.iso", &raw, &Some("persistence".into()));
    assert!(b.ends_with("\nPersistence: 64 MiB (label “persistence”)"));
}

#[test]
fn status_texts() {
    assert_eq!(progress_text(0, 0, false, None), "writing");
    assert_eq!(progress_text(0, 0, true, None), "verifying");
    assert_eq!(
        progress_text(500_000_000, 2_000_000_000, true, Some("copying".into())),
        "copying · 500 MB / 2.0 GB"
    );
    assert_eq!(result_text(&Ok("done".into())), "Success: done. You can remove the drive.");
    assert_eq!(result_text(&Err("no".into())), "Failed: no");
    assert_eq!(
        detected_text(&fat32()),
        "Detected: Windows · FAT32 + WIM split (GPT) — ready to flash."
    );
}

fn args(list: &[&str]) -> Vec<String> {
    list.iter().map(|s| s.to_string()).collect()
}

#[test]
fn arguments_are_taken() {
    let mut a = args(&["img", "--verify", "dev", "--verify"]);
    assert!(take_flag(&mut a, "--verify"));
    assert_eq!(a, ["img", "dev"]);
    assert!(!take_flag(&mut a, "--verify"));
    let mut a = args(&["--plan", "wtg", "img", "--plan"]);
    assert_eq!(take_value(&mut a, "--plan").as_deref(), Some("wtg"));
    assert_eq!(a, ["img", "--plan"]);
    assert_eq!(take_value(&mut a, "--plan"), None);
    assert_eq!(a, ["img", "--plan"]);
    assert_eq!(option_number(&Some(" 12 ".into()), 100), 12);
    assert_eq!(option_number(&Some("101".into()), 100), 0);
    assert_eq!(option_number(&None, 100), 0);
}

#[test]
fn plans_are_forced() {
    let o = PlanOptions {
        verify: true,
        persistence_mb: 5,
        wim_index: 2,
        wtg_persist: 7,
        vhdx_size: 9,
        options: WinOptions::default(),
    };
    let kind = |k: &str| forced_plan(k, "/i", &o).map(|p| p.describe());
    assert_eq!(kind("raw").unwrap(), "raw DD image + 5 MiB persistence");
    assert_eq!(kind("fat32").unwrap(), "Windows · FAT32 (GPT)");
    assert_eq!(kind("fat32-split").unwrap(), "Windows · FAT32 + WIM split (GPT)");
    assert_eq!(kind("ntfs").unwrap(), "Windows · UEFI:NTFS (GPT)");
    assert_eq!(kind("wtg").unwrap(), "Windows To Go · edition 2 (GPT), +7 MiB storage");
    assert_eq!(kind("wtg-vhdx").unwrap(), "Windows To Go (VHDX) · edition 2 (GPT), VHDX 9 MiB");
    assert_eq!(kind("extract").unwrap(), "Linux · extracted + SYSLINUX (MBR)");
    assert_eq!(
        kind("x").unwrap_err(),
        "unknown --plan 'x' (raw|fat32|fat32-split|ntfs|wtg|wtg-vhdx|extract)"
    );
    let raw = forced_plan("raw", "/i", &o).unwrap();
    let (p, vain) = with_persistence(raw, 64, Some("casper-rw".into()));
    assert!(!vain);
    assert_eq!(p.describe(), "raw DD image + 64 MiB persistence");
    assert_eq!(with_persistence(fat32(), 64, None), (fat32(), true));
    assert_eq!(with_persistence(fat32(), 0, None), (fat32(), false));
}

#[test]
fn formatter_arguments() {
    assert_eq!(
        format_options(&args(&["mbr", "4096", "fast", "align63", "thorough"])),
        Ok(FormatOptions {
            scheme: PartitionScheme::Mbr,
            cluster_bytes: Some(4096),
            bad_blocks: Some(BadBlocks::Thorough),
            old_bios_align: true
        })
    );
    assert_eq!(
        format_options(&args(&[])),
        Ok(FormatOptions {
            scheme: PartitionScheme::Gpt,
            cluster_bytes: None,
            bad_blocks: None,
            old_bios_align: false
        })
    );
    assert_eq!(format_options(&args(&["gpt", "zip", "zap"])), Err("unknown option 'zip'".into()));
}

#[test]
fn progress_lines() {
    assert_eq!(progress_line(5, 100, &None, " [verify]"), "  5%  5/100  [verify]");
    assert_eq!(progress_line(50, 100, &Some("copying".into()), ""), " 50%  50/100 copying");
    assert_eq!(progress_line(100, 100, &None, ""), "100%  100/100 ");
    assert_eq!(progress_line(0, 0, &None, ""), "working");
    assert_eq!(progress_line(1, 0, &Some("x".into()), ""), "x");
}

#[test]
fn children_are_watched() {
    assert_eq!(watch_child(true, Child::Exited(true), 300), ChildAction::Kill);
    assert_eq!(watch_child(false, Child::Running, 300), ChildAction::Wait(300));
    assert_eq!(watch_child(false, Child::Exited(true), 300), ChildAction::Finish);
    assert_eq!(watch_child(false, Child::Exited(false), 300), ChildAction::Fail);
    assert_eq!(watch_child(false, Child::Lost, 300), ChildAction::GiveUp);
    assert_eq!(
        wimlib_failure("split", "exit status: 1", "bad"),
        "wimlib-imagex split failed (exit status: 1): bad"
    );
}

#[test]
fn archive_commands() {
    assert_eq!(split_cmd("/a.wim", "/t/a.swm", false).args, ["split", "/a.wim", "/t/a.swm", "3800"]);
    assert_eq!(split_cmd("/a.wim", "/t/a.swm", true).args[3], "1");
    assert_eq!(apply_cmd("/a.wim", 0, "/t").args, ["apply", "/a.wim", "1", "/t"]);
    assert_eq!(apply_cmd("/a.wim", 4, "/t").args[2], "4");
    assert_eq!(info_cmd("/a.wim").args, ["info", "/a.wim"]);
    let e = extract_cmds("/w.iso", "/t/i.wim");
    assert_eq!(
        e[0].args,
        ["-osirrox", "on", "-indev", "/w.iso", "-extract", "/sources/install.wim", "/t/i.wim"]
    );
    assert!(e.iter().all(|c| c.program == "xorriso"));
}

#[test]
fn split_progress_counts_parts() {
    // Continuations count up to the first that is missing.
    assert_eq!(split_progress(10, Some(5), &vec![Some(3), Some(2), None, Some(9)], 100), 20);
    assert_eq!(split_progress(10, Some(5), &vec![Some(300)], 100), 110);
    assert_eq!(split_progress(10, None, &vec![], 100), 10);
    let top = vec![
        TopEntry { is_dir: true, len: 4096 },
        TopEntry { is_dir: false, len: 7 },
        TopEntry { is_dir: false, len: 8 },
    ];
    assert_eq!(dir_size_approx(&top), 15);
}
