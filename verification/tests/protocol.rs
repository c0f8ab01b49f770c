//! Plans in words, and the image that a plan names.

use ferrus::protocol::{BadBlocks, FlashPlan, PartitionScheme, WinOptions};

fn wtg(wim_index: u32, persist_mib: u64) -> FlashPlan {
    FlashPlan::WinToGo {
        image: "/x".into(),
        wim_index,
        persist_mib,
        scheme: PartitionScheme::Gpt,
        options: WinOptions::default(),
    }
}

#[test]
fn plans_in_words() {
    let raw = |mb: u64| FlashPlan::RawDd {
        image: "/x".into(),
        verify: false,
        persistence_mb: mb,
        persistence_label: Some("casper-rw".into()),
    };
    assert_eq!(raw(4096).describe(), "raw DD image + 4096 MiB persistence");
    assert_eq!(raw(0).describe(), "raw DD image");
    assert_eq!(raw(u64::MAX).describe(), "raw DD image + 18446744073709551615 MiB persistence");

    assert_eq!(wtg(0, 0).describe(), "Windows To Go (GPT)");
    assert_eq!(wtg(3, 8192).describe(), "Windows To Go · edition 3 (GPT), +8192 MiB storage");

    let fat = |split_wim: bool| FlashPlan::WinFat32 {
        image: "/x".into(),
        split_wim,
        scheme: PartitionScheme::Gpt,
        options: WinOptions::default(),
    };
    assert_eq!(fat(false).describe(), "Windows · FAT32 (GPT)");
    assert_eq!(fat(true).describe(), "Windows · FAT32 + WIM split (GPT)");

    assert_eq!(
        FlashPlan::WinUefiNtfs {
            image: "/tmp/w.iso".into(),
            scheme: PartitionScheme::Mbr,
            options: WinOptions { hw_bypass: true, ..Default::default() },
        }
        .describe(),
        "Windows · UEFI:NTFS (MBR)"
    );
    assert_eq!(
        FlashPlan::IsoExtract {
            image: "/x.iso".into(),
            scheme: PartitionScheme::Mbr,
            syslinux_bios: true,
        }
        .describe(),
        "Linux · extracted + SYSLINUX (MBR)"
    );
    assert_eq!(
        FlashPlan::IsoExtract {
            image: "/x.iso".into(),
            scheme: PartitionScheme::Gpt,
            syslinux_bios: true,
        }
        .describe(),
        "Linux · extracted + SYSLINUX (GPT)"
    );
    assert_eq!(
        FlashPlan::IsoExtract {
            image: "/x.iso".into(),
            scheme: PartitionScheme::Gpt,
            syslinux_bios: false,
        }
        .describe(),
        "Linux · extracted (GPT)"
    );
    let vhdx = |wim_index: u32, vhdx_size_mib: u64| FlashPlan::WinToGoVhdx {
        image: "/win.iso".into(),
        wim_index,
        vhdx_size_mib,
        persist_mib: 0,
        scheme: PartitionScheme::Gpt,
        options: WinOptions::default(),
    };
    assert_eq!(
        vhdx(1, 65536).describe(),
        "Windows To Go (VHDX) · edition 1 (GPT), VHDX 65536 MiB"
    );
    assert_eq!(vhdx(0, 0).describe(), "Windows To Go (VHDX) (GPT)");
    assert_eq!(
        FlashPlan::FormatDevice {
            scheme: PartitionScheme::Mbr,
            fs: "FAT32".into(),
            label: "USBDRIVE".into(),
            cluster_bytes: None,
            old_bios_align: true,
        }
        .describe(),
        "No bootable · FAT32 (MBR)"
    );
}

#[test]
fn images_of_plans() {
    assert_eq!(wtg(0, 0).image_path(), Some("/x"));
    let format = FlashPlan::FormatDevice {
        scheme: PartitionScheme::Gpt,
        fs: "ext4".into(),
        label: "L".into(),
        cluster_bytes: Some(4096),
        old_bios_align: false,
    };
    assert_eq!(format.image_path(), None);
}

#[test]
fn defaults() {
    assert_eq!(PartitionScheme::default(), PartitionScheme::Gpt);
    assert_eq!(PartitionScheme::Mbr.describe(), "MBR");
    assert!(!WinOptions::default().any());
    for o in [
        WinOptions { hw_bypass: true, ..Default::default() },
        WinOptions { no_online_account: true, ..Default::default() },
        WinOptions { no_bitlocker: true, ..Default::default() },
    ] {
        assert!(o.any());
    }
    assert_ne!(BadBlocks::Fast, BadBlocks::Thorough);
}
