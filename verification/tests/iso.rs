//! Images: what they are, and which plan they get.

use ferrus::client::decide_plan;
use ferrus::copy::{collect_items, copy_steps, first_swm, split_limit, swm_part};
use ferrus::iso::{
    choose_plan, detect_linux_flavor, edition_names, find_syslinux_cfg, is_hybrid,
    looks_like_windows, parse_wim_info, probe_manifest, scan_tree, ImageManifest, FAT32_MAX_FILE,
};
use ferrus::protocol::FlashPlan;
use ferrus::tree::{list_files, Kind, Node};

fn file(name: &str, len: u64) -> Node {
    Node { name: name.to_string(), kind: Kind::File(len, None) }
}

fn text(name: &str, content: &str) -> Node {
    Node {
        name: name.to_string(),
        kind: Kind::File(content.len() as u64, Some(content.to_string())),
    }
}

fn dir(name: &str, children: Vec<Node>) -> Node {
    Node { name: name.to_string(), kind: Kind::Dir(children) }
}

fn link(name: &str, target: Option<Kind>) -> Node {
    Node { name: name.to_string(), kind: Kind::Link(target.map(Box::new)) }
}

fn linux_tree() -> Vec<Node> {
    vec![dir(
        "boot",
        vec![file("vmlinuz", 8 << 20), dir("grub", vec![file("grub.cfg", 4096)])],
    )]
}

fn windows_tree(wim_len: u64) -> Vec<Node> {
    vec![
        dir("sources", vec![file("install.wim", wim_len), file("boot.wim", 300 << 20)]),
        file("BOOTMGR", 409_600),
        file("SETUP.EXE", 90_112),
    ]
}

#[test]
fn linux_hybrid_iso_detected_and_dd_planned() {
    let mut m = scan_tree(&linux_tree());
    assert!(!m.is_windows);
    assert_eq!(m.total_size, (8 << 20) + 4096);
    m.hybrid = true; // sector-copyable image
    for have_syslinux in [false, true] {
        let plan = choose_plan(&m, "/tmp/l.iso", have_syslinux, false);
        assert_eq!(
            plan,
            FlashPlan::RawDd {
                image: "/tmp/l.iso".into(),
                verify: true,
                persistence_mb: 0,
                persistence_label: None
            }
        );
    }
}

#[test]
fn nonhybrid_linux_iso_uses_extract_when_syslinux_present() {
    // No SYSLINUX config in the tree: extraction is impossible, so
    // even a non-hybrid image falls back to raw DD.
    let mut tree = linux_tree();
    let m = scan_tree(&tree);
    assert!(m.syslinux_dir.is_none());
    let plan = choose_plan(&m, "/tmp/l.iso", true, true);
    assert!(matches!(plan, FlashPlan::RawDd { .. }));

    // With isolinux/isolinux.cfg present the extract plan applies
    // (when the syslinux installer exists on this machine).
    tree.push(dir(
        "isolinux",
        vec![text("isolinux.cfg", "DEFAULT linux\nLABEL linux\nKERNEL /boot/vmlinuz\n")],
    ));
    let m = scan_tree(&tree);
    assert_eq!(m.syslinux_dir.as_deref(), Some("isolinux"));
    let plan = choose_plan(&m, "/tmp/l.iso", true, true);
    assert!(matches!(plan, FlashPlan::IsoExtract { syslinux_bios: true, .. }));
    let plan = choose_plan(&m, "/tmp/l.iso", false, true);
    assert!(matches!(plan, FlashPlan::RawDd { .. }));
}

#[test]
fn windows_small_fits_fat32() {
    let m = scan_tree(&windows_tree(100 << 20)); // 100 MiB wim
    assert!(m.is_windows);
    assert!(!m.has_oversized_files);
    assert_eq!(
        choose_plan(&m, "/tmp/w.iso", true, true),
        FlashPlan::WinFat32 {
            image: "/tmp/w.iso".into(),
            split_wim: false,
            scheme: Default::default(),
            options: Default::default()
        }
    );
}

#[test]
fn windows_big_wim_splits_when_wimlib_present() {
    let m = scan_tree(&windows_tree(FAT32_MAX_FILE + (1 << 30)));
    assert!(m.has_oversized_files);
    assert_eq!(
        m.oversized_wim.as_deref(),
        Some("sources/install.wim"),
        "uppercase tree must still yield clean relative path"
    );
    assert_eq!(
        choose_plan(&m, "/w.iso", true, true),
        FlashPlan::WinFat32 {
            image: "/w.iso".into(),
            split_wim: true,
            scheme: Default::default(),
            options: Default::default()
        }
    );
    // UEFI:NTFS must be chosen whenever splitting is unavailable.
    let forced_no_split = ImageManifest {
        oversized_wim: Some("sources/install.wim".into()),
        ..m.clone()
    };
    assert_eq!(
        choose_plan(&forced_no_split, "/w.iso", true, false),
        FlashPlan::WinUefiNtfs {
            image: "/w.iso".into(),
            scheme: Default::default(),
            options: Default::default()
        }
    );
}

#[test]
fn nonwim_oversized_file_forces_uefi_ntfs() {
    let mut tree = windows_tree(100 << 20);
    tree.push(file("huge.vhdx", FAT32_MAX_FILE + 1));
    let m = scan_tree(&tree);
    assert!(m.has_oversized_files);
    assert!(m.oversized_wim.is_none()); // vhdx is not splittable
    assert_eq!(
        choose_plan(&m, "/v.iso", true, true),
        FlashPlan::WinUefiNtfs {
            image: "/v.iso".into(),
            scheme: Default::default(),
            options: Default::default()
        }
    );
}

#[test]
fn hybrid_sector0_detection() {
    // Zeroed system area -> not hybrid.
    assert!(!is_hybrid(&[0u8; 512]));

    // Dense x86 boot code (isohybrid MBR) -> hybrid.
    let mut code = [0u8; 512];
    for (i, b) in code.iter_mut().enumerate() {
        *b = if i < 440 { (i % 251) as u8 } else { 0 };
    }
    assert!(is_hybrid(&code));

    // Sparse noise below the threshold -> still treated as non-hybrid.
    let mut sparse = [0u8; 512];
    for b in sparse.iter_mut().take(32) {
        *b = 0xAA;
    }
    assert!(!is_hybrid(&sparse));
}

#[test]
fn hybrid_threshold_is_64_bytes() {
    let mut s = [0u8; 512];
    for b in s.iter_mut().take(64) {
        *b = 1;
    }
    assert!(!is_hybrid(&s));
    s[511] = 1;
    assert!(is_hybrid(&s));
    // An unreadable sector counts as boot code.
    assert!(probe_manifest(&linux_tree(), None).hybrid);
    assert!(probe_manifest(&linux_tree(), Some(&s)).hybrid);
    assert!(!probe_manifest(&linux_tree(), Some(&[0u8; 512])).hybrid);
}

#[test]
fn wim_info_parsing() {
    let sample = "\
Image Count: 2
Compression: LZX
Chunk Size: 32768

Index: 1
Name: Windows 11 Home
Description: Windows 11 Home
Flags: Home
Files: 55123

Index: 2
Name: Windows 11 Pro
Description: Windows 11 Pro
";
    assert_eq!(
        parse_wim_info(sample),
        vec![
            (1u32, "Windows 11 Home".to_string()),
            (2, "Windows 11 Pro".to_string())
        ]
    );
    assert!(parse_wim_info("Index: not-a-number\nName: X").is_empty());
    assert!(parse_wim_info("").is_empty());
}

#[test]
fn editions_are_sorted_by_index() {
    let out = "Index: 2\r\nName:  Pro \r\nIndex: 1\nName: Home\nIndex: 2\nName: Second\nName: Third\n";
    assert_eq!(edition_names(out), vec!["Home", "Pro", "Second", "Third"]);
}

#[test]
fn linux_flavor_detection() {
    // Ubuntu-style: casper dir.
    let tree = vec![
        dir(".disk", vec![text("info", "Ubuntu 24.04 LTS amd64")]),
        dir("casper", vec![]),
    ];
    let m = scan_tree(&tree);
    assert!(!m.is_windows);
    assert_eq!(m.linux_flavor.as_deref(), Some("casper-rw"));

    // Debian-style: live dir + Debian in .disk/info.
    let tree = vec![
        dir(".disk", vec![text("info", "Debian GNU/Linux 12.5.0")]),
        dir("live", vec![]),
    ];
    let m = scan_tree(&tree);
    assert_eq!(m.linux_flavor.as_deref(), Some("persistence"));

    // Unknown Linux tree → no persistence support offered.
    let tree = vec![dir("boot", vec![])];
    let m = scan_tree(&tree);
    assert_eq!(m.linux_flavor, None);
}

#[test]
fn flavor_order_of_evidence() {
    let casper = || dir("CASPER", vec![]);
    // Debian in the info goes before a casper tree, Ubuntu does not.
    let t = vec![dir(".disk", vec![text("INFO", "debian")]), casper()];
    assert_eq!(detect_linux_flavor(&t).as_deref(), Some("persistence"));
    let t = vec![dir(".disk", vec![text("info", "Debian based Ubuntu")]), casper()];
    assert_eq!(detect_linux_flavor(&t).as_deref(), Some("casper-rw"));
    let t = vec![dir(".disk", vec![text("info", "Linux MINT 21")])];
    assert_eq!(detect_linux_flavor(&t).as_deref(), Some("casper-rw"));
    // A file by the name of the directory does not count.
    let t = vec![file("live", 1)];
    assert_eq!(detect_linux_flavor(&t), None);
    // Windows media have none.
    let mut t = windows_tree(1);
    t.push(casper());
    assert_eq!(detect_linux_flavor(&t), None);
}

#[test]
fn windows_markers_in_any_case() {
    assert!(looks_like_windows(&vec![
        file("BootMgr", 1),
        dir("SOURCES", vec![file("INSTALL.ESD", 1)]),
    ]));
    assert!(!looks_like_windows(&vec![dir("sources", vec![file("install.wim", 1)])]));
    assert!(!looks_like_windows(&vec![file("bootmgr", 1), dir("sources", vec![])]));
    assert!(!looks_like_windows(&vec![file("bootmgr", 1)]));
    // An exact name that leads nowhere gives way to the first spelling.
    let t = vec![
        file("bootmgr", 1),
        dir("Sources", vec![file("install.wim", 1)]),
        link("sources", None),
    ];
    assert!(looks_like_windows(&t));
    // Links are followed.
    let t = vec![
        file("bootmgr", 1),
        link("sources", Some(Kind::Dir(vec![file("install.wim", 1)]))),
    ];
    assert!(looks_like_windows(&t));
}

#[test]
fn loader_configuration_by_preference() {
    let cfg = |n: &str| vec![file(n, 1)];
    assert_eq!(find_syslinux_cfg(&vec![]), None);
    let t = vec![
        dir("images", cfg("isolinux.cfg")),
        dir(
            "boot",
            vec![dir("isolinux", cfg("isolinux.cfg")), dir("syslinux", cfg("syslinux.cfg"))],
        ),
        dir("syslinux", cfg("syslinux.cfg")),
    ];
    assert_eq!(find_syslinux_cfg(&t).as_deref(), Some("boot/syslinux"));
    let t = vec![dir("images", cfg("isolinux.cfg"))];
    assert_eq!(find_syslinux_cfg(&t).as_deref(), Some("images"));
    // Exact names only; a directory is no configuration.
    let t = vec![dir("ISOLINUX", cfg("isolinux.cfg"))];
    assert_eq!(find_syslinux_cfg(&t), None);
    let t = vec![dir("isolinux", vec![dir("isolinux.cfg", vec![])])];
    assert_eq!(find_syslinux_cfg(&t), None);
}

#[test]
fn sizes_of_a_tree() {
    let t = vec![
        dir("a", vec![file("x.ESD", FAT32_MAX_FILE + 1), file("b\\c.wim", FAT32_MAX_FILE + 9)]),
        file("limit.bin", FAT32_MAX_FILE),
        link("l", Some(Kind::File(1 << 40, None))),
        Node { name: "socket".into(), kind: Kind::Other },
    ];
    let m = scan_tree(&t);
    assert_eq!(m.total_size, 3 * FAT32_MAX_FILE + 10);
    assert_eq!(m.max_file_size, FAT32_MAX_FILE + 9);
    assert_eq!(m.oversized_wim.as_deref(), Some("a/x.ESD"));
    assert!(m.has_oversized_files);
    // The limit itself still fits.
    let m = scan_tree(&vec![file("limit.bin", FAT32_MAX_FILE)]);
    assert!(!m.has_oversized_files);
    // Backslashes in names become slashes.
    let m = scan_tree(&vec![file("b\\c.wim", FAT32_MAX_FILE + 1)]);
    assert_eq!(m.oversized_wim.as_deref(), Some("b/c.wim"));
}

#[test]
fn decided_plan_keeps_the_manifest() {
    let m = scan_tree(&windows_tree(1));
    let (plan, back) = decide_plan(m.clone(), "/w.iso", false, false);
    assert_eq!(back, m);
    assert_eq!(plan.image_path(), Some("/w.iso"));
}

#[test]
fn files_are_copied_or_split() {
    let t = vec![
        file("a.txt", 5),
        dir("sources", vec![file("install.WIM", 100), file("boot.wim", 7)]),
    ];
    let mut files = Vec::new();
    list_files(&t, "", &mut files);
    let items = collect_items(&files, Some(50), true).unwrap();
    let steps = copy_steps(&items, "/iso", "/tgt");
    assert_eq!(steps.len(), 3);
    assert_eq!(steps[0].src, "/iso/a.txt");
    assert_eq!(steps[0].dst, "/tgt/a.txt");
    assert_eq!((steps[0].before, steps[0].done, steps[0].total), (0, 5, 112));
    assert_eq!(steps[0].phase(), "copying files");
    assert!(steps[1].split);
    assert_eq!(steps[1].dst, "/tgt/sources/install.swm");
    assert_eq!(steps[1].phase(), "splitting WIM");
    assert_eq!((steps[1].before, steps[1].done), (5, 105));
    assert_eq!(steps[2].done, 112);

    // Without a limit everything is copied.
    let items = collect_items(&files, None, false).unwrap();
    assert!(items.iter().all(|i| !i.split));
    // Without permission to split, the first large file is refused.
    assert_eq!(
        collect_items(&files, Some(6), false).unwrap_err(),
        "sources/install.WIM exceeds the FAT32 4 GiB limit and cannot be split"
    );
    assert_eq!(
        collect_items(&files, Some(4), true).unwrap_err(),
        "a.txt exceeds the FAT32 4 GiB limit and cannot be split"
    );
}

#[test]
fn parts_of_a_split() {
    assert_eq!(first_swm("/t/sources/install.wim"), "/t/sources/install.swm");
    assert_eq!(swm_part("/t/sources/install.swm", 2), "/t/sources/install2.swm");
    assert_eq!(split_limit(None), FAT32_MAX_FILE);
    assert_eq!(split_limit(Some("1000")), 1000);
    assert_eq!(split_limit(Some("1 000")), FAT32_MAX_FILE);
}

#[test]
fn chosen_plans_copy_their_image() {
    let big = FAT32_MAX_FILE + 5;
    for (wim, other) in [(1u64, 1u64), (big, 1), (1, big), (big, big)] {
        let mut tree = windows_tree(wim);
        tree.push(file("data.bin", other));
        let mut files = Vec::new();
        list_files(&tree, "", &mut files);
        match choose_plan(&scan_tree(&tree), "/w.iso", true, true) {
            FlashPlan::WinFat32 { split_wim, .. } => {
                let items = collect_items(&files, Some(FAT32_MAX_FILE), split_wim).unwrap();
                assert_eq!(items.iter().any(|i| i.split), split_wim);
            }
            FlashPlan::WinUefiNtfs { .. } => assert!(other > FAT32_MAX_FILE),
            other => panic!("{other:?}"),
        }
    }
}

#[test]
fn case_of_names_does_not_matter() {
    let upper = vec![
        dir(".DISK", vec![text("INFO", "Debian")]),
        dir("LIVE", vec![]),
    ];
    let lower = vec![
        dir(".disk", vec![text("info", "Debian")]),
        dir("live", vec![]),
    ];
    assert_eq!(detect_linux_flavor(&upper), detect_linux_flavor(&lower));
    assert_eq!(detect_linux_flavor(&upper).as_deref(), Some("persistence"));
    let mixed = vec![
        file("BootMGR", 1),
        dir("SouRCes", vec![file("Install.Wim", 1)]),
    ];
    assert!(looks_like_windows(&mixed));
}

#[test]
fn file_that_cannot_be_split_rules_out_fat32() {
    let mut tree = windows_tree(FAT32_MAX_FILE + (1 << 30));
    tree.push(file("huge.vhdx", FAT32_MAX_FILE + 1));
    let m = scan_tree(&tree);
    assert_eq!(m.oversized_wim.as_deref(), Some("sources/install.wim"));
    assert!(m.has_oversized_files && m.has_unsplittable_files);
    assert!(matches!(choose_plan(&m, "/w.iso", true, true), FlashPlan::WinUefiNtfs { .. }));
    assert!(!scan_tree(&windows_tree(FAT32_MAX_FILE + 1)).has_unsplittable_files);
}
