//! Text, paths, bootloader files and GUIDs.

use ferrus::assets::{
    answer_file_path, boot_manager_target, boot_store_path, fallback_loader, install_syslinux_cmd,
    loader_dir_arg, persistence_conf_path,
    boot_manager_source, cfg_action, cfg_missing_text, esp_boot_dir, esp_fallback_dir,
    gpt_disk_guid_offset, gpt_part_guid_offset,
    installed_panther_dir, locate_install_wim, locate_syslinux_files, mbr_code, new_entry_guid,
    pick_first, setup_panther_dir, syslinux_dir, uefi_ntfs_candidates, uefi_ntfs_override_error,
    CfgAction, LoaderDirs, SyslinuxFiles, PERSISTENCE_CONF,
};
use ferrus::bcd::validate_guid_str;
use ferrus::paths::{
    path_dir, path_file_name, path_join, path_stem, path_with_file_name, search_path,
};
use ferrus::text::{
    contains_str, dec_string, ends_with_str, lines_chars, parse_u32, parse_u64, starts_with_str,
    str_eq, str_lt, to_chars, to_lower, trim_chars,
};
use ferrus::togo::disk_file;
use std::path::Path;

#[test]
fn numbers_round_trip() {
    for n in [0u64, 7, 10, 4_294_967_295, 4_294_967_296, u64::MAX] {
        assert_eq!(dec_string(n), format!("{n}"));
        assert_eq!(parse_u64(&dec_string(n)), Some(n));
    }
    for text in ["", "+", "-1", "1 ", " 1", "0x1", "18446744073709551616", "１"] {
        assert_eq!(parse_u64(text), text.parse::<u64>().ok(), "{text}");
    }
    for text in ["+5", "007", "4294967295", "4294967296", "99999999999999999999999"] {
        assert_eq!(parse_u32(text), text.parse::<u32>().ok(), "{text}");
        assert_eq!(parse_u64(text), text.parse::<u64>().ok(), "{text}");
    }
}

#[test]
fn texts_compare() {
    assert!(str_eq("ab", "ab") && !str_eq("ab", "abc") && !str_eq("ab", "aB"));
    for (a, b) in [("a", "b"), ("", "a"), ("a", "a"), ("ab", "a"), ("é", "z"), ("\u{10000}", "\u{ffff}")] {
        assert_eq!(str_lt(a, b), a < b);
        assert_eq!(str_lt(b, a), b < a);
    }
    assert_eq!(to_lower("ÀBc-Z"), "Àbc-z");
    assert!(contains_str("bootmgr", "otm") && !contains_str("boot", "bootm"));
    assert!(contains_str("x", ""));
    assert!(starts_with_str("loop0", "loop") && !starts_with_str("lo", "loop"));
    assert!(ends_with_str("a.wim", ".wim") && !ends_with_str("wim", ".wim"));
}

#[test]
fn white_space_and_lines() {
    for t in ["  a b\t\n", "", " \u{a0}\u{2003}x\u{3000}", "\u{200b}y", "\u{85}\u{1680}"] {
        let got: String = trim_chars(&to_chars(t)).into_iter().collect();
        assert_eq!(got, t.trim(), "{t:?}");
    }
    for t in ["", "a", "a\n", "a\r\nb\n\nc\r", "\n", "\r\n", "x\n\ny"] {
        let got: Vec<String> =
            lines_chars(&to_chars(t)).into_iter().map(|l| l.into_iter().collect()).collect();
        let want: Vec<&str> = t.lines().collect();
        assert_eq!(got, want, "{t:?}");
    }
}

#[test]
fn paths_as_in_std() {
    for p in ["/dev/sda", "/dev/sda/", "sda", "/", "", "..", "a/..", "/a//b", "a/./", ".", "/a/b/."] {
        assert_eq!(
            path_file_name(p).as_deref(),
            Path::new(p).file_name().and_then(|n| n.to_str()),
            "{p}"
        );
        for name in ["x", "loop0p1"] {
            assert_eq!(
                Path::new(&path_with_file_name(p, name)),
                Path::new(p).with_file_name(name),
                "{p}"
            );
        }
    }
    for (a, b) in [("/a", "b"), ("/a/", "b"), ("", "b"), ("/a", "/b"), ("/a", ""), ("/a", "../b")] {
        assert_eq!(path_join(a, b), Path::new(a).join(b).to_str().unwrap());
    }
    for n in ["install.wim", "install", ".hidden", "a.b.c", "x."] {
        assert_eq!(path_stem(n), Path::new(n).file_stem().unwrap().to_str().unwrap(), "{n}");
    }
    assert_eq!(path_dir("/dev/sda"), "/dev");
}

#[test]
fn programs_are_searched() {
    assert_eq!(
        search_path("/usr/bin:/bin", "wimlib-imagex"),
        ["/usr/bin/wimlib-imagex", "/bin/wimlib-imagex"]
    );
}

#[test]
fn bootloader_image_places() {
    assert_eq!(
        uefi_ntfs_candidates(Some("/opt/bin")),
        [
            "/opt/bin/../../res/uefi-ntfs.img",
            "/opt/bin/../share/ferrus/uefi-ntfs.img",
            "/opt/bin/uefi-ntfs.img",
            "/usr/share/ferrus/uefi-ntfs.img",
            "/usr/local/share/ferrus/uefi-ntfs.img",
        ]
    );
    assert_eq!(uefi_ntfs_candidates(None).len(), 2);
    assert_eq!(
        uefi_ntfs_override_error("/x"),
        "FERRUS_UEFI_NTFS_IMG points at /x, which is not a file"
    );
    assert_eq!(pick_first(&vec![false, true, true]), Some(1));
    assert_eq!(pick_first(&vec![false]), None);
}

#[test]
fn syslinux_files() {
    let none = SyslinuxFiles { ldlinux: false, mbr: false, mbr_br: false };
    let mut found = vec![none; 4];
    assert_eq!(
        locate_syslinux_files(&found).unwrap_err(),
        "syslinux files missing (ldlinux.c32: false, mbr.bin: false); install the syslinux package"
    );
    found[3].ldlinux = true;
    assert_eq!(
        locate_syslinux_files(&found).unwrap_err(),
        "syslinux files missing (ldlinux.c32: true, mbr.bin: false); install the syslinux package"
    );
    found[1].mbr_br = true;
    found[2].mbr = true;
    assert_eq!(
        locate_syslinux_files(&found).unwrap(),
        (
            "/usr/lib/SYSLINUX/ldlinux.c32".to_string(),
            "/usr/lib/syslinux/modules/bios/mbr_br.bin".to_string()
        )
    );
    found[1].mbr = true;
    assert_eq!(
        locate_syslinux_files(&found).unwrap().1,
        "/usr/lib/syslinux/modules/bios/mbr.bin"
    );
    assert_eq!(syslinux_dir(0), "/usr/lib/syslinux/bios");
}

#[test]
fn loader_directories() {
    let none = LoaderDirs {
        isolinux: false,
        boot_syslinux: false,
        syslinux: false,
        boot_isolinux: false,
    };
    assert_eq!(none.choose_dir(), ("isolinux", true));
    let d = LoaderDirs { boot_syslinux: true, syslinux: true, ..none };
    assert_eq!(d.choose_dir(), ("boot/syslinux", false));
    let d = LoaderDirs { boot_isolinux: true, ..none };
    assert_eq!(d.choose_dir(), ("boot/isolinux", false));
    assert_eq!(loader_dir_arg("boot/syslinux"), "/boot/syslinux");
    let c = install_syslinux_cmd("/isolinux", "/dev/sda1");
    assert_eq!(c.program, "syslinux");
    assert_eq!(c.args, ["-i", "-d", "/isolinux", "/dev/sda1"]);
    assert_eq!(c.stdin, None);
    assert_eq!(cfg_action(true, true), CfgAction::Keep);
    assert_eq!(cfg_action(false, true), CfgAction::Duplicate);
    assert_eq!(cfg_action(false, false), CfgAction::Missing);
    assert_eq!(
        cfg_missing_text("/t/isolinux"),
        "no isolinux.cfg/syslinux.cfg under /t/isolinux — cannot make this ISO BIOS-bootable"
    );
}

#[test]
fn boot_code_is_cut() {
    let stub: Vec<u8> = (0..512u32).map(|i| i as u8).collect();
    assert_eq!(mbr_code(&stub).unwrap(), &stub[..440]);
    assert_eq!(mbr_code(&vec![0; 439]).unwrap_err(), "mbr.bin too small (439)");
}

#[test]
fn windows_places() {
    assert_eq!(locate_install_wim("/m", true, true).unwrap(), "/m/sources/install.wim");
    assert_eq!(locate_install_wim("/m", false, true).unwrap(), "/m/sources/install.esd");
    assert_eq!(
        locate_install_wim("/m", false, false).unwrap_err(),
        "no sources/install.wim or install.esd in this image"
    );
    assert_eq!(setup_panther_dir("/m"), "/m/sources/$OEM$/$$/Panther");
    assert_eq!(installed_panther_dir("/m"), "/m/Windows/Panther");
    assert_eq!(esp_boot_dir("/e"), "/e/EFI/Microsoft/Boot");
    assert_eq!(esp_fallback_dir("/e"), "/e/EFI/Boot");
    assert_eq!(boot_manager_source("/m"), "/m/efi/microsoft/boot/bootmgfw.efi");
    assert_eq!(boot_manager_target("/e"), "/e/EFI/Microsoft/Boot/bootmgfw.efi");
    assert_eq!(fallback_loader("/e"), "/e/EFI/Boot/bootx64.efi");
    assert_eq!(boot_store_path("/e"), "/e/EFI/Microsoft/Boot/BCD");
    assert_eq!(persistence_conf_path("/p"), "/p/persistence.conf");
    assert_eq!(PERSISTENCE_CONF, "/ union\n");
    assert_eq!(answer_file_path("/m/Panther"), "/m/Panther/unattend.xml");
    assert_eq!(disk_file("/m"), "/m/windows.vhdx");
}

#[test]
fn guids() {
    assert_eq!(gpt_disk_guid_offset(), 568);
    assert_eq!(gpt_part_guid_offset(1), 1040);
    assert_eq!(gpt_part_guid_offset(2), 1168);
    let g = new_entry_guid(&[0xFF; 16]);
    assert_eq!(g, "{ffffffff-ffff-4fff-bfff-ffffffffffff}");
    assert!(validate_guid_str(&g).is_ok());
    let g = new_entry_guid(&[0, 1, 2, 3, 4, 5, 6, 7, 8, 9, 10, 11, 12, 13, 14, 15]);
    assert_eq!(g, "{00010203-0405-4607-8809-0a0b0c0d0e0f}");
    assert!(validate_guid_str(&g).is_ok());
}
