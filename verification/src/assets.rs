//! Bootloader files: where they are looked for and what is made of them; boot
//! entry GUIDs; GUIDs in a GPT.

use crate::bcd::{is_hex, valid_guid};
use crate::commands::{cmd, Cmd};
use crate::paths::{join, path_join};
use crate::text::{dec, push_dec};
use vstd::prelude::*;
use vstd::string::*;

verus! {

// ---- the uefi:ntfs image ------------------------------------------------------

/// Where the uefi:ntfs bootloader image is looked for: beside the program, as
/// in a source tree and as installed, then in the system's directories.
pub open spec fn uefi_ntfs_places(exe_dir: Option<Seq<char>>) -> Seq<Seq<char>> {
    (match exe_dir {
        Some(d) => seq![
            join(d, "../../res/uefi-ntfs.img"@),
            join(d, "../share/ferrus/uefi-ntfs.img"@),
            join(d, "uefi-ntfs.img"@),
        ],
        None => seq![],
    }) + seq![
        "/usr/share/ferrus/uefi-ntfs.img"@,
        "/usr/local/share/ferrus/uefi-ntfs.img"@,
    ]
}

pub fn uefi_ntfs_candidates(exe_dir: Option<&str>) -> (r: Vec<String>)
    ensures
        r@.map_values(|s: String| s@) == uefi_ntfs_places(crate::text::opt_view(exe_dir)),
{
    let mut r: Vec<String> = Vec::new();
    match exe_dir {
        Some(d) => {
            r.push(path_join(d, "../../res/uefi-ntfs.img"));
            r.push(path_join(d, "../share/ferrus/uefi-ntfs.img"));
            r.push(path_join(d, "uefi-ntfs.img"));
        },
        None => {},
    }
    r.push("/usr/share/ferrus/uefi-ntfs.img".to_owned());
    r.push("/usr/local/share/ferrus/uefi-ntfs.img".to_owned());
    assert(r@.map_values(|s: String| s@) =~= uefi_ntfs_places(crate::text::opt_view(exe_dir)));
    r
}

/// What is said where the environment names something that is not a file.
pub fn uefi_ntfs_override_error(path: &str) -> (m: String)
    ensures
        m@ == "FERRUS_UEFI_NTFS_IMG points at "@ + path@ + ", which is not a file"@,
{
    "FERRUS_UEFI_NTFS_IMG points at ".to_owned().concat(path).concat(", which is not a file")
}

/// The first place that holds a file.
pub open spec fn first_present(present: Seq<bool>) -> Option<int>
    decreases present.len(),
{
    if present.len() == 0 {
        None
    } else {
        match first_present(present.drop_last()) {
            Some(i) => Some(i),
            None => if present.last() {
                Some(present.len() - 1)
            } else {
                None
            },
        }
    }
}

pub fn pick_first(present: &Vec<bool>) -> (r: Option<usize>)
    ensures
        match r {
            Some(i) => first_present(present@) == Some(i as int) && i < present@.len()
                && present@[i as int],
            None => first_present(present@) is None,
        },
{
    let mut i: usize = 0;
    while i < present.len()
        invariant
            i <= present@.len(),
            first_present(present@.take(i as int)) is None,
        decreases present@.len() - i,
    {
        proof {
            assert(present@.take(i + 1).drop_last() =~= present@.take(i as int));
            assert(present@.take(i + 1).last() == present@[i as int]);
        }
        if present[i] {
            proof {
                lemma_first_stays(present@, i + 1);
            }
            return Some(i);
        }
        i += 1;
    }
    assert(present@.take(i as int) =~= present@);
    None
}

proof fn lemma_first_stays(present: Seq<bool>, k: int)
    requires
        0 <= k <= present.len(),
        first_present(present.take(k)) is Some,
    ensures
        first_present(present) == first_present(present.take(k)),
    decreases present.len(),
{
    if k == present.len() {
        assert(present.take(k) =~= present);
    } else {
        assert(present.drop_last().take(k) =~= present.take(k));
        lemma_first_stays(present.drop_last(), k);
    }
}

// ---- SYSLINUX --------------------------------------------------------------------

/// Directories in which distributions keep SYSLINUX.
pub open spec fn syslinux_places() -> Seq<Seq<char>> {
    seq![
        "/usr/lib/syslinux/bios"@,
        "/usr/lib/syslinux/modules/bios"@,
        "/usr/share/syslinux"@,
        "/usr/lib/SYSLINUX"@,
    ]
}

/// Directories in which distributions keep SYSLINUX.
pub fn syslinux_dir(i: usize) -> (d: &'static str)
    requires
        i < 4,
    ensures
        d@ == syslinux_places()[i as int],
{
    if i == 0 {
        "/usr/lib/syslinux/bios"
    } else if i == 1 {
        "/usr/lib/syslinux/modules/bios"
    } else if i == 2 {
        "/usr/share/syslinux"
    } else {
        "/usr/lib/SYSLINUX"
    }
}

/// Which SYSLINUX files a directory holds.
#[derive(Debug, Clone, Copy, PartialEq, Eq, Structural)]
pub struct SyslinuxFiles {
    /// `ldlinux.c32`
    pub ldlinux: bool,
    /// `mbr.bin`
    pub mbr: bool,
    /// `mbr_br.bin`
    pub mbr_br: bool,
}

/// The first `ldlinux.c32`.
pub open spec fn ldlinux_at(found: Seq<SyslinuxFiles>) -> Option<Seq<char>> {
    match first_present(found.map_values(|f: SyslinuxFiles| f.ldlinux)) {
        Some(i) => Some(join(syslinux_places()[i], "ldlinux.c32"@)),
        None => None,
    }
}

/// The first MBR stub; in one directory `mbr.bin` goes before `mbr_br.bin`.
pub open spec fn mbr_at(found: Seq<SyslinuxFiles>) -> Option<Seq<char>> {
    match first_present(found.map_values(|f: SyslinuxFiles| f.mbr || f.mbr_br)) {
        Some(i) => Some(
            join(
                syslinux_places()[i],
                if found[i].mbr {
                    "mbr.bin"@
                } else {
                    "mbr_br.bin"@
                },
            ),
        ),
        None => None,
    }
}

pub open spec fn bool_text(b: bool) -> Seq<char> {
    if b {
        "true"@
    } else {
        "false"@
    }
}

fn push_bool(s: &mut String, b: bool)
    ensures
        final(s)@ == old(s)@ + bool_text(b),
{
    if b {
        s.append("true");
    } else {
        s.append("false");
    }
}

/// `ldlinux.c32` and the MBR stub for BIOS installs, from what each directory
/// holds.
pub fn locate_syslinux_files(found: &Vec<SyslinuxFiles>) -> (r: Result<(String, String), String>)
    requires
        found@.len() == 4,
    ensures
        match r {
            Ok((l, m)) => ldlinux_at(found@) == Some(l@) && mbr_at(found@) == Some(m@),
            Err(e) => (ldlinux_at(found@) is None || mbr_at(found@) is None) && e@
                == "syslinux files missing (ldlinux.c32: "@ + bool_text(
                ldlinux_at(found@) is Some,
            ) + ", mbr.bin: "@ + bool_text(mbr_at(found@) is Some)
                + "); install the syslinux package"@,
        },
{
    let mut have_ld: Vec<bool> = Vec::new();
    let mut have_mbr: Vec<bool> = Vec::new();
    let mut i: usize = 0;
    while i < found.len()
        invariant
            i <= found@.len(),
            have_ld@ == found@.take(i as int).map_values(|f: SyslinuxFiles| f.ldlinux),
            have_mbr@ == found@.take(i as int).map_values(|f: SyslinuxFiles| f.mbr || f.mbr_br),
        decreases found@.len() - i,
    {
        have_ld.push(found[i].ldlinux);
        have_mbr.push(found[i].mbr || found[i].mbr_br);
        i += 1;
        proof {
            let now = found@.take(i as int);
            assert(have_ld@ =~= now.map_values(|f: SyslinuxFiles| f.ldlinux));
            assert(have_mbr@ =~= now.map_values(|f: SyslinuxFiles| f.mbr || f.mbr_br));
        }
    }
    assert(found@.take(i as int) =~= found@);
    let ld: Option<usize> = pick_first(&have_ld);
    let mbr: Option<usize> = pick_first(&have_mbr);
    match (ld, mbr) {
        (Some(l), Some(m)) => {
            let stub: &str = if found[m].mbr { "mbr.bin" } else { "mbr_br.bin" };
            Ok((path_join(syslinux_dir(l), "ldlinux.c32"), path_join(syslinux_dir(m), stub)))
        },
        _ => {
            let mut e: String = "syslinux files missing (ldlinux.c32: ".to_owned();
            push_bool(&mut e, ld.is_some());
            e.append(", mbr.bin: ");
            push_bool(&mut e, mbr.is_some());
            e.append("); install the syslinux package");
            Err(e)
        },
    }
}

/// The bootloader directory of an extracted tree: the first that exists of
/// `isolinux`, `boot/syslinux`, `syslinux`, `boot/isolinux`; else `isolinux`,
/// which is then created.
#[derive(Debug, Clone, Copy, PartialEq, Eq, Structural)]
pub struct LoaderDirs {
    pub isolinux: bool,
    pub boot_syslinux: bool,
    pub syslinux: bool,
    pub boot_isolinux: bool,
}

impl LoaderDirs {
    pub open spec fn chosen(self) -> Seq<char> {
        if self.isolinux {
            "isolinux"@
        } else if self.boot_syslinux {
            "boot/syslinux"@
        } else if self.syslinux {
            "syslinux"@
        } else if self.boot_isolinux {
            "boot/isolinux"@
        } else {
            "isolinux"@
        }
    }

    pub open spec fn none(self) -> bool {
        !self.isolinux && !self.boot_syslinux && !self.syslinux && !self.boot_isolinux
    }

    pub fn choose_dir(&self) -> (r: (&'static str, bool))
        ensures
            r.0@ == self.chosen(),
            r.1 == self.none(),
    {
        if self.isolinux {
            ("isolinux", false)
        } else if self.boot_syslinux {
            ("boot/syslinux", false)
        } else if self.syslinux {
            ("syslinux", false)
        } else if self.boot_isolinux {
            ("boot/isolinux", false)
        } else {
            ("isolinux", true)
        }
    }
}

/// What is done about `syslinux.cfg`, the name that SYSLINUX looks for.
#[derive(Debug, Clone, Copy, PartialEq, Eq, Structural)]
pub enum CfgAction {
    /// It exists.
    Keep,
    /// Copy `isolinux.cfg` to `syslinux.cfg`.
    Duplicate,
    /// There is no configuration: the image cannot boot on a BIOS.
    Missing,
}

pub fn cfg_action(syslinux_cfg: bool, isolinux_cfg: bool) -> (a: CfgAction)
    ensures
        a == if syslinux_cfg {
            CfgAction::Keep
        } else if isolinux_cfg {
            CfgAction::Duplicate
        } else {
            CfgAction::Missing
        },
{
    if syslinux_cfg {
        CfgAction::Keep
    } else if isolinux_cfg {
        CfgAction::Duplicate
    } else {
        CfgAction::Missing
    }
}

pub fn cfg_missing_text(dir: &str) -> (m: String)
    ensures
        m@ == "no isolinux.cfg/syslinux.cfg under "@ + dir@
            + " — cannot make this ISO BIOS-bootable"@,
{
    "no isolinux.cfg/syslinux.cfg under ".to_owned().concat(dir).concat(
        " — cannot make this ISO BIOS-bootable",
    )
}

/// A directory of an extracted tree as the SYSLINUX installer wants it.
pub fn loader_dir_arg(dir: &str) -> (a: String)
    ensures
        a@ == "/"@ + dir@,
{
    "/".to_owned().concat(dir)
}

/// The command that installs the SYSLINUX boot sector on `node`, with its files
/// in `dir`.
pub fn install_syslinux_cmd(dir: &str, node: &str) -> (c: Cmd)
    ensures
        c@ == cmd("syslinux"@, seq!["-i"@, "-d"@, dir@, node@]),
{
    let c = Cmd::new("syslinux").arg("-i").arg("-d").arg(dir).arg(node);
    assert(c@.args =~= seq!["-i"@, "-d"@, dir@, node@]);
    c
}

/// The boot code that goes to the start of the device: the first 440 bytes of
/// the stub, which has to have as many.
pub fn mbr_code(stub: &Vec<u8>) -> (r: Result<Vec<u8>, String>)
    ensures
        match r {
            Ok(code) => stub@.len() >= 440 && code@ == stub@.take(440),
            Err(e) => stub@.len() < 440 && e@ == "mbr.bin too small ("@ + dec(stub@.len()) + ")"@,
        },
{
    if stub.len() < 440 {
        let mut e: String = "mbr.bin too small (".to_owned();
        push_dec(&mut e, stub.len() as u64);
        e.append(")");
        return Err(e);
    }
    let mut code: Vec<u8> = Vec::new();
    let mut i: usize = 0;
    while i < 440
        invariant
            i <= 440 <= stub@.len(),
            code@ == stub@.take(i as int),
        decreases 440 - i,
    {
        code.push(stub[i]);
        i += 1;
        assert(code@ =~= stub@.take(i as int));
    }
    Ok(code)
}

// ---- images ----------------------------------------------------------------------

/// `sources/install.wim`, else `sources/install.esd`, below `root`.
pub fn locate_install_wim(root: &str, has_wim: bool, has_esd: bool) -> (r: Result<String, String>)
    ensures
        match r {
            Ok(p) => if has_wim {
                p@ == join(join(root@, "sources"@), "install.wim"@)
            } else {
                has_esd && p@ == join(join(root@, "sources"@), "install.esd"@)
            },
            Err(e) => !has_wim && !has_esd && e@
                == "no sources/install.wim or install.esd in this image"@,
        },
{
    let sources: String = path_join(root, "sources");
    if has_wim {
        Ok(path_join(sources.as_str(), "install.wim"))
    } else if has_esd {
        Ok(path_join(sources.as_str(), "install.esd"))
    } else {
        Err("no sources/install.wim or install.esd in this image".to_owned())
    }
}

/// Where setup looks for an answer file on install media.
pub fn setup_panther_dir(root: &str) -> (d: String)
    ensures
        d@ == join(join(join(join(root@, "sources"@), "$OEM$"@), "$$"@), "Panther"@),
{
    let a: String = path_join(root, "sources");
    let b: String = path_join(a.as_str(), "$OEM$");
    let c: String = path_join(b.as_str(), "$$");
    path_join(c.as_str(), "Panther")
}

/// Where an installed Windows looks for an answer file.
pub fn installed_panther_dir(root: &str) -> (d: String)
    ensures
        d@ == join(join(root@, "Windows"@), "Panther"@),
{
    let a: String = path_join(root, "Windows");
    path_join(a.as_str(), "Panther")
}

/// The directory of boot manager and boot store on an EFI system partition.
pub fn esp_boot_dir(root: &str) -> (d: String)
    ensures
        d@ == join(join(join(root@, "EFI"@), "Microsoft"@), "Boot"@),
{
    let a: String = path_join(root, "EFI");
    let b: String = path_join(a.as_str(), "Microsoft");
    path_join(b.as_str(), "Boot")
}

/// The directory of the loader that firmware falls back on.
pub fn esp_fallback_dir(root: &str) -> (d: String)
    ensures
        d@ == join(join(root@, "EFI"@), "Boot"@),
{
    let a: String = path_join(root, "EFI");
    path_join(a.as_str(), "Boot")
}

/// The boot manager on install media.
pub fn boot_manager_source(root: &str) -> (p: String)
    ensures
        p@ == join(
            join(join(join(root@, "efi"@), "microsoft"@), "boot"@),
            "bootmgfw.efi"@,
        ),
{
    let a: String = path_join(root, "efi");
    let b: String = path_join(a.as_str(), "microsoft");
    let c: String = path_join(b.as_str(), "boot");
    path_join(c.as_str(), "bootmgfw.efi")
}

/// The boot manager on an EFI system partition.
pub fn boot_manager_target(root: &str) -> (p: String)
    ensures
        p@ == join(join(join(join(root@, "EFI"@), "Microsoft"@), "Boot"@), "bootmgfw.efi"@),
{
    path_join(esp_boot_dir(root).as_str(), "bootmgfw.efi")
}

/// The loader that firmware without a boot entry falls back on.
pub fn fallback_loader(root: &str) -> (p: String)
    ensures
        p@ == join(join(join(root@, "EFI"@), "Boot"@), "bootx64.efi"@),
{
    path_join(esp_fallback_dir(root).as_str(), "bootx64.efi")
}

/// The boot store on an EFI system partition.
pub fn boot_store_path(root: &str) -> (p: String)
    ensures
        p@ == join(join(join(join(root@, "EFI"@), "Microsoft"@), "Boot"@), "BCD"@),
{
    path_join(esp_boot_dir(root).as_str(), "BCD")
}

/// The file that tells Debian live systems what a persistence partition keeps.
pub fn persistence_conf_path(root: &str) -> (p: String)
    ensures
        p@ == join(root@, "persistence.conf"@),
{
    path_join(root, "persistence.conf")
}

/// The answer file in its directory.
pub fn answer_file_path(dir: &str) -> (p: String)
    ensures
        p@ == join(dir@, "unattend.xml"@),
{
    path_join(dir, "unattend.xml")
}

/// What `persistence.conf` says: everything is kept.
pub const PERSISTENCE_CONF: &'static str = "/ union\n";

// ---- GUIDs -----------------------------------------------------------------------

/// Where the disk GUID stands on a device: in the GPT header (sector 1).
pub fn gpt_disk_guid_offset() -> (n: u64)
    ensures
        n == 512 + 56,
{
    568
}

/// Where the GUID of partition `n` (1-based) stands: in the entries that start
/// at sector 2.
pub fn gpt_part_guid_offset(n: u8) -> (k: u64)
    requires
        n >= 1,
    ensures
        k == 1024 + (n - 1) * 128 + 16,
{
    1024 + (n as u64 - 1) * 128 + 16
}

/// The hexadecimal digit of `d`, which is below 16.
pub open spec fn hex_char(d: int) -> char {
    if d < 10 {
        (48 + d) as u8 as char
    } else {
        (87 + d) as u8 as char
    }
}

/// The bytes of a random (version 4) GUID made of 16 random ones.
pub open spec fn v4_bytes(b: Seq<u8>) -> Seq<u8> {
    b.update(6, (0x40 + b[6] % 16) as u8).update(8, (0x80 + b[8] % 64) as u8)
}

/// Two digits for each byte.
pub open spec fn hex_text(b: Seq<u8>) -> Seq<char>
    decreases b.len(),
{
    if b.len() == 0 {
        seq![]
    } else {
        hex_text(b.drop_last()).push(hex_char(b.last() as int / 16)).push(
            hex_char(b.last() as int % 16),
        )
    }
}

/// `{xxxxxxxx-xxxx-xxxx-xxxx-xxxxxxxxxxxx}`
pub open spec fn guid_text(b: Seq<u8>) -> Seq<char> {
    seq!['{'] + hex_text(b.subrange(0, 4)) + seq!['-'] + hex_text(b.subrange(4, 6)) + seq!['-']
        + hex_text(b.subrange(6, 8)) + seq!['-'] + hex_text(b.subrange(8, 10)) + seq!['-']
        + hex_text(b.subrange(10, 16)) + seq!['}']
}

fn hex_digit(d: u8) -> (c: char)
    requires
        d < 16,
    ensures
        c == hex_char(d as int),
{
    if d < 10 {
        (48 + d) as char
    } else {
        (87 + d) as char
    }
}

fn push_hex(s: &mut String, b: &Vec<u8>, from: usize, to: usize)
    requires
        from <= to <= b@.len(),
    ensures
        final(s)@ == old(s)@ + hex_text(b@.subrange(from as int, to as int)),
{
    let ghost start = s@;
    let mut i: usize = from;
    assert(b@.subrange(from as int, from as int) =~= seq![]);
    while i < to
        invariant
            from <= i <= to <= b@.len(),
            s@ == start + hex_text(b@.subrange(from as int, i as int)),
        decreases to - i,
    {
        let x: u8 = b[i];
        s.push(hex_digit(x / 16));
        s.push(hex_digit(x % 16));
        proof {
            let now = b@.subrange(from as int, i + 1);
            assert(now.drop_last() =~= b@.subrange(from as int, i as int));
            assert(now.last() == x);
            assert(s@ =~= start + hex_text(now));
        }
        i += 1;
    }
}

/// A `{guid}` for a boot entry, in lower case, from 16 random bytes.
pub fn new_entry_guid(random: &[u8; 16]) -> (s: String)
    ensures
        s@ == guid_text(v4_bytes(random@)),
        valid_guid(s@),
{
    let mut b: Vec<u8> = Vec::new();
    let mut i: usize = 0;
    while i < 16
        invariant
            i <= 16,
            b@ == v4_bytes(random@).take(i as int),
        decreases 16 - i,
    {
        let x: u8 = random[i];
        b.push(
            if i == 6 {
                0x40 + x % 16
            } else if i == 8 {
                0x80 + x % 64
            } else {
                x
            },
        );
        i += 1;
        assert(b@ =~= v4_bytes(random@).take(i as int));
    }
    assert(b@ =~= v4_bytes(random@));
    let mut s: String = String::new();
    s.push('{');
    push_hex(&mut s, &b, 0, 4);
    s.push('-');
    push_hex(&mut s, &b, 4, 6);
    s.push('-');
    push_hex(&mut s, &b, 6, 8);
    s.push('-');
    push_hex(&mut s, &b, 8, 10);
    s.push('-');
    push_hex(&mut s, &b, 10, 16);
    s.push('}');
    assert(s@ =~= guid_text(b@));
    proof {
        law_entry_guid_valid(b@);
    }
    s
}

proof fn lemma_hex_text(b: Seq<u8>)
    ensures
        hex_text(b).len() == 2 * b.len(),
        forall|i: int| 0 <= i < hex_text(b).len() ==> is_hex(#[trigger] hex_text(b)[i]),
    decreases b.len(),
{
    if b.len() > 0 {
        lemma_hex_text(b.drop_last());
        lemma_hex_char(b.last() as int / 16);
        lemma_hex_char(b.last() as int % 16);
    }
}

proof fn lemma_hex_char(d: int)
    requires
        0 <= d < 16,
    ensures
        is_hex(hex_char(d)),
{
}

/// The text of 16 bytes is a GUID that a boot store accepts.
pub proof fn law_entry_guid_valid(b: Seq<u8>)
    requires
        b.len() == 16,
    ensures
        valid_guid(guid_text(b)),
{
    let h0 = hex_text(b.subrange(0, 4));
    let h1 = hex_text(b.subrange(4, 6));
    let h2 = hex_text(b.subrange(6, 8));
    let h3 = hex_text(b.subrange(8, 10));
    let h4 = hex_text(b.subrange(10, 16));
    lemma_hex_text(b.subrange(0, 4));
    lemma_hex_text(b.subrange(4, 6));
    lemma_hex_text(b.subrange(6, 8));
    lemma_hex_text(b.subrange(8, 10));
    lemma_hex_text(b.subrange(10, 16));
    let s = guid_text(b);
    assert(s.len() == 38);
    assert forall|i: int| 1 <= i < 37 implies if i == 9 || i == 14 || i == 19 || i == 24 {
        #[trigger] s[i] == '-'
    } else {
        is_hex(s[i])
    } by {
        if 1 <= i < 9 {
            assert(s[i] == h0[i - 1]);
        } else if 10 <= i < 14 {
            assert(s[i] == h1[i - 10]);
        } else if 15 <= i < 19 {
            assert(s[i] == h2[i - 15]);
        } else if 20 <= i < 24 {
            assert(s[i] == h3[i - 20]);
        } else if 25 <= i < 37 {
            assert(s[i] == h4[i - 25]);
        }
    }
}

} // verus!
