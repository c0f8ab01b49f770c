//! Image inspection and choice of a flashing plan.
//!
//! * not a Windows ISO: raw DD, or extraction where the image has no boot code
//!   of its own and SYSLINUX can be installed
//! * Windows, every file fits FAT32: GPT + FAT32
//! * Windows, oversized WIM/ESD: FAT32 with `.swm` parts, or UEFI:NTFS where
//!   `wimlib-imagex` is unavailable
//! * Windows, other oversized file: UEFI:NTFS dual-partition layout

use crate::protocol::{FlashPlan, PartitionScheme};
use crate::text::{
    contains, contains_str, ends_with, ends_with_str, from_chars, lines, lines_chars, lower,
    parse_chars, parse_number, slice_chars, stands_at, starts_with, to_chars, to_lower, trim,
    trim_chars,
};
use crate::tree::{
    any_case, ci_lookup, entries, exact, file_models, files_in, find_exact, is_dir, is_file,
    list_files, text_of, FileEntry, FileModel, Node,
};
use vstd::prelude::*;

verus! {

/// Largest file that is put on FAT32: 4 GiB with a safety margin of 1 MiB.
pub const FAT32_MAX_FILE: u64 = 4_293_918_720;

#[derive(Debug, Clone, PartialEq, Eq)]
pub struct ImageManifest {
    pub is_windows: bool,
    /// Total bytes of regular-file payload.
    pub total_size: u64,
    /// Size of the largest single file.
    pub max_file_size: u64,
    /// Slash-separated path (relative to the ISO root) of an oversized `.wim`
    /// or `.esd` that would need splitting, if any.
    pub oversized_wim: Option<String>,
    /// Whether any file is too large for FAT32.
    pub has_oversized_files: bool,
    /// Whether any file is too large for FAT32 and cannot be split, being no
    /// `.wim` or `.esd`.
    pub has_unsplittable_files: bool,
    /// Live-USB persistence label this image expects: `casper-rw` (Ubuntu
    /// family) or `persistence` (Debian). None where persistence support
    /// cannot be determined.
    pub linux_flavor: Option<String>,
    /// Whether the source ISO carries MBR boot code, so that it can be
    /// sector-copied. Filled in by who has the raw file; tree scans leave it
    /// false.
    pub hybrid: bool,
    /// Directory (from the ISO root) that holds a SYSLINUX or ISOLINUX
    /// configuration file, if any.
    pub syslinux_dir: Option<String>,
}

pub open spec fn opt_text(s: Option<String>) -> Option<Seq<char>> {
    match s {
        Some(t) => Some(t@),
        None => None,
    }
}

/// A manifest as plain values.
#[verifier::ext_equal]
pub struct ManifestModel {
    pub is_windows: bool,
    pub total_size: int,
    pub max_file_size: int,
    pub oversized_wim: Option<Seq<char>>,
    pub has_oversized_files: bool,
    pub has_unsplittable_files: bool,
    pub linux_flavor: Option<Seq<char>>,
    pub hybrid: bool,
    pub syslinux_dir: Option<Seq<char>>,
}

impl ImageManifest {
    pub open spec fn view(self) -> ManifestModel {
        ManifestModel {
            is_windows: self.is_windows,
            total_size: self.total_size as int,
            max_file_size: self.max_file_size as int,
            oversized_wim: opt_text(self.oversized_wim),
            has_oversized_files: self.has_oversized_files,
            has_unsplittable_files: self.has_unsplittable_files,
            linux_flavor: opt_text(self.linux_flavor),
            hybrid: self.hybrid,
            syslinux_dir: opt_text(self.syslinux_dir),
        }
    }
}

impl Default for ImageManifest {
    fn default() -> (m: ImageManifest)
        ensures
            m@ == (ManifestModel {
                is_windows: false,
                total_size: 0,
                max_file_size: 0,
                oversized_wim: None,
                has_oversized_files: false,
                has_unsplittable_files: false,
                linux_flavor: None,
                hybrid: false,
                syslinux_dir: None,
            }),
    {
        ImageManifest {
            is_windows: false,
            total_size: 0,
            max_file_size: 0,
            oversized_wim: None,
            has_oversized_files: false,
            has_unsplittable_files: false,
            linux_flavor: None,
            hybrid: false,
            syslinux_dir: None,
        }
    }
}

// ---- sizes -------------------------------------------------------------------

/// A WIM or ESD archive, by its name in any case.
pub open spec fn wimish(name: Seq<char>) -> bool {
    ends_with(lower(name), ".wim"@) || ends_with(lower(name), ".esd"@)
}

pub fn is_wimish(name: &str) -> (r: bool)
    ensures
        r == wimish(name@),
{
    let l: String = to_lower(name);
    ends_with_str(l.as_str(), ".wim") || ends_with_str(l.as_str(), ".esd")
}

pub open spec fn total_len(files: Seq<FileModel>) -> int
    decreases files.len(),
{
    if files.len() == 0 {
        0
    } else {
        total_len(files.drop_last()) + files.last().len
    }
}

pub open spec fn largest(files: Seq<FileModel>) -> int
    decreases files.len(),
{
    if files.len() == 0 {
        0
    } else if files.last().len > largest(files.drop_last()) {
        files.last().len
    } else {
        largest(files.drop_last())
    }
}

pub open spec fn oversized(f: FileModel) -> bool {
    f.len > FAT32_MAX_FILE
}

pub open spec fn any_oversized(files: Seq<FileModel>) -> bool {
    exists|i: int| 0 <= i < files.len() && oversized(#[trigger] files[i])
}

/// Too large, and no archive that could be split.
pub open spec fn stuck(f: FileModel) -> bool {
    oversized(f) && !wimish(f.name)
}

pub open spec fn any_stuck(files: Seq<FileModel>) -> bool {
    exists|i: int| 0 <= i < files.len() && stuck(#[trigger] files[i])
}

/// Backslashes become slashes.
pub open spec fn slashed(p: Seq<char>) -> Seq<char> {
    p.map_values(
        |c: char|
            if c == '\\' {
                '/'
            } else {
                c
            },
    )
}

/// The first oversized WIM or ESD.
pub open spec fn first_oversized_wim(files: Seq<FileModel>) -> Option<Seq<char>>
    decreases files.len(),
{
    if files.len() == 0 {
        None
    } else {
        match first_oversized_wim(files.drop_last()) {
            Some(p) => Some(p),
            None => if oversized(files.last()) && wimish(files.last().name) {
                Some(slashed(files.last().rel))
            } else {
                None
            },
        }
    }
}

fn to_slashes(p: &str) -> (r: String)
    ensures
        r@ == slashed(p@),
{
    let mut r: String = String::new();
    for c in it: p.chars()
        invariant
            it.seq() == p@,
            r@ == slashed(p@.take(it.index())),
    {
        r.push(if c == '\\' { '/' } else { c });
        assert(r@ =~= slashed(p@.take(it.index() + 1)));
    }
    assert(p@.take(p@.len() as int) =~= p@);
    r
}

/// Fills in what the sizes of the files say. The total is modulo 2^64.
fn measure(files: &Vec<FileEntry>, m: &mut ImageManifest)
    requires
        old(m)@ == (ManifestModel {
            is_windows: false,
            total_size: 0,
            max_file_size: 0,
            oversized_wim: None,
            has_oversized_files: false,
            has_unsplittable_files: false,
            linux_flavor: None,
            hybrid: false,
            syslinux_dir: None,
        }),
    ensures
        final(m)@ == (ManifestModel {
            total_size: total_len(file_models(files@)) % 0x1_0000_0000_0000_0000,
            max_file_size: largest(file_models(files@)),
            oversized_wim: first_oversized_wim(file_models(files@)),
            has_oversized_files: any_oversized(file_models(files@)),
            has_unsplittable_files: any_stuck(file_models(files@)),
            ..old(m)@
        }),
{
    let ghost all = file_models(files@);
    let ghost start = m@;
    let mut i: usize = 0;
    while i < files.len()
        invariant
            i <= files@.len(),
            all == file_models(files@),
            start.hybrid == m.hybrid,
            start.is_windows == m.is_windows,
            start.linux_flavor == opt_text(m.linux_flavor),
            start.syslinux_dir == opt_text(m.syslinux_dir),
            m@.total_size == total_len(all.take(i as int)) % 0x1_0000_0000_0000_0000,
            m@.max_file_size == largest(all.take(i as int)),
            m@.oversized_wim == first_oversized_wim(all.take(i as int)),
            m@.has_oversized_files == any_oversized(all.take(i as int)),
            m@.has_unsplittable_files == any_stuck(all.take(i as int)),
        decreases files@.len() - i,
    {
        let f: &FileEntry = &files[i];
        let ghost before = all.take(i as int);
        let ghost now = all.take(i + 1);
        proof {
            assert(now.drop_last() =~= before);
            assert(now.last() == f@);
            if any_oversized(before) {
                let k = choose|k: int| 0 <= k < before.len() && oversized(#[trigger] before[k]);
                assert(now[k] == before[k]);
                assert(any_oversized(now));
            }
            if oversized(f@) {
                assert(oversized(now[i as int]));
                assert(any_oversized(now));
            }
            if any_oversized(now) {
                let k = choose|k: int| 0 <= k < now.len() && oversized(#[trigger] now[k]);
                if k < i {
                    assert(before[k] == now[k]);
                    assert(any_oversized(before));
                }
            }
            if any_stuck(before) {
                let k = choose|k: int| 0 <= k < before.len() && stuck(#[trigger] before[k]);
                assert(now[k] == before[k]);
                assert(any_stuck(now));
            }
            if stuck(f@) {
                assert(stuck(now[i as int]));
                assert(any_stuck(now));
            }
            if any_stuck(now) {
                let k = choose|k: int| 0 <= k < now.len() && stuck(#[trigger] now[k]);
                if k < i {
                    assert(before[k] == now[k]);
                    assert(any_stuck(before));
                }
            }
        }
        m.total_size = m.total_size.wrapping_add(f.len);
        if f.len > m.max_file_size {
            m.max_file_size = f.len;
        }
        if f.len > FAT32_MAX_FILE {
            m.has_oversized_files = true;
            if !is_wimish(f.name.as_str()) {
                m.has_unsplittable_files = true;
            } else if m.oversized_wim.is_none() {
                m.oversized_wim = Some(to_slashes(f.rel.as_str()));
            }
        }
        i += 1;
    }
    assert(all.take(i as int) =~= all);
}

// ---- what kind of image ------------------------------------------------------

/// A Windows install medium: `bootmgr`, and `sources` with an `install.wim` or
/// `install.esd`, in any letter case.
pub open spec fn windows_tree(root: Seq<Node>) -> bool {
    &&& any_case(root, "bootmgr"@) is Some
    &&& any_case(root, "sources"@) matches Some(s) && (any_case(
        entries(s.kind),
        "install.wim"@,
    ) is Some || any_case(entries(s.kind), "install.esd"@) is Some)
}

/// Detects a Windows install medium by its marker files.
pub fn looks_like_windows(root: &Vec<Node>) -> (r: bool)
    ensures
        r == windows_tree(root@),
{
    if ci_lookup(root, "bootmgr").is_none() {
        return false;
    }
    match ci_lookup(root, "sources") {
        Some(s) => match s.kind.children() {
            Some(c) => ci_lookup(c, "install.wim").is_some() || ci_lookup(c, "install.esd").is_some(),
            None => {
                let none: Vec<Node> = Vec::new();
                assert(none@ =~= entries(s.kind));
                ci_lookup(&none, "install.wim").is_some() || ci_lookup(
                    &none,
                    "install.esd",
                ).is_some()
            },
        },
        None => false,
    }
}

/// The entries of the directory `a` of `nodes`, links followed.
pub open spec fn below(nodes: Seq<Node>, a: Seq<char>) -> Seq<Node> {
    match exact(nodes, a) {
        Some(n) => entries(n.kind),
        None => seq![],
    }
}

/// Whether `nodes` holds the directory `a` with a SYSLINUX or ISOLINUX
/// configuration in it.
pub open spec fn cfg_in(nodes: Seq<Node>, a: Seq<char>) -> bool {
    match exact(nodes, a) {
        Some(n) => is_dir(n.kind) && (file_at(entries(n.kind), "syslinux.cfg"@) || file_at(
            entries(n.kind),
            "isolinux.cfg"@,
        )),
        None => false,
    }
}

pub open spec fn file_at(nodes: Seq<Node>, name: Seq<char>) -> bool {
    exact(nodes, name) matches Some(n) && is_file(n.kind)
}

/// The directory of a loader configuration, in order of preference.
pub open spec fn syslinux_dir(root: Seq<Node>) -> Option<Seq<char>> {
    if cfg_in(root, "isolinux"@) {
        Some("isolinux"@)
    } else if cfg_in(below(root, "boot"@), "syslinux"@) {
        Some("boot/syslinux"@)
    } else if cfg_in(root, "syslinux"@) {
        Some("syslinux"@)
    } else if cfg_in(below(root, "boot"@), "isolinux"@) {
        Some("boot/isolinux"@)
    } else if cfg_in(root, "images"@) {
        Some("images"@)
    } else {
        None
    }
}

fn has_file(nodes: &Vec<Node>, name: &str) -> (r: bool)
    ensures
        r == file_at(nodes@, name@),
{
    match find_exact(nodes, name) {
        Some(n) => n.kind.leads_to_file(),
        None => false,
    }
}

fn has_cfg(nodes: &Vec<Node>, a: &str) -> (r: bool)
    ensures
        r == cfg_in(nodes@, a@),
{
    match find_exact(nodes, a) {
        Some(n) => match n.kind.children() {
            Some(c) => n.kind.leads_to_dir() && (has_file(c, "syslinux.cfg") || has_file(
                c,
                "isolinux.cfg",
            )),
            None => {
                let none: Vec<Node> = Vec::new();
                assert(none@ =~= entries(n.kind));
                n.kind.leads_to_dir() && (has_file(&none, "syslinux.cfg") || has_file(
                    &none,
                    "isolinux.cfg",
                ))
            },
        },
        None => false,
    }
}

fn has_cfg_below(root: &Vec<Node>, a: &str, b: &str) -> (r: bool)
    ensures
        r == cfg_in(below(root@, a@), b@),
{
    match find_exact(root, a) {
        Some(n) => match n.kind.children() {
            Some(c) => has_cfg(c, b),
            None => {
                let none: Vec<Node> = Vec::new();
                assert(none@ =~= entries(n.kind));
                has_cfg(&none, b)
            },
        },
        None => {
            let none: Vec<Node> = Vec::new();
            assert(none@ =~= below(root@, a@));
            has_cfg(&none, b)
        },
    }
}

/// Finds a SYSLINUX or ISOLINUX configuration and returns its directory.
pub fn find_syslinux_cfg(root: &Vec<Node>) -> (r: Option<String>)
    ensures
        opt_text(r) == syslinux_dir(root@),
{
    if has_cfg(root, "isolinux") {
        Some("isolinux".to_owned())
    } else if has_cfg_below(root, "boot", "syslinux") {
        Some("boot/syslinux".to_owned())
    } else if has_cfg(root, "syslinux") {
        Some("syslinux".to_owned())
    } else if has_cfg_below(root, "boot", "isolinux") {
        Some("boot/isolinux".to_owned())
    } else if has_cfg(root, "images") {
        Some("images".to_owned())
    } else {
        None
    }
}

/// The text of `.disk/info` in lower case; empty where there is none.
pub open spec fn disk_info(root: Seq<Node>) -> Seq<char> {
    match any_case(root, ".disk"@) {
        Some(d) => match any_case(entries(d.kind), "info"@) {
            Some(n) => match text_of(n.kind) {
                Some(t) => lower(t),
                None => seq![],
            },
            None => seq![],
        },
        None => seq![],
    }
}

pub open spec fn dir_at(root: Seq<Node>, name: Seq<char>) -> bool {
    any_case(root, name) matches Some(n) && is_dir(n.kind)
}

/// Which persistence convention a Linux live image follows: the label of the
/// persistence partition.
pub open spec fn linux_flavor(root: Seq<Node>) -> Option<Seq<char>> {
    let info = disk_info(root);
    if windows_tree(root) {
        None
    } else if contains(info, "debian"@) && !contains(info, "ubuntu"@) {
        Some("persistence"@)
    } else if dir_at(root, "casper"@) || contains(info, "ubuntu"@) || contains(info, "mint"@) {
        Some("casper-rw"@)
    } else if dir_at(root, "live"@) {
        Some("persistence"@)
    } else {
        None
    }
}

fn read_disk_info(root: &Vec<Node>) -> (r: String)
    ensures
        r@ == disk_info(root@),
{
    match ci_lookup(root, ".disk") {
        Some(d) => {
            let none: Vec<Node> = Vec::new();
            let c: &Vec<Node> = match d.kind.children() {
                Some(c) => c,
                None => &none,
            };
            assert(c@ =~= entries(d.kind));
            match ci_lookup(c, "info") {
                Some(n) => match n.kind.text() {
                    Some(t) => to_lower(t),
                    None => String::new(),
                },
                None => String::new(),
            }
        },
        None => String::new(),
    }
}

fn has_dir(root: &Vec<Node>, name: &str) -> (r: bool)
    ensures
        r == dir_at(root@, name@),
{
    match ci_lookup(root, name) {
        Some(n) => n.kind.leads_to_dir(),
        None => false,
    }
}

/// Which persistence convention a Linux live image follows, by `.disk/info`
/// and its directories (Ubuntu's `casper`, Debian's `live`).
pub fn detect_linux_flavor(root: &Vec<Node>) -> (r: Option<String>)
    ensures
        opt_text(r) == linux_flavor(root@),
{
    if looks_like_windows(root) {
        return None;
    }
    let info: String = read_disk_info(root);
    let ubuntu: bool = contains_str(info.as_str(), "ubuntu");
    if contains_str(info.as_str(), "debian") && !ubuntu {
        return Some("persistence".to_owned());
    }
    if has_dir(root, "casper") || ubuntu || contains_str(info.as_str(), "mint") {
        return Some("casper-rw".to_owned());
    }
    if has_dir(root, "live") {
        return Some("persistence".to_owned());
    }
    None
}

/// What a tree says of its image.
pub open spec fn manifest_of(root: Seq<Node>) -> ManifestModel {
    let files = files_in(root, seq![]);
    ManifestModel {
        is_windows: windows_tree(root),
        total_size: total_len(files) % 0x1_0000_0000_0000_0000,
        max_file_size: largest(files),
        oversized_wim: first_oversized_wim(files),
        has_oversized_files: any_oversized(files),
        has_unsplittable_files: any_stuck(files),
        linux_flavor: linux_flavor(root),
        hybrid: false,
        syslinux_dir: syslinux_dir(root),
    }
}

/// Classifies a tree.
pub fn scan_tree(root: &Vec<Node>) -> (m: ImageManifest)
    ensures
        m@ == manifest_of(root@),
{
    let mut files: Vec<FileEntry> = Vec::new();
    let ghost none = file_models(files@);
    list_files(root, "", &mut files);
    proof {
        reveal_strlit("");
        assert(""@ =~= seq![]);
        assert(none + files_in(root@, seq![]) =~= files_in(root@, seq![]));
    }
    let mut m: ImageManifest = Default::default();
    measure(&files, &mut m);
    m.is_windows = looks_like_windows(root);
    m.linux_flavor = detect_linux_flavor(root);
    m.syslinux_dir = find_syslinux_cfg(root);
    m
}

/// How many bytes are not zero.
pub open spec fn nonzero_count(s: Seq<u8>) -> int
    decreases s.len(),
{
    if s.len() == 0 {
        0
    } else {
        nonzero_count(s.drop_last()) + if s.last() != 0 {
            1int
        } else {
            0
        }
    }
}

/// Whether the first sector holds boot code. Hybrid images have an MBR there;
/// pure ISO9660 leaves it zeroed. A few stray bytes are tolerated: boot code is
/// dense.
pub fn is_hybrid(sector: &[u8; 512]) -> (r: bool)
    ensures
        r == (nonzero_count(sector@) > 64),
{
    let mut n: u32 = 0;
    let mut i: usize = 0;
    while i < 512
        invariant
            i <= 512,
            n <= i,
            n == nonzero_count(sector@.take(i as int)),
        decreases 512 - i,
    {
        proof {
            assert(sector@.take(i + 1).drop_last() =~= sector@.take(i as int));
            assert(sector@.take(i + 1).last() == sector@[i as int]);
        }
        if sector[i] != 0 {
            n += 1;
        }
        i += 1;
    }
    assert(sector@.take(512) =~= sector@);
    n > 64
}

/// The manifest of an image: its tree, and whether its first sector, where it
/// could be read, holds boot code.
pub fn probe_manifest(root: &Vec<Node>, sector: Option<&[u8; 512]>) -> (m: ImageManifest)
    ensures
        m@ == (ManifestModel {
            hybrid: match sector {
                Some(s) => nonzero_count(s@) > 64,
                None => true,
            },
            ..manifest_of(root@)
        }),
{
    let mut m: ImageManifest = scan_tree(root);
    m.hybrid = match sector {
        Some(s) => is_hybrid(s),
        None => true,
    };
    m
}

// ---- the plan ------------------------------------------------------------------

/// The plan for an image, given which tools are installed. A file that is too
/// large for FAT32 and cannot be split makes it the UEFI:NTFS layout.
pub open spec fn auto_plan(
    m: ManifestModel,
    image: Seq<char>,
    have_syslinux: bool,
    have_wimlib: bool,
    plan: FlashPlan,
) -> bool {
    if !m.is_windows {
        if !m.hybrid && m.syslinux_dir is Some && have_syslinux {
            plan matches FlashPlan::IsoExtract { image: i, scheme, syslinux_bios } && i@ == image
                && scheme == PartitionScheme::Mbr && syslinux_bios
        } else {
            plan matches FlashPlan::RawDd {
                image: i,
                verify,
                persistence_mb,
                persistence_label,
            } && i@ == image && verify && persistence_mb == 0 && persistence_label is None
        }
    } else if m.has_oversized_files && (m.has_unsplittable_files || m.oversized_wim is None
        || !have_wimlib) {
        plan matches FlashPlan::WinUefiNtfs { image: i, scheme, options } && i@ == image && scheme
            == PartitionScheme::Gpt && !options.some()
    } else {
        plan matches FlashPlan::WinFat32 { image: i, split_wim, scheme, options } && i@ == image
            && split_wim == m.has_oversized_files && scheme == PartitionScheme::Gpt
            && !options.some()
    }
}

/// Maps a manifest onto a concrete flashing plan.
pub fn choose_plan(
    m: &ImageManifest,
    image: &str,
    have_syslinux: bool,
    have_wimlib: bool,
) -> (plan: FlashPlan)
    ensures
        auto_plan(m@, image@, have_syslinux, have_wimlib, plan),
{
    if !m.is_windows {
        // Without boot code of its own a sector copy would not boot: extract
        // and install SYSLINUX, where there is a configuration to install for.
        if !m.hybrid && m.syslinux_dir.is_some() && have_syslinux {
            return FlashPlan::IsoExtract {
                image: image.to_owned(),
                scheme: PartitionScheme::Mbr,
                syslinux_bios: true,
            };
        }
        return FlashPlan::RawDd {
            image: image.to_owned(),
            verify: true,
            persistence_mb: 0,
            persistence_label: None,
        };
    }
    if m.has_oversized_files {
        if m.oversized_wim.is_some() && !m.has_unsplittable_files && have_wimlib {
            return FlashPlan::WinFat32 {
                image: image.to_owned(),
                split_wim: true,
                scheme: PartitionScheme::Gpt,
                options: Default::default(),
            };
        }
        return FlashPlan::WinUefiNtfs {
            image: image.to_owned(),
            scheme: PartitionScheme::Gpt,
            options: Default::default(),
        };
    }
    FlashPlan::WinFat32 {
        image: image.to_owned(),
        split_wim: false,
        scheme: PartitionScheme::Gpt,
        options: Default::default(),
    }
}

// ---- editions ------------------------------------------------------------------

/// `s` behind `prefix`, where it starts with it.
pub open spec fn after_prefix(s: Seq<char>, prefix: Seq<char>) -> Option<Seq<char>> {
    if starts_with(s, prefix) {
        Some(s.skip(prefix.len() as int))
    } else {
        None
    }
}

/// The index that is current behind the lines `ls`: that of the last `Index:`
/// line, if it is a number.
pub open spec fn current_index(ls: Seq<Seq<char>>) -> Option<int>
    decreases ls.len(),
{
    if ls.len() == 0 {
        None
    } else {
        match after_prefix(trim(ls.last()), "Index:"@) {
            Some(rest) => parse_number(trim(rest), u32::MAX as int),
            None => current_index(ls.drop_last()),
        }
    }
}

/// The images of an archive: each `Name:` line under a current index.
pub open spec fn wim_images(ls: Seq<Seq<char>>) -> Seq<(int, Seq<char>)>
    decreases ls.len(),
{
    if ls.len() == 0 {
        seq![]
    } else {
        let before = wim_images(ls.drop_last());
        let line = trim(ls.last());
        if after_prefix(line, "Index:"@) is Some {
            before
        } else {
            match (after_prefix(line, "Name:"@), current_index(ls.drop_last())) {
                (Some(name), Some(i)) => before.push((i, trim(name))),
                _ => before,
            }
        }
    }
}

pub open spec fn image_models(images: Seq<(u32, String)>) -> Seq<(int, Seq<char>)> {
    images.map_values(|p: (u32, String)| (p.0 as int, p.1@))
}

/// Pulls `(index, name)` pairs out of the output of `wimlib-imagex info`.
pub fn parse_wim_info(text: &str) -> (images: Vec<(u32, String)>)
    ensures
        image_models(images@) == wim_images(lines(text@)),
{
    let ls: Vec<Vec<char>> = lines_chars(&to_chars(text));
    let ghost all = ls@.map_values(|l: Vec<char>| l@);
    let index_key: Vec<char> = to_chars("Index:");
    let name_key: Vec<char> = to_chars("Name:");
    let mut images: Vec<(u32, String)> = Vec::new();
    let mut index: Option<u32> = None;
    let mut i: usize = 0;
    assert(image_models(images@) =~= wim_images(all.take(0)));
    while i < ls.len()
        invariant
            i <= ls@.len(),
            index_key@ == "Index:"@,
            name_key@ == "Name:"@,
            all == ls@.map_values(|l: Vec<char>| l@),
            match index {
                Some(n) => current_index(all.take(i as int)) == Some(n as int),
                None => current_index(all.take(i as int)) is None,
            },
            image_models(images@) == wim_images(all.take(i as int)),
        decreases ls@.len() - i,
    {
        let line: Vec<char> = trim_chars(&ls[i]);
        let ghost im0 = images@;
        proof {
            assert(all.take(i + 1).drop_last() =~= all.take(i as int));
            assert(all.take(i + 1).last() == ls@[i as int]@);
        }
        if stands_at(&line, &index_key, 0) {
            let rest: Vec<char> = slice_chars(&line, index_key.len(), line.len());
            assert(rest@ =~= line@.skip(index_key@.len() as int));
            index = match parse_chars(&trim_chars(&rest), u32::MAX as u64) {
                Some(n) => Some(n as u32),
                None => None,
            };
        } else if stands_at(&line, &name_key, 0) {
            match index {
                Some(n) => {
                    let rest: Vec<char> = slice_chars(&line, name_key.len(), line.len());
                    assert(rest@ =~= line@.skip(name_key@.len() as int));
                    let t: Vec<char> = trim_chars(&rest);
                    let name: String = from_chars(&t, 0, t.len());
                    assert(name@ =~= trim(rest@));
                    images.push((n, name));
                    assert(image_models(images@) =~= image_models(im0).push((n as int, name@)));
                },
                None => {},
            }
        }
        i += 1;
    }
    assert(all.take(i as int) =~= all);
    images
}

/// Where an image of index `n` goes: behind every image whose index is not
/// greater.
pub open spec fn index_slot(images: Seq<(int, Seq<char>)>, n: int) -> int
    decreases images.len(),
{
    if images.len() > 0 && n < images.last().0 {
        index_slot(images.drop_last(), n)
    } else {
        images.len() as int
    }
}

/// Images in order of their index; those of one index stay as they were.
pub open spec fn by_index(images: Seq<(int, Seq<char>)>) -> Seq<(int, Seq<char>)>
    decreases images.len(),
{
    if images.len() == 0 {
        seq![]
    } else {
        let front = by_index(images.drop_last());
        front.insert(index_slot(front, images.last().0), images.last())
    }
}

pub open spec fn names_of(images: Seq<(int, Seq<char>)>) -> Seq<Seq<char>> {
    images.map_values(|p: (int, Seq<char>)| p.1)
}

proof fn lemma_index_slot(images: Seq<(int, Seq<char>)>, n: int)
    ensures
        0 <= index_slot(images, n) <= images.len(),
    decreases images.len(),
{
    if images.len() > 0 && n < images.last().0 {
        lemma_index_slot(images.drop_last(), n);
    }
}

/// The names of the editions in an archive, in order of their index.
pub fn edition_names(info: &str) -> (names: Vec<String>)
    ensures
        names@.map_values(|s: String| s@) == names_of(by_index(wim_images(lines(info@)))),
{
    let images: Vec<(u32, String)> = parse_wim_info(info);
    let ghost all = image_models(images@);
    let mut keys: Vec<u32> = Vec::new();
    let mut names: Vec<String> = Vec::new();
    let mut i: usize = 0;
    let ghost mut sorted: Seq<(int, Seq<char>)> = seq![];
    assert(by_index(all.take(0)) =~= sorted);
    while i < images.len()
        invariant
            i <= images@.len(),
            all == image_models(images@),
            sorted == by_index(all.take(i as int)),
            sorted.len() == keys@.len() == names@.len(),
            forall|j: int|
                0 <= j < sorted.len() ==> (#[trigger] sorted[j]).0 == keys@[j] && sorted[j].1
                    == names@[j]@,
        decreases images@.len() - i,
    {
        let n: u32 = images[i].0;
        let name: String = images[i].1.as_str().to_owned();
        let ghost s0 = sorted;
        let mut p: usize = keys.len();
        assert(s0.take(p as int) =~= s0);
        while p > 0 && n < keys[p - 1]
            invariant
                p <= keys@.len() == s0.len(),
                forall|j: int| 0 <= j < s0.len() ==> (#[trigger] s0[j]).0 == keys@[j],
                index_slot(s0.take(p as int), n as int) == index_slot(s0, n as int),
            decreases p,
        {
            proof {
                assert(s0.take(p as int).last() == s0[p - 1]);
                assert(s0.take(p as int).drop_last() =~= s0.take(p - 1));
            }
            p -= 1;
        }
        proof {
            if p > 0 {
                assert(s0.take(p as int).last() == s0[p - 1]);
            }
            assert(all.take(i + 1).drop_last() =~= all.take(i as int));
            assert(all.take(i + 1).last() == (n as int, name@));
            sorted = s0.insert(p as int, (n as int, name@));
        }
        keys.insert(p, n);
        names.insert(p, name);
        i += 1;
    }
    proof {
        assert(all.take(i as int) =~= all);
        assert(names@.map_values(|s: String| s@) =~= names_of(sorted));
    }
    names
}

/// Sorting by index gives ascending indices and loses no image.
pub proof fn law_by_index(images: Seq<(int, Seq<char>)>)
    ensures
        by_index(images).to_multiset() == images.to_multiset(),
        forall|i: int, j: int|
            0 <= i < j < by_index(images).len() ==> (#[trigger] by_index(images)[i]).0 <= (
            #[trigger] by_index(images)[j]).0,
    decreases images.len(),
{
    if images.len() > 0 {
        let front = by_index(images.drop_last());
        let x = images.last();
        law_by_index(images.drop_last());
        lemma_index_slot(front, x.0);
        lemma_slot_bounds(front, x.0);
        let p = index_slot(front, x.0);
        let all = by_index(images);
        vstd::seq_lib::to_multiset_insert(front, p, x);
        assert(images =~= images.drop_last().push(x));
        vstd::seq_lib::to_multiset_build(images.drop_last(), x);
        assert forall|i: int, j: int| 0 <= i < j < all.len() implies (#[trigger] all[i]).0 <= (
        #[trigger] all[j]).0 by {
            let i0 = if i < p { i } else { i - 1 };
            let j0 = if j < p { j } else { j - 1 };
            if i != p && j != p {
                assert(all[i] == front[i0] && all[j] == front[j0]);
            } else if j == p {
                assert(all[i] == front[i]);
                assert(front[i].0 <= x.0);
            } else {
                assert(all[j] == front[j - 1]);
                assert(x.0 < front[j - 1].0);
            }
        }
    } else {
        assert(images =~= seq![]);
    }
}

proof fn lemma_slot_bounds(images: Seq<(int, Seq<char>)>, n: int)
    requires
        forall|i: int, j: int|
            0 <= i < j < images.len() ==> (#[trigger] images[i]).0 <= (#[trigger] images[j]).0,
    ensures
        forall|i: int| 0 <= i < index_slot(images, n) ==> (#[trigger] images[i]).0 <= n,
        forall|i: int| index_slot(images, n) <= i < images.len() ==> n < (#[trigger] images[i]).0,
    decreases images.len(),
{
    if images.len() > 0 {
        let front = images.drop_last();
        let last = images[images.len() - 1];
        if n < last.0 {
            assert forall|i: int, j: int| 0 <= i < j < front.len() implies (#[trigger] front[i]).0
                <= (#[trigger] front[j]).0 by {
                assert(front[i] == images[i] && front[j] == images[j]);
            }
            lemma_slot_bounds(front, n);
            lemma_index_slot(front, n);
            assert forall|i: int| 0 <= i < index_slot(images, n) implies (#[trigger] images[i]).0
                <= n by {
                assert(front[i] == images[i]);
            }
            assert forall|i: int| index_slot(images, n) <= i < images.len() implies n < (
            #[trigger] images[i]).0 by {
                if i < front.len() {
                    assert(front[i] == images[i]);
                }
            }
        } else {
            assert forall|i: int| 0 <= i < images.len() implies (#[trigger] images[i]).0 <= n by {
                if i < images.len() - 1 {
                    assert(images[i].0 <= images[images.len() - 1].0);
                }
            }
        }
    }
}

} // verus!
