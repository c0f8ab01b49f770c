//! What the main window decides and says, apart from its widgets.

use crate::device::BlockDevice;
use crate::iso::opt_text;
use crate::paths::{file_name, path_file_name, path_stem, stem};
use crate::protocol::{BadBlocks, FlashPlan, PartitionScheme, WinOptions};
use crate::sizes::{device_size_text, fmt_size, size_text};
use crate::text::{
    dec, from_chars, is_digit, parse_chars, parse_number, push_dec, slice_chars, str_eq, to_chars,
    trim, trim_chars, upper_char,
};
use vstd::prelude::*;
use vstd::string::*;

verus! {

// ---- settings ------------------------------------------------------------------

/// What the controls are set to.
pub struct Settings {
    /// Entry of the partition-scheme combo.
    pub scheme_index: u32,
    /// Text of the file-system combo; None where nothing is selected.
    pub fs: Option<String>,
    /// Size of the persistent partition in MiB.
    pub persist_mib: u64,
    /// Persistence label of the probed image.
    pub flavor: Option<String>,
    pub options: WinOptions,
    /// Windows To Go.
    pub wtg: bool,
    /// Windows To Go from a virtual disk.
    pub wtg_vhdx: bool,
    /// Edition; 0 = first.
    pub wtg_index: u32,
    /// Storage partition of Windows To Go in MiB.
    pub wtg_storage_mib: u64,
    /// Size of the virtual disk in MiB; 0 = automatic.
    pub vhdx_size_mib: u64,
}

pub open spec fn scheme_of(index: u32) -> PartitionScheme {
    if index == 0 {
        PartitionScheme::Gpt
    } else {
        PartitionScheme::Mbr
    }
}

/// The scheme that the combo stands at.
pub fn chosen_scheme(index: u32) -> (s: PartitionScheme)
    ensures
        s == scheme_of(index),
{
    if index == 0 {
        PartitionScheme::Gpt
    } else {
        PartitionScheme::Mbr
    }
}

/// The sector scan that the combo stands at.
pub fn bad_blocks_choice(index: u32) -> (b: Option<BadBlocks>)
    ensures
        b == if index == 1 {
            Some(BadBlocks::Fast)
        } else if index == 2 {
            Some(BadBlocks::Thorough)
        } else {
            None
        },
{
    if index == 1 {
        Some(BadBlocks::Fast)
    } else if index == 2 {
        Some(BadBlocks::Thorough)
    } else {
        None
    }
}

/// The plan that is run: the detected one with the user's choices on top.
/// Windows To Go boots by UEFI only and forces GPT; NTFS chosen for a Windows
/// image makes it the UEFI:NTFS layout.
pub open spec fn layered(base: FlashPlan, s: Settings, plan: FlashPlan) -> bool {
    let scheme = scheme_of(s.scheme_index);
    let windows = base is WinFat32 || base is WinUefiNtfs;
    if windows && s.wtg_vhdx {
        plan matches FlashPlan::WinToGoVhdx {
            image,
            wim_index,
            vhdx_size_mib,
            persist_mib,
            scheme: g,
            options,
        } && base.image() == Some(image@) && wim_index == s.wtg_index && vhdx_size_mib
            == s.vhdx_size_mib && persist_mib == s.wtg_storage_mib && g == PartitionScheme::Gpt
            && options == s.options
    } else if windows && s.wtg {
        plan matches FlashPlan::WinToGo { image, wim_index, persist_mib, scheme: g, options }
            && base.image() == Some(image@) && wim_index == s.wtg_index && persist_mib
            == s.wtg_storage_mib && g == PartitionScheme::Gpt && options == s.options
    } else {
        match base {
            FlashPlan::RawDd { image, verify, .. } => plan matches FlashPlan::RawDd {
                image: i,
                verify: v,
                persistence_mb,
                persistence_label,
            } && i == image && v == verify && persistence_mb == s.persist_mib && opt_text(
                persistence_label,
            ) == opt_text(s.flavor),
            FlashPlan::WinFat32 { image, split_wim, .. } => if opt_text(s.fs) == Some("NTFS"@) {
                plan matches FlashPlan::WinUefiNtfs { image: i, scheme: c, options } && i == image
                    && c == scheme && options == s.options
            } else {
                plan matches FlashPlan::WinFat32 { image: i, split_wim: w, scheme: c, options }
                    && i == image && w == split_wim && c == scheme && options == s.options
            },
            FlashPlan::WinUefiNtfs { image, .. } => plan matches FlashPlan::WinUefiNtfs {
                image: i,
                scheme: c,
                options,
            } && i == image && c == scheme && options == s.options,
            other => plan == other,
        }
    }
}

fn copy_opt(s: &Option<String>) -> (r: Option<String>)
    ensures
        opt_text(r) == opt_text(*s),
{
    match s {
        Some(t) => Some(t.as_str().to_owned()),
        None => None,
    }
}

/// The plan that is run: the detected one with the user's choices on top.
pub fn effective_plan(base: FlashPlan, s: &Settings) -> (plan: FlashPlan)
    ensures
        layered(base, *s, plan),
{
    let scheme = chosen_scheme(s.scheme_index);
    let wants_ntfs: bool = match &s.fs {
        Some(f) => str_eq(f.as_str(), "NTFS"),
        None => false,
    };
    match base {
        FlashPlan::WinFat32 { image, split_wim, scheme: _, options: _ } => {
            if s.wtg_vhdx {
                to_go_vhdx(image, s)
            } else if s.wtg {
                to_go(image, s)
            } else if wants_ntfs {
                FlashPlan::WinUefiNtfs { image, scheme, options: s.options }
            } else {
                FlashPlan::WinFat32 { image, split_wim, scheme, options: s.options }
            }
        },
        FlashPlan::WinUefiNtfs { image, scheme: _, options: _ } => {
            if s.wtg_vhdx {
                to_go_vhdx(image, s)
            } else if s.wtg {
                to_go(image, s)
            } else {
                FlashPlan::WinUefiNtfs { image, scheme, options: s.options }
            }
        },
        FlashPlan::RawDd { image, verify, persistence_mb: _, persistence_label: _ } =>
            FlashPlan::RawDd {
            image,
            verify,
            persistence_mb: s.persist_mib,
            persistence_label: copy_opt(&s.flavor),
        },
        other => other,
    }
}

fn to_go(image: String, s: &Settings) -> (plan: FlashPlan)
    ensures
        plan == (FlashPlan::WinToGo {
            image,
            wim_index: s.wtg_index,
            persist_mib: s.wtg_storage_mib,
            scheme: PartitionScheme::Gpt,
            options: s.options,
        }),
{
    FlashPlan::WinToGo {
        image,
        wim_index: s.wtg_index,
        persist_mib: s.wtg_storage_mib,
        scheme: PartitionScheme::Gpt,
        options: s.options,
    }
}

fn to_go_vhdx(image: String, s: &Settings) -> (plan: FlashPlan)
    ensures
        plan == (FlashPlan::WinToGoVhdx {
            image,
            wim_index: s.wtg_index,
            vhdx_size_mib: s.vhdx_size_mib,
            persist_mib: s.wtg_storage_mib,
            scheme: PartitionScheme::Gpt,
            options: s.options,
        }),
{
    FlashPlan::WinToGoVhdx {
        image,
        wim_index: s.wtg_index,
        vhdx_size_mib: s.vhdx_size_mib,
        persist_mib: s.wtg_storage_mib,
        scheme: PartitionScheme::Gpt,
        options: s.options,
    }
}

/// Whatever is chosen, the plan is still for the same image, and no choice
/// makes a Windows To Go plan that would be refused for its table.
pub proof fn law_choices_keep_the_image(base: FlashPlan, s: Settings, plan: FlashPlan)
    requires
        layered(base, s, plan),
        !(base is WinToGo),
        !(base is WinToGoVhdx),
    ensures
        plan.image() == base.image(),
        plan matches FlashPlan::WinToGo { scheme, .. } ==> scheme == PartitionScheme::Gpt,
        plan matches FlashPlan::WinToGoVhdx { scheme, .. } ==> scheme == PartitionScheme::Gpt,
{
}

/// The plan without an image: the file system, FAT32 where none is selected,
/// and the label, `FERRUS` where it is blank.
pub fn format_plan(
    scheme_index: u32,
    fs: Option<&str>,
    label: &str,
    cluster_bytes: Option<u64>,
    old_bios_align: bool,
) -> (plan: FlashPlan)
    ensures
        plan matches FlashPlan::FormatDevice {
            scheme,
            fs: f,
            label: l,
            cluster_bytes: c,
            old_bios_align: o,
        } && scheme == scheme_of(scheme_index) && f@ == (match crate::text::opt_view(fs) {
            Some(t) => t,
            None => "FAT32"@,
        }) && l@ == (if trim(label@).len() == 0 {
            "FERRUS"@
        } else {
            trim(label@)
        }) && c == cluster_bytes && o == old_bios_align,
{
    let f: String = match fs {
        Some(t) => t.to_owned(),
        None => "FAT32".to_owned(),
    };
    let t: Vec<char> = trim_chars(&to_chars(label));
    let l: String = if t.len() == 0 {
        "FERRUS".to_owned()
    } else {
        from_chars(&t, 0, t.len())
    };
    proof {
        if t@.len() > 0 {
            assert(l@ =~= trim(label@));
        }
    }
    FlashPlan::FormatDevice {
        scheme: chosen_scheme(scheme_index),
        fs: f,
        label: l,
        cluster_bytes,
        old_bios_align,
    }
}

/// The edition that is picked: behind a list of `count` names the place of the
/// selected one, from 1; 0, which stands for the first, where none is selected;
/// and the number that was entered where there is no list.
pub fn edition_index(position: u32, count: usize, number: u32) -> (index: u32)
    ensures
        index == if count == 0 {
            number as int
        } else if position < count && position < u32::MAX {
            position + 1
        } else {
            0
        },
{
    if count == 0 {
        number
    } else if position < u32::MAX && (position as usize) < count {
        position + 1
    } else {
        0
    }
}

// ---- clusters ------------------------------------------------------------------

/// The entries of the cluster combo for a file system.
pub open spec fn cluster_entries(fs: Seq<char>) -> Seq<Seq<char>> {
    if fs == "FAT32"@ || fs == "NTFS"@ {
        seq![
            "Default (4096)"@,
            "512"@,
            "1024"@,
            "2048"@,
            "8192"@,
            "16384"@,
            "32768"@,
            "65536"@,
        ]
    } else if fs == "exFAT"@ {
        seq![
            "Default (128 KB)"@,
            "512"@,
            "1024"@,
            "2048"@,
            "4096"@,
            "32768"@,
            "65536"@,
            "131072"@,
        ]
    } else if fs == "UDF"@ {
        seq!["Default"@, "512"@, "1024"@, "2048"@, "4096"@]
    } else {
        seq!["Default (4096)"@, "1024"@, "2048"@, "4096"@]
    }
}

pub open spec fn str_models(v: Seq<&'static str>) -> Seq<Seq<char>> {
    v.map_values(|s: &'static str| s@)
}

pub fn cluster_options(fs: &str) -> (r: Vec<&'static str>)
    ensures
        str_models(r@) == cluster_entries(fs@),
{
    let mut r: Vec<&'static str> = Vec::new();
    if str_eq(fs, "FAT32") || str_eq(fs, "NTFS") {
        r.push("Default (4096)");
        r.push("512");
        r.push("1024");
        r.push("2048");
        r.push("8192");
        r.push("16384");
        r.push("32768");
        r.push("65536");
    } else if str_eq(fs, "exFAT") {
        r.push("Default (128 KB)");
        r.push("512");
        r.push("1024");
        r.push("2048");
        r.push("4096");
        r.push("32768");
        r.push("65536");
        r.push("131072");
    } else if str_eq(fs, "UDF") {
        r.push("Default");
        r.push("512");
        r.push("1024");
        r.push("2048");
        r.push("4096");
    } else {
        r.push("Default (4096)");
        r.push("1024");
        r.push("2048");
        r.push("4096");
    }
    assert(str_models(r@) =~= cluster_entries(fs@));
    r
}

/// What stands in front of the first space.
pub open spec fn first_word(s: Seq<char>) -> Seq<char>
    decreases s.len(),
{
    if s.len() == 0 || s[0] == ' ' {
        seq![]
    } else {
        seq![s[0]] + first_word(s.drop_first())
    }
}

/// The cluster size that an entry stands for.
pub open spec fn cluster_of(entry: Seq<char>) -> Option<int> {
    match parse_number(first_word(entry), u64::MAX as int) {
        Some(n) => if crate::format::fat_cluster(n) {
            Some(n)
        } else {
            None
        },
        None => None,
    }
}

fn first_word_of(v: &Vec<char>) -> (r: Vec<char>)
    ensures
        r@ == first_word(v@),
{
    let mut k: usize = 0;
    assert(v@.skip(0) =~= v@);
    assert(v@.take(0) + first_word(v@) =~= first_word(v@));
    while k < v.len() && v[k] != ' '
        invariant
            k <= v@.len(),
            first_word(v@) == v@.take(k as int) + first_word(v@.skip(k as int)),
        decreases v@.len() - k,
    {
        proof {
            let rest = v@.skip(k as int);
            assert(rest.drop_first() =~= v@.skip(k + 1));
            assert(v@.take(k as int) + (seq![v@[k as int]] + first_word(v@.skip(k + 1)))
                =~= v@.take(k + 1) + first_word(v@.skip(k + 1)));
        }
        k += 1;
    }
    proof {
        assert(v@.take(k as int) + Seq::<char>::empty() =~= v@.take(k as int));
        assert(v@.subrange(0, k as int) =~= v@.take(k as int));
    }
    slice_chars(v, 0, k)
}

/// The cluster size that the combo stands at; None for the default.
pub fn cluster_choice(entry: Option<&str>) -> (r: Option<u64>)
    ensures
        match (crate::text::opt_view(entry), r) {
            (Some(e), Some(n)) => cluster_of(e) == Some(n as int),
            (Some(e), None) => cluster_of(e) is None,
            (None, r) => r is None,
        },
{
    match entry {
        Some(e) => match parse_chars(&first_word_of(&to_chars(e)), u64::MAX) {
            Some(n) => if n == 512 || n == 1024 || n == 2048 || n == 4096 || n == 8192 || n == 16384
                || n == 32768 || n == 65536 {
                Some(n)
            } else {
                None
            },
            None => None,
        },
        None => None,
    }
}

// ---- what can be used ------------------------------------------------------------

/// How far the probe of an image is.
#[derive(Debug, Clone, Copy, PartialEq, Eq, Structural)]
pub enum ProbeState {
    Idle,
    Running,
    Finished,
    Failed,
}

/// What decides which controls can be used.
#[derive(Debug, Clone, Copy, PartialEq, Eq, Structural)]
pub struct Situation {
    pub busy: bool,
    pub has_devices: bool,
    /// Entry of the boot combo: 0 = not bootable, 1 = image.
    pub boot_index: u32,
    pub scheme_index: u32,
    pub has_image: bool,
    pub has_plan: bool,
    pub probe: ProbeState,
}

/// Which controls can be used.
#[derive(Debug, Clone, Copy, PartialEq, Eq, Structural)]
pub struct Usable {
    /// The controls that are locked only while a job runs.
    pub controls: bool,
    pub device_combo: bool,
    pub select_button: bool,
    pub target_combo: bool,
    pub start_button: bool,
    pub cancel_button: bool,
}

pub fn usable(s: &Situation) -> (u: Usable)
    ensures
        u.controls == !s.busy,
        u.device_combo == (!s.busy && s.has_devices),
        u.select_button == (!s.busy && s.boot_index == 1),
        u.target_combo == (!s.busy && s.scheme_index != 0),
        u.start_button == (!s.busy && s.has_devices && (s.boot_index == 0 || (s.boot_index == 1
            && s.has_image && s.probe != ProbeState::Running && s.has_plan))),
        u.cancel_button == s.busy,
{
    let probe_over: bool = match s.probe {
        ProbeState::Running => false,
        _ => true,
    };
    Usable {
        controls: !s.busy,
        device_combo: !s.busy && s.has_devices,
        select_button: !s.busy && s.boot_index == 1,
        target_combo: !s.busy && s.scheme_index != 0,
        start_button: !s.busy && s.has_devices && (s.boot_index == 0 || (s.boot_index == 1
            && s.has_image && probe_over && s.has_plan)),
        cancel_button: s.busy,
    }
}

/// Whether the persistence row and the Windows group are shown: persistence for
/// raw images of a known live flavour, the Windows switches for Windows images.
pub fn dynamic_rows(plan: Option<&FlashPlan>, has_flavor: bool) -> (r: (bool, bool))
    ensures
        r == match plan {
            Some(p) => match *p {
                FlashPlan::RawDd { .. } => (has_flavor, false),
                FlashPlan::WinFat32 { .. } => (false, true),
                FlashPlan::WinUefiNtfs { .. } => (false, true),
                _ => (false, false),
            },
            None => (false, false),
        },
{
    match plan {
        Some(p) => match p {
            FlashPlan::RawDd { .. } => (has_flavor, false),
            FlashPlan::WinFat32 { .. } => (false, true),
            FlashPlan::WinUefiNtfs { .. } => (false, true),
            _ => (false, false),
        },
        None => (false, false),
    }
}

/// Whether a device is listed: removable, on USB, or all where hard drives are
/// asked for.
pub fn is_shown(d: &BlockDevice, include_hd: bool) -> (r: bool)
    ensures
        r == (d.removable || d@.bus == Some("usb"@) || include_hd),
{
    d.removable || d.is_usb() || include_hd
}

// ---- texts ------------------------------------------------------------------------

pub open spec fn label_char(c: char) -> bool {
    is_digit(c) || ('a' <= c <= 'z') || ('A' <= c <= 'Z') || c == '-' || c == '_'
}

/// The first `n` characters of `s` that a label takes, in upper case.
pub open spec fn label_chars(s: Seq<char>, n: int) -> Seq<char>
    decreases s.len(),
{
    if s.len() == 0 || n <= 0 {
        seq![]
    } else if label_char(s[0]) {
        seq![upper_char(s[0])] + label_chars(s.drop_first(), n - 1)
    } else {
        label_chars(s.drop_first(), n)
    }
}

/// The name of an image: its file name without extension.
pub open spec fn image_name(path: Seq<char>) -> Seq<char> {
    match file_name(path) {
        Some(n) => stem(n),
        None => "IMAGE"@,
    }
}

pub fn image_title(path: &str) -> (s: String)
    ensures
        s@ == image_name(path@),
{
    match path_file_name(path) {
        Some(n) => path_stem(n.as_str()),
        None => "IMAGE".to_owned(),
    }
}

pub fn image_subtitle(path: &str, size: u64) -> (s: String)
    ensures
        s@ == path@ + " · "@ + size_text(size as int),
{
    path.to_owned().concat(" · ").concat(fmt_size(size).as_str())
}

fn upper(c: char) -> (r: char)
    requires
        label_char(c),
    ensures
        r == upper_char(c),
{
    if 'a' <= c && c <= 'z' {
        (c as u8 - 32) as char
    } else {
        c
    }
}

/// The volume label that an image suggests; empty where its name has nothing
/// that a label takes.
pub fn suggested_label(name: &str) -> (s: String)
    ensures
        s@ == label_chars(name@, 16),
{
    let v: Vec<char> = to_chars(name);
    let mut s: String = String::new();
    let mut n: usize = 0;
    let mut i: usize = 0;
    proof {
        assert(v@.skip(0) =~= v@);
        assert(s@ + label_chars(v@, 16) =~= label_chars(v@, 16));
    }
    while i < v.len() && n < 16
        invariant
            i <= v@.len(),
            n <= 16,
            label_chars(v@, 16) == s@ + label_chars(v@.skip(i as int), 16 - n),
        decreases v@.len() - i,
    {
        let c: char = v[i];
        let ghost before = s@;
        assert(v@.skip(i as int).drop_first() =~= v@.skip(i + 1));
        if ('0' <= c && c <= '9') || ('a' <= c && c <= 'z') || ('A' <= c && c <= 'Z') || c == '-'
            || c == '_' {
            s.push(upper(c));
            n += 1;
            assert(before + (seq![upper_char(c)] + label_chars(v@.skip(i + 1), 16 - n)) =~= s@
                + label_chars(v@.skip(i + 1), 16 - n));
        }
        i += 1;
    }
    assert(s@ + label_chars(v@.skip(i as int), 16 - n) =~= s@);
    s
}

/// Heading and body of the question before a stick is formatted.
pub fn format_question(dev: &BlockDevice, plan: &FlashPlan) -> (r: (String, String))
    ensures
        r.0@ == "Format "@ + dev@.devnode + " ?"@,
        r.1@ == "ALL data on "@ + dev@.devnode + " ("@ + device_size_text(dev@.size_bytes)
            + ") will be destroyed.\n\nThe stick will be partitioned and formatted as "@
            + plan.text() + " — no bootable image is written."@,
{
    let heading: String = "Format ".to_owned().concat(dev.devnode.as_str()).concat(" ?");
    let body: String = "ALL data on ".to_owned().concat(dev.devnode.as_str()).concat(" (").concat(
        dev.size_string().as_str(),
    ).concat(") will be destroyed.\n\nThe stick will be partitioned and formatted as ").concat(
        plan.describe().as_str(),
    ).concat(" — no bootable image is written.");
    (heading, body)
}

/// The words for the options that are set.
pub open spec fn tweak_list(o: WinOptions) -> Seq<Seq<char>> {
    (if o.hw_bypass {
        seq!["no HW requirement checks"@]
    } else {
        seq![]
    }) + (if o.no_online_account {
        seq!["local account"@]
    } else {
        seq![]
    }) + (if o.no_bitlocker {
        seq!["BitLocker off"@]
    } else {
        seq![]
    })
}

/// Texts with commas between them.
pub open spec fn comma_joined(s: Seq<Seq<char>>) -> Seq<char>
    decreases s.len(),
{
    if s.len() == 0 {
        seq![]
    } else if s.len() == 1 {
        s[0]
    } else {
        comma_joined(s.drop_last()) + ", "@ + s.last()
    }
}

pub open spec fn tweaks_text(o: WinOptions) -> Seq<char> {
    if o.some() {
        "\nUnattend: "@ + comma_joined(tweak_list(o))
    } else {
        seq![]
    }
}

fn push_tweaks(body: &mut String, o: &WinOptions)
    ensures
        final(body)@ == old(body)@ + tweaks_text(*o),
{
    let ghost start = body@;
    let ghost list = tweak_list(*o);
    let a = "no HW requirement checks";
    let b = "local account";
    let c = "BitLocker off";
    if !o.any() {
        assert(body@ =~= start + tweaks_text(*o));
        return;
    }
    body.append("\nUnattend: ");
    let ghost head = body@;
    let mut count: u32 = 0;
    let ghost mut done: Seq<Seq<char>> = seq![];
    assert(body@ =~= head + comma_joined(done));
    if o.hw_bypass {
        body.append(a);
        count += 1;
        proof {
            done = seq![a@];
            assert(body@ =~= head + comma_joined(done));
        }
    }
    if o.no_online_account {
        if count > 0 {
            body.append(", ");
        }
        body.append(b);
        count += 1;
        proof {
            lemma_comma_push(done, b@);
            done = done.push(b@);
            assert(body@ =~= head + comma_joined(done));
        }
    }
    if o.no_bitlocker {
        if count > 0 {
            body.append(", ");
        }
        body.append(c);
        proof {
            lemma_comma_push(done, c@);
            done = done.push(c@);
            assert(body@ =~= head + comma_joined(done));
        }
    }
    proof {
        assert(done =~= list);
        assert(body@ =~= start + tweaks_text(*o));
    }
}

proof fn lemma_comma_push(s: Seq<Seq<char>>, x: Seq<char>)
    ensures
        comma_joined(s.push(x)) == if s.len() == 0 {
            x
        } else {
            comma_joined(s) + ", "@ + x
        },
{
    assert(s.push(x).drop_last() =~= s);
}

/// What is added to the question for a plan: the persistence, or the Windows
/// options.
pub open spec fn plan_details(plan: FlashPlan, flavor: Option<Seq<char>>) -> Seq<char> {
    match plan {
        FlashPlan::RawDd { persistence_mb, .. } => if persistence_mb > 0 {
            "\nPersistence: "@ + dec(persistence_mb as nat) + " MiB"@ + (match flavor {
                Some(l) => if l.len() > 0 {
                    " (label “"@ + l + "”)"@
                } else {
                    seq![]
                },
                None => seq![],
            })
        } else {
            seq![]
        },
        FlashPlan::WinFat32 { options, .. } => tweaks_text(options),
        FlashPlan::WinUefiNtfs { options, .. } => tweaks_text(options),
        FlashPlan::WinToGo { options, .. } => tweaks_text(options),
        FlashPlan::WinToGoVhdx { options, .. } => tweaks_text(options),
        _ => seq![],
    }
}

fn push_details(body: &mut String, plan: &FlashPlan, flavor: &Option<String>)
    ensures
        final(body)@ == old(body)@ + plan_details(*plan, opt_text(*flavor)),
{
    let ghost start = body@;
    match plan {
        FlashPlan::RawDd { persistence_mb, .. } => {
            if *persistence_mb > 0 {
                body.append("\nPersistence: ");
                push_dec(body, *persistence_mb);
                body.append(" MiB");
                match flavor {
                    Some(l) => {
                        if !l.as_str().is_empty() {
                            body.append(" (label “");
                            body.append(l.as_str());
                            body.append("”)");
                        }
                    },
                    None => {},
                }
            }
        },
        FlashPlan::WinFat32 { options, .. } => push_tweaks(body, options),
        FlashPlan::WinUefiNtfs { options, .. } => push_tweaks(body, options),
        FlashPlan::WinToGo { options, .. } => push_tweaks(body, options),
        FlashPlan::WinToGoVhdx { options, .. } => push_tweaks(body, options),
        _ => {},
    }
    assert(body@ =~= start + plan_details(*plan, opt_text(*flavor)));
}

/// Heading and body of the question before a stick is erased.
pub fn erase_question(dev: &BlockDevice, image: &str, plan: &FlashPlan, flavor: &Option<String>) -> (r:
    (String, String))
    ensures
        r.0@ == "Erase "@ + dev@.devnode + " ?"@,
        r.1@ == "ALL data on "@ + dev@.devnode + " ("@ + device_size_text(dev@.size_bytes)
            + ") will be destroyed.\n\nSource image:\n"@ + image@ + "\n\nLayout: "@ + plan.text()
            + plan_details(*plan, opt_text(*flavor)),
{
    let heading: String = "Erase ".to_owned().concat(dev.devnode.as_str()).concat(" ?");
    let mut body: String = "ALL data on ".to_owned().concat(dev.devnode.as_str()).concat(
        " (",
    ).concat(dev.size_string().as_str()).concat(") will be destroyed.\n\nSource image:\n").concat(
        image,
    ).concat("\n\nLayout: ").concat(plan.describe().as_str());
    push_details(&mut body, plan, flavor);
    (heading, body)
}

/// What the progress bar says.
pub open spec fn progress_words(
    done: int,
    total: int,
    verifying: bool,
    phase: Option<Seq<char>>,
) -> Seq<char> {
    let words = match phase {
        Some(p) => p,
        None => if verifying {
            "verifying"@
        } else {
            "writing"@
        },
    };
    if total > 0 {
        words + " · "@ + size_text(done) + " / "@ + size_text(total)
    } else {
        words
    }
}

pub fn progress_text(done: u64, total: u64, verifying: bool, phase: Option<String>) -> (s: String)
    ensures
        s@ == progress_words(done as int, total as int, verifying, opt_text(phase)),
{
    let mut s: String = match phase {
        Some(p) => p,
        None => if verifying {
            "verifying".to_owned()
        } else {
            "writing".to_owned()
        },
    };
    if total > 0 {
        s.append(" · ");
        s.append(fmt_size(done).as_str());
        s.append(" / ");
        s.append(fmt_size(total).as_str());
    }
    s
}

/// What the status line says at the end of a job.
pub fn result_text(result: &Result<String, String>) -> (s: String)
    ensures
        s@ == match result {
            Ok(m) => "Success: "@ + m@ + ". You can remove the drive."@,
            Err(e) => "Failed: "@ + e@,
        },
{
    match result {
        Ok(m) => "Success: ".to_owned().concat(m.as_str()).concat(". You can remove the drive."),
        Err(e) => "Failed: ".to_owned().concat(e.as_str()),
    }
}

/// What the status line says of a probed image.
pub fn detected_text(plan: &FlashPlan) -> (s: String)
    ensures
        s@ == "Detected: "@ + plan.text() + " — ready to flash."@,
{
    "Detected: ".to_owned().concat(plan.describe().as_str()).concat(" — ready to flash.")
}

} // verus!
