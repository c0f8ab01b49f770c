//! The headless tools: their arguments and what they print.

use crate::commands::texts;
use crate::iso::opt_text;
use crate::protocol::{BadBlocks, FlashPlan, PartitionScheme, WinOptions};
use crate::text::{
    dec, parse_chars, parse_number, parse_u64, push_dec, str_eq, to_chars, trim, trim_chars,
};
use vstd::prelude::*;
use vstd::string::*;

verus! {

// ---- arguments --------------------------------------------------------------------

/// The arguments other than `name`.
pub open spec fn without(args: Seq<Seq<char>>, name: Seq<char>) -> Seq<Seq<char>>
    decreases args.len(),
{
    if args.len() == 0 {
        seq![]
    } else if args.last() == name {
        without(args.drop_last(), name)
    } else {
        without(args.drop_last(), name).push(args.last())
    }
}

/// Takes a flag out of the arguments, wherever it stands, and says whether it
/// was there.
pub fn take_flag(args: &mut Vec<String>, name: &str) -> (hit: bool)
    ensures
        hit == texts(old(args)@).contains(name@),
        texts(final(args)@) == without(texts(old(args)@), name@),
{
    let ghost all = texts(args@);
    let mut kept: Vec<String> = Vec::new();
    let mut hit: bool = false;
    let mut i: usize = 0;
    assert(texts(kept@) =~= without(all.take(0), name@));
    while i < args.len()
        invariant
            i <= args@.len(),
            all == texts(args@),
            texts(kept@) == without(all.take(i as int), name@),
            hit == all.take(i as int).contains(name@),
        decreases args@.len() - i,
    {
        let a: &String = &args[i];
        let ghost before = all.take(i as int);
        let ghost now = all.take(i + 1);
        let ghost k0 = kept@;
        proof {
            assert(now.drop_last() =~= before);
            assert(now.last() == a@);
            if before.contains(name@) {
                let k = choose|k: int| 0 <= k < before.len() && before[k] == name@;
                assert(now[k] == name@);
            }
            if now.contains(name@) && a@ != name@ {
                let k = choose|k: int| 0 <= k < now.len() && now[k] == name@;
                assert(before[k] == name@);
            }
        }
        if str_eq(a.as_str(), name) {
            hit = true;
            assert(now[i as int] == name@);
        } else {
            kept.push(a.as_str().to_owned());
            assert(texts(kept@) =~= texts(k0).push(a@));
        }
        i += 1;
    }
    assert(all.take(i as int) =~= all);
    *args = kept;
    hit
}

/// The first place where `name` stands.
pub open spec fn place_of(args: Seq<Seq<char>>, name: Seq<char>) -> Option<int>
    decreases args.len(),
{
    if args.len() == 0 {
        None
    } else {
        match place_of(args.drop_last(), name) {
            Some(i) => Some(i),
            None => if args.last() == name {
                Some(args.len() - 1)
            } else {
                None
            },
        }
    }
}

/// The value behind the first `name`, where there is one, and the arguments
/// without the two.
pub open spec fn value_taken(args: Seq<Seq<char>>, name: Seq<char>) -> (
    Option<Seq<char>>,
    Seq<Seq<char>>,
) {
    match place_of(args, name) {
        Some(i) => if i + 1 < args.len() {
            (Some(args[i + 1]), args.remove(i + 1).remove(i))
        } else {
            (None, args)
        },
        None => (None, args),
    }
}

proof fn lemma_place_stays(args: Seq<Seq<char>>, name: Seq<char>, k: int)
    requires
        0 <= k <= args.len(),
        place_of(args.take(k), name) is Some,
    ensures
        place_of(args, name) == place_of(args.take(k), name),
    decreases args.len(),
{
    if k == args.len() {
        assert(args.take(k) =~= args);
    } else {
        assert(args.drop_last().take(k) =~= args.take(k));
        lemma_place_stays(args.drop_last(), name, k);
    }
}

fn position(args: &Vec<String>, name: &str) -> (r: Option<usize>)
    ensures
        match r {
            Some(i) => place_of(texts(args@), name@) == Some(i as int) && i < args@.len(),
            None => place_of(texts(args@), name@) is None,
        },
{
    let ghost all = texts(args@);
    let mut i: usize = 0;
    while i < args.len()
        invariant
            i <= args@.len(),
            all == texts(args@),
            place_of(all.take(i as int), name@) is None,
        decreases args@.len() - i,
    {
        proof {
            assert(all.take(i + 1).drop_last() =~= all.take(i as int));
            assert(all.take(i + 1).last() == args@[i as int]@);
        }
        if str_eq(args[i].as_str(), name) {
            proof {
                lemma_place_stays(all, name@, i + 1);
            }
            return Some(i);
        }
        i += 1;
    }
    assert(all.take(i as int) =~= all);
    None
}

/// Takes an option and the value behind it out of the arguments. An option
/// without a value stays.
pub fn take_value(args: &mut Vec<String>, name: &str) -> (r: Option<String>)
    ensures
        (opt_text(r), texts(final(args)@)) == value_taken(texts(old(args)@), name@),
{
    let ghost all = texts(args@);
    match position(args, name) {
        Some(i) => {
            if i < args.len() - 1 {
                let v: String = args.remove(i + 1);
                let _name: String = args.remove(i);
                assert(texts(args@) =~= all.remove(i + 1).remove(i as int));
                Some(v)
            } else {
                None
            }
        },
        None => None,
    }
}

/// A number, or 0 where it is none.
pub open spec fn number_or_zero(s: Option<Seq<char>>, limit: int) -> int {
    match s {
        Some(t) => match parse_number(trim(t), limit) {
            Some(n) => n,
            None => 0,
        },
        None => 0,
    }
}

/// The number that an option was given, or 0.
pub fn option_number(value: &Option<String>, limit: u64) -> (n: u64)
    ensures
        n == number_or_zero(opt_text(*value), limit as int),
        n <= limit,
{
    match value {
        Some(t) => match parse_chars(&trim_chars(&to_chars(t.as_str())), limit) {
            Some(n) => {
                proof {
                    crate::text::lemma_number_nonnegative(trim(t@), limit as int);
                }
                n
            },
            None => 0,
        },
        None => 0,
    }
}

// ---- plans ------------------------------------------------------------------------

/// The values from which a forced plan is made.
pub struct PlanOptions {
    pub verify: bool,
    pub persistence_mb: u64,
    pub wim_index: u32,
    pub wtg_persist: u64,
    pub vhdx_size: u64,
    pub options: WinOptions,
}

/// The plan that `--plan` forces; None for an unknown kind.
pub open spec fn forced(kind: Seq<char>, image: Seq<char>, o: PlanOptions, plan: FlashPlan) -> bool {
    if kind == "raw"@ {
        plan matches FlashPlan::RawDd { image: i, verify, persistence_mb, persistence_label } && i@
            == image && verify == o.verify && persistence_mb == o.persistence_mb
            && persistence_label is None
    } else if kind == "fat32"@ || kind == "fat32-split"@ {
        plan matches FlashPlan::WinFat32 { image: i, split_wim, scheme, options } && i@ == image
            && split_wim == (kind == "fat32-split"@) && scheme == PartitionScheme::Gpt && options
            == o.options
    } else if kind == "ntfs"@ {
        plan matches FlashPlan::WinUefiNtfs { image: i, scheme, options } && i@ == image && scheme
            == PartitionScheme::Gpt && options == o.options
    } else if kind == "wtg"@ {
        plan matches FlashPlan::WinToGo { image: i, wim_index, persist_mib, scheme, options } && i@
            == image && wim_index == o.wim_index && persist_mib == o.wtg_persist && scheme
            == PartitionScheme::Gpt && options == o.options
    } else if kind == "wtg-vhdx"@ {
        plan matches FlashPlan::WinToGoVhdx {
            image: i,
            wim_index,
            vhdx_size_mib,
            persist_mib,
            scheme,
            options,
        } && i@ == image && wim_index == o.wim_index && vhdx_size_mib == o.vhdx_size && persist_mib
            == o.wtg_persist && scheme == PartitionScheme::Gpt && options == o.options
    } else {
        plan matches FlashPlan::IsoExtract { image: i, scheme, syslinux_bios } && i@ == image
            && scheme == PartitionScheme::Mbr && syslinux_bios
    }
}

pub open spec fn known_kind(kind: Seq<char>) -> bool {
    kind == "raw"@ || kind == "fat32"@ || kind == "fat32-split"@ || kind == "ntfs"@ || kind
        == "wtg"@ || kind == "wtg-vhdx"@ || kind == "extract"@
}

/// The plan that `--plan` forces; an unknown kind is an error.
pub fn forced_plan(kind: &str, image: &str, o: &PlanOptions) -> (r: Result<FlashPlan, String>)
    ensures
        match r {
            Ok(plan) => known_kind(kind@) && forced(kind@, image@, *o, plan),
            Err(e) => !known_kind(kind@) && e@ == "unknown --plan '"@ + kind@
                + "' (raw|fat32|fat32-split|ntfs|wtg|wtg-vhdx|extract)"@,
        },
{
    let scheme = PartitionScheme::Gpt;
    let options = o.options;
    proof {
        reveal_strlit("fat32");
        reveal_strlit("fat32-split");
        assert("fat32"@.len() != "fat32-split"@.len());
    }
    if str_eq(kind, "raw") {
        Ok(
            FlashPlan::RawDd {
                image: image.to_owned(),
                verify: o.verify,
                persistence_mb: o.persistence_mb,
                persistence_label: None,
            },
        )
    } else if str_eq(kind, "fat32") {
        Ok(FlashPlan::WinFat32 { image: image.to_owned(), split_wim: false, scheme, options })
    } else if str_eq(kind, "fat32-split") {
        Ok(FlashPlan::WinFat32 { image: image.to_owned(), split_wim: true, scheme, options })
    } else if str_eq(kind, "ntfs") {
        Ok(FlashPlan::WinUefiNtfs { image: image.to_owned(), scheme, options })
    } else if str_eq(kind, "wtg") {
        Ok(
            FlashPlan::WinToGo {
                image: image.to_owned(),
                wim_index: o.wim_index,
                persist_mib: o.wtg_persist,
                scheme,
                options,
            },
        )
    } else if str_eq(kind, "wtg-vhdx") {
        Ok(
            FlashPlan::WinToGoVhdx {
                image: image.to_owned(),
                wim_index: o.wim_index,
                vhdx_size_mib: o.vhdx_size,
                persist_mib: o.wtg_persist,
                scheme,
                options,
            },
        )
    } else if str_eq(kind, "extract") {
        Ok(
            FlashPlan::IsoExtract {
                image: image.to_owned(),
                scheme: PartitionScheme::Mbr,
                syslinux_bios: true,
            },
        )
    } else {
        Err(
            "unknown --plan '".to_owned().concat(kind).concat(
                "' (raw|fat32|fat32-split|ntfs|wtg|wtg-vhdx|extract)",
            ),
        )
    }
}

/// The plan that was chosen for an image, with persistence on top where it is a
/// raw one, and whether persistence was asked for in vain.
pub fn with_persistence(plan: FlashPlan, persistence_mb: u64, flavor: Option<String>) -> (r: (
    FlashPlan,
    bool,
))
    ensures
        match plan {
            FlashPlan::RawDd { image, verify, .. } => r == (
                FlashPlan::RawDd { image, verify, persistence_mb, persistence_label: flavor },
                false,
            ),
            other => r == (other, persistence_mb > 0),
        },
{
    match plan {
        FlashPlan::RawDd { image, verify, persistence_mb: _, persistence_label: _ } => (
            FlashPlan::RawDd { image, verify, persistence_mb, persistence_label: flavor },
            false,
        ),
        other => (other, persistence_mb > 0),
    }
}

/// The optional arguments of the formatter.
#[derive(Debug, Clone, Copy, PartialEq, Eq, Structural)]
pub struct FormatOptions {
    pub scheme: PartitionScheme,
    pub cluster_bytes: Option<u64>,
    pub bad_blocks: Option<BadBlocks>,
    pub old_bios_align: bool,
}

/// What an argument of the formatter changes; None where it is unknown.
pub open spec fn format_word(o: FormatOptions, word: Seq<char>) -> Option<FormatOptions> {
    if word == "gpt"@ {
        Some(FormatOptions { scheme: PartitionScheme::Gpt, ..o })
    } else if word == "mbr"@ {
        Some(FormatOptions { scheme: PartitionScheme::Mbr, ..o })
    } else if word == "fast"@ {
        Some(FormatOptions { bad_blocks: Some(BadBlocks::Fast), ..o })
    } else if word == "thorough"@ {
        Some(FormatOptions { bad_blocks: Some(BadBlocks::Thorough), ..o })
    } else if word == "align63"@ {
        Some(FormatOptions { old_bios_align: true, ..o })
    } else {
        match parse_number(word, u64::MAX as int) {
            Some(n) => Some(FormatOptions { cluster_bytes: Some(n as u64), ..o }),
            None => None,
        }
    }
}

/// What the arguments of the formatter come to; later ones win.
pub open spec fn format_words(words: Seq<Seq<char>>) -> Option<FormatOptions>
    decreases words.len(),
{
    if words.len() == 0 {
        Some(
            FormatOptions {
                scheme: PartitionScheme::Gpt,
                cluster_bytes: None,
                bad_blocks: None,
                old_bios_align: false,
            },
        )
    } else {
        match format_words(words.drop_last()) {
            Some(o) => format_word(o, words.last()),
            None => None,
        }
    }
}

proof fn lemma_format_stops(words: Seq<Seq<char>>, k: int)
    requires
        0 <= k <= words.len(),
        format_words(words.take(k)) is None,
    ensures
        format_words(words) is None,
    decreases words.len(),
{
    if k == words.len() {
        assert(words.take(k) =~= words);
    } else {
        assert(words.drop_last().take(k) =~= words.take(k));
        lemma_format_stops(words.drop_last(), k);
    }
}

/// Reads the optional arguments of the formatter. An unknown one is an error,
/// which names the first of them.
pub fn format_options(words: &Vec<String>) -> (r: Result<FormatOptions, String>)
    ensures
        match r {
            Ok(o) => format_words(texts(words@)) == Some(o),
            Err(e) => format_words(texts(words@)) is None && exists|i: int|
                {
                    &&& 0 <= i < words@.len()
                    &&& format_words(texts(words@).take(i)) is Some
                    &&& format_words(texts(words@).take(i + 1)) is None
                    &&& e@ == "unknown option '"@ + (#[trigger] words@[i])@ + "'"@
                },
        },
{
    let ghost all = texts(words@);
    let mut o = FormatOptions {
        scheme: PartitionScheme::Gpt,
        cluster_bytes: None,
        bad_blocks: None,
        old_bios_align: false,
    };
    let mut i: usize = 0;
    while i < words.len()
        invariant
            i <= words@.len(),
            all == texts(words@),
            format_words(all.take(i as int)) == Some(o),
        decreases words@.len() - i,
    {
        let w: &str = words[i].as_str();
        proof {
            assert(all.take(i + 1).drop_last() =~= all.take(i as int));
            assert(all.take(i + 1).last() == w@);
        }
        if str_eq(w, "gpt") {
            o.scheme = PartitionScheme::Gpt;
        } else if str_eq(w, "mbr") {
            o.scheme = PartitionScheme::Mbr;
        } else if str_eq(w, "fast") {
            o.bad_blocks = Some(BadBlocks::Fast);
        } else if str_eq(w, "thorough") {
            o.bad_blocks = Some(BadBlocks::Thorough);
        } else if str_eq(w, "align63") {
            o.old_bios_align = true;
        } else {
            match parse_u64(w) {
                Some(n) => {
                    o.cluster_bytes = Some(n);
                },
                None => {
                    proof {
                        lemma_format_stops(all, i + 1);
                        assert(words@[i as int]@ == w@);
                    }
                    return Err("unknown option '".to_owned().concat(w).concat("'"));
                },
            }
        }
        i += 1;
    }
    assert(all.take(i as int) =~= all);
    Ok(o)
}

// ---- progress --------------------------------------------------------------------

/// `n` in decimal, with spaces in front up to three characters.
pub open spec fn padded(n: nat) -> Seq<char> {
    if n < 10 {
        "  "@ + dec(n)
    } else if n < 100 {
        " "@ + dec(n)
    } else {
        dec(n)
    }
}

/// The line that reports progress: the percentage where it can be worked out.
pub open spec fn progress_words(
    done: int,
    total: int,
    phase: Option<Seq<char>>,
    suffix: Seq<char>,
) -> Seq<char> {
    if total > 0 && done * 100 <= u64::MAX {
        padded((done * 100 / total) as nat) + "%  "@ + dec(done as nat) + "/"@ + dec(total as nat)
            + " "@ + (match phase {
            Some(p) => p,
            None => seq![],
        }) + suffix
    } else {
        match phase {
            Some(p) => p,
            None => "working"@,
        }
    }
}

pub fn progress_line(done: u64, total: u64, phase: &Option<String>, suffix: &str) -> (s: String)
    ensures
        s@ == progress_words(done as int, total as int, opt_text(*phase), suffix@),
{
    if total > 0 && done <= u64::MAX / 100 {
        let pct: u64 = done * 100 / total;
        let mut s: String = if pct < 10 {
            "  ".to_owned()
        } else if pct < 100 {
            " ".to_owned()
        } else {
            String::new()
        };
        push_dec(&mut s, pct);
        assert(s@ =~= padded(pct as nat));
        s.append("%  ");
        push_dec(&mut s, done);
        s.append("/");
        push_dec(&mut s, total);
        s.append(" ");
        match phase {
            Some(p) => s.append(p.as_str()),
            None => {},
        }
        s.append(suffix);
        assert(s@ =~= progress_words(done as int, total as int, opt_text(*phase), suffix@));
        s
    } else {
        match phase {
            Some(p) => p.as_str().to_owned(),
            None => "working".to_owned(),
        }
    }
}

} // verus!
