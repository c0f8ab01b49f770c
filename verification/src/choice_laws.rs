//! What the choices of a user, in the window or on the command line, come to.

use crate::cli::{
    forced, format_words, known_kind, number_or_zero, padded, place_of, value_taken, without,
    FormatOptions, PlanOptions,
};
use crate::iso::opt_text;
use crate::path_laws::{law_path_comes_apart, law_stem, plain_dir, plain_name};
use crate::protocol::{BadBlocks, FlashPlan, PartitionScheme, WinOptions};
use crate::text::{
    dec, is_digit, is_space, law_dec_parses, law_trim, lemma_dec_shape, parse_number, upper,
    upper_char,
};
use crate::ui::{
    cluster_entries, cluster_of, comma_joined, first_word, image_name, label_chars, layered,
    plan_details, tweak_list, tweaks_text, Settings,
};
use vstd::prelude::*;
use vstd::string::*;

verus! {

// ---- the window ---------------------------------------------------------------------

/// The scheme at which the combo stands: GPT is its first entry.
pub open spec fn table_asked(index: u32) -> PartitionScheme {
    if index == 0 {
        PartitionScheme::Gpt
    } else {
        PartitionScheme::Mbr
    }
}

/// A Windows image becomes what was chosen: Windows To Go from a virtual disk
/// before Windows To Go before the other layouts; the edition, the sizes and the
/// options are those that were set.
pub proof fn law_windows_choices(base: FlashPlan, s: Settings, plan: FlashPlan)
    requires
        layered(base, s, plan),
        base is WinFat32 || base is WinUefiNtfs,
    ensures
        plan is WinToGoVhdx <==> s.wtg_vhdx,
        plan is WinToGo <==> s.wtg && !s.wtg_vhdx,
        !s.wtg && !s.wtg_vhdx ==> (plan is WinUefiNtfs <==> base is WinUefiNtfs || opt_text(s.fs)
            == Some("NTFS"@)),
        !s.wtg && !s.wtg_vhdx ==> plan is WinFat32 || plan is WinUefiNtfs,
        plan matches FlashPlan::WinToGoVhdx {
            wim_index,
            vhdx_size_mib,
            persist_mib,
            scheme,
            options,
            ..
        } ==> wim_index == s.wtg_index && vhdx_size_mib == s.vhdx_size_mib && persist_mib
            == s.wtg_storage_mib && scheme == PartitionScheme::Gpt && options == s.options,
        plan matches FlashPlan::WinToGo { wim_index, persist_mib, scheme, options, .. } ==> wim_index
            == s.wtg_index && persist_mib == s.wtg_storage_mib && scheme == PartitionScheme::Gpt
            && options == s.options,
        plan matches FlashPlan::WinFat32 { split_wim, scheme, options, .. } ==> base is WinFat32
            && split_wim == base->split_wim && scheme == table_asked(s.scheme_index) && options
            == s.options,
        plan matches FlashPlan::WinUefiNtfs { scheme, options, .. } ==> scheme == table_asked(
            s.scheme_index,
        ) && options == s.options,
{
}

/// Other images keep their plan, but for the persistence of a raw one, which is
/// what was set, under the label that the image asks for.
pub proof fn law_other_choices(base: FlashPlan, s: Settings, plan: FlashPlan)
    requires
        layered(base, s, plan),
        !(base is WinFat32 || base is WinUefiNtfs),
    ensures
        !(base is RawDd) ==> plan == base,
        base is RawDd ==> plan is RawDd && plan->RawDd_image == base->RawDd_image && plan->verify
            == base->verify && plan->persistence_mb == s.persist_mib && opt_text(
            plan->persistence_label,
        ) == opt_text(s.flavor),
{
}

proof fn lemma_entry_number(n: nat)
    requires
        n < 0x1_0000_0000,
    ensures
        first_word(dec(n)) == dec(n),
        cluster_of(dec(n)) == if crate::format::fat_cluster(n as int) {
            Some(n as int)
        } else {
            None::<int>
        },
{
    lemma_dec_shape(n);
    lemma_one_word(dec(n));
    law_dec_parses(n, u64::MAX as int);
}

proof fn lemma_one_word(s: Seq<char>)
    requires
        forall|i: int| 0 <= i < s.len() ==> #[trigger] s[i] != ' ',
    ensures
        first_word(s) == s,
    decreases s.len(),
{
    if s.len() > 0 {
        let rest = s.drop_first();
        assert forall|i: int| 0 <= i < rest.len() implies #[trigger] rest[i] != ' ' by {
            assert(rest[i] == s[i + 1]);
        }
        lemma_one_word(rest);
        assert(seq![s[0]] + rest =~= s);
    } else {
        assert(first_word(s) =~= s);
    }
}

proof fn lemma_default_entry(e: Seq<char>)
    requires
        e.len() > 0,
        e[0] == 'D',
    ensures
        cluster_of(e) is None,
{
    let w = first_word(e);
    assert(w[0] == 'D');
    assert(w.len() > 0);
    assert(!is_digit(w[0]));
}

#[verifier::rlimit(40)]
proof fn lemma_entry_texts()
    ensures
        "512"@ == dec(512),
        "1024"@ == dec(1024),
        "2048"@ == dec(2048),
        "4096"@ == dec(4096),
        "8192"@ == dec(8192),
        "16384"@ == dec(16384),
        "32768"@ == dec(32768),
        "65536"@ == dec(65536),
        "131072"@ == dec(131072),
{
    reveal_strlit("512");
    reveal_strlit("1024");
    reveal_strlit("2048");
    reveal_strlit("4096");
    reveal_strlit("8192");
    reveal_strlit("16384");
    reveal_strlit("32768");
    reveal_strlit("65536");
    reveal_strlit("131072");
    reveal_with_fuel(dec, 7);
    assert("512"@ =~= dec(512));
    assert("1024"@ =~= dec(1024));
    assert("2048"@ =~= dec(2048));
    assert("4096"@ =~= dec(4096));
    assert("8192"@ =~= dec(8192));
    assert("16384"@ =~= dec(16384));
    assert("32768"@ =~= dec(32768));
    assert("65536"@ =~= dec(65536));
    assert("131072"@ =~= dec(131072));
}

/// The size that stands at place `i` of the cluster combo; 0 for the default.
pub open spec fn cluster_at(fs: Seq<char>, i: int) -> nat {
    if i == 0 {
        0
    } else if fs == "FAT32"@ || fs == "NTFS"@ {
        if i == 1 {
            512
        } else if i == 2 {
            1024
        } else if i == 3 {
            2048
        } else if i == 4 {
            8192
        } else if i == 5 {
            16384
        } else if i == 6 {
            32768
        } else {
            65536
        }
    } else if fs == "exFAT"@ {
        if i == 1 {
            512
        } else if i == 2 {
            1024
        } else if i == 3 {
            2048
        } else if i == 4 {
            4096
        } else if i == 5 {
            32768
        } else if i == 6 {
            65536
        } else {
            131072
        }
    } else if fs == "UDF"@ {
        if i == 1 {
            512
        } else if i == 2 {
            1024
        } else if i == 3 {
            2048
        } else {
            4096
        }
    } else if i == 1 {
        1024
    } else if i == 2 {
        2048
    } else {
        4096
    }
}

/// The first entry of the cluster combo is the default; every other one is a
/// size in decimal, larger than the one in front of it, and choosing it asks for
/// that size, up to 64 KiB.
#[verifier::rlimit(40)]
pub proof fn law_cluster_combo(fs: Seq<char>, i: int)
    requires
        0 <= i < cluster_entries(fs).len(),
    ensures
        cluster_of(cluster_entries(fs)[0]) is None,
        i > 0 ==> cluster_entries(fs)[i] == dec(cluster_at(fs, i)),
        i > 0 && cluster_at(fs, i) <= 65536 ==> cluster_of(cluster_entries(fs)[i]) == Some(
            cluster_at(fs, i) as int,
        ),
        i > 0 && cluster_at(fs, i) > 65536 ==> cluster_of(cluster_entries(fs)[i]) is None,
        i > 0 ==> cluster_at(fs, i - 1) < cluster_at(fs, i),
        fs == "FAT32"@ || fs == "NTFS"@ ==> cluster_entries(fs).len() == 8,
        fs == "exFAT"@ ==> cluster_entries(fs).len() == 8,
        fs == "UDF"@ ==> cluster_entries(fs).len() == 5,
        fs != "FAT32"@ && fs != "NTFS"@ && fs != "exFAT"@ && fs != "UDF"@ ==> cluster_entries(
            fs,
        ).len() == 4,
{
    reveal_strlit("Default (4096)");
    reveal_strlit("Default (128 KB)");
    reveal_strlit("Default");
    lemma_fs_names();
    lemma_default_entry(cluster_entries(fs)[0]);
    lemma_entry_texts();
    lemma_entry_number(cluster_at(fs, i));
}

proof fn lemma_fs_names()
    ensures
        "FAT32"@ != "exFAT"@,
        "FAT32"@ != "UDF"@,
        "NTFS"@ != "exFAT"@,
        "NTFS"@ != "UDF"@,
        "exFAT"@ != "UDF"@,
{
    reveal_strlit("FAT32");
    reveal_strlit("NTFS");
    reveal_strlit("exFAT");
    reveal_strlit("UDF");
    assert("FAT32"@[0] != "exFAT"@[0]);
    assert("NTFS"@.len() != "exFAT"@.len());
    assert("NTFS"@.len() != "UDF"@.len());
    assert("FAT32"@.len() != "UDF"@.len());
    assert("exFAT"@.len() != "UDF"@.len());
}

/// Whether a character can stand in a suggested label.
pub open spec fn fits_label(c: char) -> bool {
    ||| '0' <= c <= '9'
    ||| 'a' <= c <= 'z'
    ||| 'A' <= c <= 'Z'
    ||| c == '-'
    ||| c == '_'
}

/// A suggested label takes the characters of a name in order, in upper case, up
/// to its length, and leaves out what cannot stand in it.
pub proof fn law_suggested_label(c: char, rest: Seq<char>, n: int)
    requires
        n >= 0,
    ensures
        label_chars(Seq::<char>::empty(), n) == Seq::<char>::empty(),
        label_chars(rest, 0) == Seq::<char>::empty(),
        label_chars(rest, n).len() <= n,
        !fits_label(c) ==> label_chars(seq![c] + rest, n) == label_chars(rest, n),
        fits_label(c) && n > 0 ==> label_chars(seq![c] + rest, n) == upper(seq![c]) + label_chars(
            rest,
            n - 1,
        ),
{
    let s = seq![c] + rest;
    assert(s.drop_first() =~= rest);
    assert(upper(seq![c]) =~= seq![upper_char(c)]);
    lemma_label_len(rest, n);
    if n == 0 {
        assert(label_chars(s, 0) =~= label_chars(rest, 0));
    }
}

proof fn lemma_label_len(s: Seq<char>, n: int)
    requires
        n >= 0,
    ensures
        label_chars(s, n).len() <= n,
    decreases s.len(),
{
    if s.len() > 0 && n > 0 {
        lemma_label_len(s.drop_first(), n - 1);
        lemma_label_len(s.drop_first(), n);
    }
}

/// An image is called by its file name without its extension.
pub proof fn law_image_name(dir: Seq<char>, name: Seq<char>, ext: Seq<char>)
    requires
        plain_dir(dir),
        plain_name(name + seq!['.'] + ext),
        name.len() > 0,
        !ext.contains('.'),
    ensures
        image_name(dir + seq!['/'] + (name + seq!['.'] + ext)) == name,
        image_name(seq!['/']) == "IMAGE"@,
{
    law_path_comes_apart(dir, name + seq!['.'] + ext);
    law_stem(name, ext);
    crate::path_laws::law_no_file_name(dir);
}

/// The words for the options of Windows, commas between them.
#[verifier::rlimit(40)]
pub proof fn law_options_in_words(o: WinOptions)
    ensures
        tweaks_text(o) == match (o.hw_bypass, o.no_online_account, o.no_bitlocker) {
            (false, false, false) => seq![],
            (true, false, false) => "\nUnattend: "@ + "no HW requirement checks"@,
            (false, true, false) => "\nUnattend: "@ + "local account"@,
            (false, false, true) => "\nUnattend: "@ + "BitLocker off"@,
            (true, true, false) => "\nUnattend: "@ + ("no HW requirement checks"@ + ", "@
                + "local account"@),
            (true, false, true) => "\nUnattend: "@ + ("no HW requirement checks"@ + ", "@
                + "BitLocker off"@),
            (false, true, true) => "\nUnattend: "@ + ("local account"@ + ", "@ + "BitLocker off"@),
            (true, true, true) => "\nUnattend: "@ + ("no HW requirement checks"@ + ", "@
                + "local account"@ + ", "@ + "BitLocker off"@),
        },
{
    let a = "no HW requirement checks"@;
    let b = "local account"@;
    let c = "BitLocker off"@;
    reveal_with_fuel(comma_joined, 4);
    let l = tweak_list(o);
    match (o.hw_bypass, o.no_online_account, o.no_bitlocker) {
        (false, false, false) => {},
        (true, false, false) => assert(l =~= seq![a]),
        (false, true, false) => assert(l =~= seq![b]),
        (false, false, true) => assert(l =~= seq![c]),
        (true, true, false) => {
            assert(l =~= seq![a, b]);
            assert(l.drop_last() =~= seq![a]);
        },
        (true, false, true) => {
            assert(l =~= seq![a, c]);
            assert(l.drop_last() =~= seq![a]);
        },
        (false, true, true) => {
            assert(l =~= seq![b, c]);
            assert(l.drop_last() =~= seq![b]);
        },
        (true, true, true) => {
            assert(l =~= seq![a, b, c]);
            assert(l.drop_last() =~= seq![a, b]);
            assert(seq![a, b].drop_last() =~= seq![a]);
        },
    }
}

/// What a question adds to a plan: the persistence with its label, or the
/// options of Windows.
pub proof fn law_plan_details(plan: FlashPlan, label: Seq<char>)
    ensures
        plan is RawDd && plan->persistence_mb == 0 ==> plan_details(plan, Some(label)) == Seq::<
            char,
        >::empty(),
        plan is RawDd && plan->persistence_mb > 0 && label.len() > 0 ==> plan_details(
            plan,
            Some(label),
        ) == "\nPersistence: "@ + dec(plan->persistence_mb as nat) + " MiB"@ + (" (label “"@ + label
            + "”)"@),
        plan is RawDd && plan->persistence_mb > 0 ==> plan_details(plan, None)
            == "\nPersistence: "@ + dec(plan->persistence_mb as nat) + " MiB"@,
        plan matches FlashPlan::WinFat32 { options, .. } ==> plan_details(plan, Some(label))
            == tweaks_text(options),
        plan matches FlashPlan::WinUefiNtfs { options, .. } ==> plan_details(plan, Some(label))
            == tweaks_text(options),
        plan matches FlashPlan::WinToGo { options, .. } ==> plan_details(plan, Some(label))
            == tweaks_text(options),
        plan matches FlashPlan::WinToGoVhdx { options, .. } ==> plan_details(plan, Some(label))
            == tweaks_text(options),
        plan is IsoExtract || plan is FormatDevice ==> plan_details(plan, Some(label)) == Seq::<
            char,
        >::empty(),
{
    if plan is RawDd && plan->persistence_mb > 0 {
        let head = "\nPersistence: "@ + dec(plan->persistence_mb as nat) + " MiB"@;
        assert(head + Seq::<char>::empty() =~= head);
    }
}

/// What the progress bar says: the phase, or what the job does, and how much of
/// how much where that is known.
pub proof fn law_progress_bar(done: int, total: int, verifying: bool, phase: Option<Seq<char>>)
    ensures
        ({
            let words = crate::ui::progress_words(done, total, verifying, phase);
            let what = if phase is Some {
                phase->0
            } else if verifying {
                "verifying"@
            } else {
                "writing"@
            };
            &&& total <= 0 ==> words == what
            &&& total > 0 ==> words == what + " · "@ + crate::sizes::size_text(done) + " / "@
                + crate::sizes::size_text(total)
        }),
{
}

// ---- the command line -----------------------------------------------------------------

/// Taking a flag leaves every other argument, in order, and no such flag.
pub proof fn law_flag_is_taken(args: Seq<Seq<char>>, name: Seq<char>)
    ensures
        without(args, name) == args.filter(|a: Seq<char>| a != name),
        !without(args, name).contains(name),
    decreases args.len(),
{
    reveal(Seq::filter);
    let f = |a: Seq<char>| a != name;
    if args.len() == 0 {
        assert(without(args, name) =~= args.filter(f));
    } else {
        law_flag_is_taken(args.drop_last(), name);
        let front = without(args.drop_last(), name);
        let all = without(args, name);
        if args.last() != name && all.contains(name) {
            let k = choose|k: int| 0 <= k < all.len() && all[k] == name;
            assert(front[k] == name);
        }
    }
}

/// Taking an option with its value leaves the arguments in front of it and those
/// behind the value; an option that is missing, or has nothing behind it, is left
/// alone.
pub proof fn law_value_is_taken(
    front: Seq<Seq<char>>,
    name: Seq<char>,
    value: Seq<char>,
    rest: Seq<Seq<char>>,
)
    requires
        !front.contains(name),
    ensures
        value_taken(front + seq![name, value] + rest, name) == (Some(value), front + rest),
        value_taken(front, name) == (None::<Seq<char>>, front),
        value_taken(front.push(name), name) == (None::<Seq<char>>, front.push(name)),
{
    let n = front.len() as int;
    let args = front + seq![name, value] + rest;
    lemma_not_placed(front, name);
    assert(front.push(name).drop_last() =~= front);
    assert(place_of(front.push(name), name) == Some(n));
    assert(args.take(n + 1) =~= front.push(name));
    lemma_place_kept(args, name, n + 1);
    assert(args.remove(n + 1).remove(n) =~= front + rest);
}

proof fn lemma_not_placed(args: Seq<Seq<char>>, name: Seq<char>)
    requires
        !args.contains(name),
    ensures
        place_of(args, name) is None,
    decreases args.len(),
{
    if args.len() > 0 {
        assert(args.contains(args[args.len() - 1]));
        assert forall|i: int| 0 <= i < args.drop_last().len() implies args.drop_last()[i]
            != name by {
            assert(args.contains(args[i]));
        }
        lemma_not_placed(args.drop_last(), name);
    }
}

proof fn lemma_place_kept(args: Seq<Seq<char>>, name: Seq<char>, k: int)
    requires
        0 <= k <= args.len(),
        place_of(args.take(k), name) is Some,
    ensures
        place_of(args, name) == place_of(args.take(k), name),
    decreases args.len(),
{
    if k == args.len() {
        assert(args.take(k) =~= args);
    } else {
        assert(args.drop_last().take(k) =~= args.take(k));
        lemma_place_kept(args.drop_last(), name, k);
    }
}

/// A number that an option was given is read, white space around it aside; what
/// is no number, or too large a one, counts as 0.
pub proof fn law_option_numbers(n: nat, before: Seq<char>, behind: Seq<char>, limit: int)
    requires
        forall|i: int| 0 <= i < before.len() ==> is_space(#[trigger] before[i]),
        forall|i: int| 0 <= i < behind.len() ==> is_space(#[trigger] behind[i]),
        0 <= limit,
    ensures
        n <= limit ==> number_or_zero(Some(before + dec(n) + behind), limit) == n,
        n > limit ==> number_or_zero(Some(before + dec(n) + behind), limit) == 0,
        number_or_zero(None, limit) == 0,
{
    lemma_dec_shape(n);
    law_trim(before, dec(n), behind);
    law_dec_parses(n, n as int);
    if n <= limit {
        law_dec_parses(n, limit);
    }
}

/// What a kind of plan on the command line forces.
pub proof fn law_forced_kinds(kind: Seq<char>, image: Seq<char>, o: PlanOptions, plan: FlashPlan)
    requires
        known_kind(kind),
        forced(kind, image, o, plan),
    ensures
        plan.image() == Some(image),
        plan is RawDd <==> kind == "raw"@,
        plan is WinFat32 <==> kind == "fat32"@ || kind == "fat32-split"@,
        plan is WinUefiNtfs <==> kind == "ntfs"@,
        plan is WinToGo <==> kind == "wtg"@,
        plan is WinToGoVhdx <==> kind == "wtg-vhdx"@,
        plan is IsoExtract <==> kind == "extract"@,
        plan matches FlashPlan::RawDd { verify, persistence_mb, persistence_label, .. } ==> verify
            == o.verify && persistence_mb == o.persistence_mb && persistence_label is None,
        plan matches FlashPlan::WinFat32 { split_wim, scheme, options, .. } ==> (split_wim <==> kind
            == "fat32-split"@) && scheme == PartitionScheme::Gpt && options == o.options,
        plan matches FlashPlan::WinUefiNtfs { scheme, options, .. } ==> scheme
            == PartitionScheme::Gpt && options == o.options,
        plan matches FlashPlan::WinToGo { wim_index, persist_mib, scheme, options, .. } ==> wim_index
            == o.wim_index && persist_mib == o.wtg_persist && scheme == PartitionScheme::Gpt
            && options == o.options,
        plan matches FlashPlan::WinToGoVhdx {
            wim_index,
            vhdx_size_mib,
            persist_mib,
            scheme,
            options,
            ..
        } ==> wim_index == o.wim_index && vhdx_size_mib == o.vhdx_size && persist_mib
            == o.wtg_persist && scheme == PartitionScheme::Gpt && options == o.options,
        plan matches FlashPlan::IsoExtract { scheme, syslinux_bios, .. } ==> scheme
            == PartitionScheme::Mbr && syslinux_bios,
{
    lemma_kind_names();
}

/// The kinds of plans that are known.
pub proof fn law_known_kinds(kind: Seq<char>)
    ensures
        known_kind(kind) <==> kind == "raw"@ || kind == "fat32"@ || kind == "fat32-split"@ || kind
            == "ntfs"@ || kind == "wtg"@ || kind == "wtg-vhdx"@ || kind == "extract"@,
{
}

proof fn lemma_kind_names()
    ensures
        "raw"@ != "fat32"@ && "raw"@ != "fat32-split"@ && "raw"@ != "ntfs"@ && "raw"@ != "wtg"@
            && "raw"@ != "wtg-vhdx"@ && "raw"@ != "extract"@,
        "fat32"@ != "fat32-split"@ && "fat32"@ != "ntfs"@ && "fat32"@ != "wtg"@ && "fat32"@
            != "wtg-vhdx"@ && "fat32"@ != "extract"@,
        "fat32-split"@ != "ntfs"@ && "fat32-split"@ != "wtg"@ && "fat32-split"@ != "wtg-vhdx"@
            && "fat32-split"@ != "extract"@,
        "ntfs"@ != "wtg"@ && "ntfs"@ != "wtg-vhdx"@ && "ntfs"@ != "extract"@,
        "wtg"@ != "wtg-vhdx"@ && "wtg"@ != "extract"@,
        "wtg-vhdx"@ != "extract"@,
{
    reveal_strlit("raw");
    reveal_strlit("fat32");
    reveal_strlit("fat32-split");
    reveal_strlit("ntfs");
    reveal_strlit("wtg");
    reveal_strlit("wtg-vhdx");
    reveal_strlit("extract");
    assert("raw"@[0] != "wtg"@[0]);
    assert("raw"@.len() == 3 && "fat32"@.len() == 5 && "fat32-split"@.len() == 11 && "ntfs"@.len()
        == 4 && "wtg"@.len() == 3 && "wtg-vhdx"@.len() == 8 && "extract"@.len() == 7);
}

/// What the words behind a format command mean: each changes one thing, the last
/// one wins, and without any the table is GPT and nothing else is asked for.
#[verifier::rlimit(40)]
pub proof fn law_format_words(words: Seq<Seq<char>>, n: nat)
    requires
        n <= 0xFFFF_FFFF_FFFF_FFFF,
    ensures
        format_words(seq![]) == Some(
            (FormatOptions {
                scheme: PartitionScheme::Gpt,
                cluster_bytes: None,
                bad_blocks: None,
                old_bios_align: false,
            }),
        ),
        format_words(words) matches Some(o) ==> {
            &&& format_words(words.push("gpt"@)) == Some(
                (FormatOptions { scheme: PartitionScheme::Gpt, ..o }),
            )
            &&& format_words(words.push("mbr"@)) == Some(
                (FormatOptions { scheme: PartitionScheme::Mbr, ..o }),
            )
            &&& format_words(words.push("fast"@)) == Some(
                (FormatOptions { bad_blocks: Some(BadBlocks::Fast), ..o }),
            )
            &&& format_words(words.push("thorough"@)) == Some(
                (FormatOptions { bad_blocks: Some(BadBlocks::Thorough), ..o }),
            )
            &&& format_words(words.push("align63"@)) == Some(
                (FormatOptions { old_bios_align: true, ..o }),
            )
            &&& format_words(words.push(dec(n))) == Some(
                (FormatOptions { cluster_bytes: Some(n as u64), ..o }),
            )
        },
        format_words(words) is None ==> forall|w: Seq<char>| #[trigger]
            format_words(words.push(w)) is None,
{
    reveal_strlit("gpt");
    reveal_strlit("mbr");
    reveal_strlit("fast");
    reveal_strlit("thorough");
    reveal_strlit("align63");
    assert("gpt"@[0] != "mbr"@[0]);
    assert("gpt"@.len() == 3 && "mbr"@.len() == 3 && "fast"@.len() == 4 && "thorough"@.len() == 8
        && "align63"@.len() == 7);
    assert(words.push("gpt"@).drop_last() =~= words);
    assert(words.push("mbr"@).drop_last() =~= words);
    assert(words.push("fast"@).drop_last() =~= words);
    assert(words.push("thorough"@).drop_last() =~= words);
    assert(words.push("align63"@).drop_last() =~= words);
    assert(words.push(dec(n)).drop_last() =~= words);
    lemma_dec_shape(n);
    law_dec_parses(n, u64::MAX as int);
    assert(is_digit(dec(n)[0]));
    assert forall|w: Seq<char>| format_words(words) is None implies #[trigger] format_words(
        words.push(w),
    ) is None by {
        assert(words.push(w).drop_last() =~= words);
    }
}

/// A word that is neither known nor a number is refused.
pub proof fn law_unknown_words(words: Seq<Seq<char>>, w: Seq<char>)
    requires
        w != "gpt"@ && w != "mbr"@ && w != "fast"@ && w != "thorough"@ && w != "align63"@,
        parse_number(w, 0xFFFF_FFFF_FFFF_FFFF) is None,
    ensures
        format_words(words.push(w)) is None,
{
    assert(words.push(w).drop_last() =~= words);
}

/// The line that reports progress: the percentage, three characters wide, what
/// is done of what, and the phase; the phase alone where the total is unknown.
pub proof fn law_progress_line(done: int, total: int, phase: Seq<char>, suffix: Seq<char>)
    requires
        0 <= done,
    ensures
        total <= 0 ==> crate::cli::progress_words(done, total, Some(phase), suffix) == phase
            && crate::cli::progress_words(done, total, None, suffix) == "working"@,
        total > 0 && done * 100 <= 0xFFFF_FFFF_FFFF_FFFF ==> {
            let p = (done * 100 / total) as nat;
            crate::cli::progress_words(done, total, Some(phase), suffix) == padded(p) + "%  "@ + dec(
                done as nat,
            ) + "/"@ + dec(total as nat) + " "@ + phase + suffix
        },
{
}

/// Numbers up to three digits take three characters.
pub proof fn law_padded(n: nat)
    ensures
        n < 1000 ==> padded(n).len() == 3,
        padded(n).skip(padded(n).len() - dec(n).len()) == dec(n),
        forall|i: int| 0 <= i < padded(n).len() - dec(n).len() ==> #[trigger] padded(n)[i] == ' ',
{
    reveal_strlit("  ");
    reveal_strlit(" ");
    reveal_with_fuel(dec, 4);
    assert(padded(n).skip(padded(n).len() - dec(n).len()) =~= dec(n));
}

} // verus!
