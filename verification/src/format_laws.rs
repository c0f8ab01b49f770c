//! What the commands that make a filesystem ask for, and what is read from a
//! sector scan.

use crate::commands::{CmdModel, TaskModel};
use crate::format::{
    bad_blocks_task, final_label, kind_of, last_count, last_word, line_count, mkfs_task,
    uppercase_of, word_start, FsKind,
};
use crate::protocol::BadBlocks;
use crate::text::{dec, find, is_space, law_dec_parses, lemma_dec_shape, lower, trim_end};
use vstd::prelude::*;
use vstd::string::*;

verus! {

/// Whether a command gives the option `flag` the value `value`, in front of its
/// last argument.
pub open spec fn gives(c: CmdModel, flag: Seq<char>, value: Seq<char>) -> bool {
    exists|i: int|
        0 <= i && i + 2 < c.args.len() && #[trigger] c.args[i] == flag && c.args[i + 1] == value
}

/// Whether a command says `flag`, in front of its last argument.
pub open spec fn says(c: CmdModel, flag: Seq<char>) -> bool {
    exists|i: int| 0 <= i && i + 1 < c.args.len() && #[trigger] c.args[i] == flag
}

/// Whether a task is tried four times, 600 ms apart: a fresh node may be held
/// for a moment.
pub open spec fn patient(t: TaskModel) -> bool {
    t.attempts == 4 && t.delay_ms == 600
}

/// Powers of two from 1 to 128.
pub open spec fn small_power(p: int) -> bool {
    p == 1 || p == 2 || p == 4 || p == 8 || p == 16 || p == 32 || p == 64 || p == 128
}

proof fn lemma_kinds(fs: Seq<char>)
    ensures
        lower(fs) == "fat32"@ || lower(fs) == "vfat"@ ==> kind_of(fs) == FsKind::Fat,
        lower(fs) == "exfat"@ ==> kind_of(fs) == FsKind::Exfat,
        lower(fs) == "ntfs"@ ==> kind_of(fs) == FsKind::Ntfs,
        lower(fs) == "udf"@ ==> kind_of(fs) == FsKind::Udf,
        lower(fs) == "ext2"@ || lower(fs) == "ext3"@ || lower(fs) == "ext4"@ ==> kind_of(fs)
            == FsKind::Ext,
{
    reveal_strlit("fat32");
    reveal_strlit("vfat");
    reveal_strlit("exfat");
    reveal_strlit("ntfs");
    reveal_strlit("udf");
    reveal_strlit("ext2");
    reveal_strlit("ext3");
    reveal_strlit("ext4");
    assert("exfat"@[0] != "fat32"@[0]);
    assert("ntfs"@[0] != "vfat"@[0]);
    assert("ext2"@ != "vfat"@ && "ext2"@ != "ntfs"@) by {
        assert("ext2"@[0] == 'e' && "vfat"@[0] == 'v' && "ntfs"@[0] == 'n');
    }
    assert("ext3"@ != "vfat"@ && "ext3"@ != "ntfs"@) by {
        assert("ext3"@[0] == 'e' && "vfat"@[0] == 'v' && "ntfs"@[0] == 'n');
    }
    assert("ext4"@ != "vfat"@ && "ext4"@ != "ntfs"@) by {
        assert("ext4"@[0] == 'e' && "vfat"@[0] == 'v' && "ntfs"@[0] == 'n');
    }
    assert("fat32"@.len() == 5 && "exfat"@.len() == 5 && "udf"@.len() == 3);
    assert("ext2"@.len() == 4 && "ext3"@.len() == 4 && "ext4"@.len() == 4);
}

/// FAT32, by either of its names in any case: `mkfs.vfat` makes it with 32-bit
/// entries, the label and, where one is asked for, as many sectors of 512 bytes
/// to a cluster as make up its size.
pub proof fn law_fat_is_made_as_asked(
    fs: Seq<char>,
    label: Seq<char>,
    node: Seq<char>,
    sectors: int,
)
    requires
        lower(fs) == "fat32"@ || lower(fs) == "vfat"@,
        small_power(sectors),
    ensures
        ({
            let t = mkfs_task(fs, label, node, Some(512 * sectors));
            let d = mkfs_task(fs, label, node, None);
            &&& t.cmd.program == "mkfs.vfat"@ && d.cmd.program == "mkfs.vfat"@
            &&& says(t.cmd, "-F32"@) && says(d.cmd, "-F32"@)
            &&& gives(t.cmd, "-n"@, label) && gives(d.cmd, "-n"@, label)
            &&& gives(t.cmd, "-s"@, dec(sectors as nat))
            &&& d.cmd.args.len() + 2 == t.cmd.args.len()
            &&& t.cmd.args.last() == node && d.cmd.args == seq!["-F32"@, "-n"@, label, node]
            &&& t.cmd.stdin is None && d.cmd.stdin is None
            &&& patient(t) && patient(d)
        }),
{
    lemma_kinds(fs);
    let t = mkfs_task(fs, label, node, Some(512 * sectors)).cmd;
    let d = mkfs_task(fs, label, node, None).cmd;
    assert(t.args[0] == "-F32"@ && d.args[0] == "-F32"@);
    assert(t.args[1] == "-n"@ && d.args[1] == "-n"@);
    assert(t.args[3] == "-s"@ && t.args[4] == dec(sectors as nat));
    assert(d.args =~= seq!["-F32"@, "-n"@, label, node]);
}

/// NTFS: `mkfs.ntfs` makes it quickly, on whatever device, with the label and a
/// cluster size that is asked for.
pub proof fn law_ntfs_is_made_as_asked(
    fs: Seq<char>,
    label: Seq<char>,
    node: Seq<char>,
    sectors: int,
)
    requires
        lower(fs) == "ntfs"@,
        small_power(sectors),
    ensures
        ({
            let t = mkfs_task(fs, label, node, Some(512 * sectors));
            let d = mkfs_task(fs, label, node, None);
            &&& t.cmd.program == "mkfs.ntfs"@ && d.cmd.program == "mkfs.ntfs"@
            &&& says(t.cmd, "-Q"@) && says(t.cmd, "-F"@)
            &&& gives(t.cmd, "-L"@, label)
            &&& gives(t.cmd, "-c"@, dec((512 * sectors) as nat))
            &&& t.cmd.args.last() == node && d.cmd.args == seq!["-Q"@, "-F"@, "-L"@, label, node]
            &&& t.cmd.args.len() == d.cmd.args.len() + 2
            &&& t.cmd.stdin is None && d.cmd.stdin is None
            &&& patient(t) && patient(d)
        }),
{
    lemma_kinds(fs);
    let t = mkfs_task(fs, label, node, Some(512 * sectors)).cmd;
    let d = mkfs_task(fs, label, node, None).cmd;
    assert(t.args[0] == "-Q"@ && t.args[1] == "-F"@ && t.args[2] == "-L"@);
    assert(t.args[4] == "-c"@);
    assert(d.args =~= seq!["-Q"@, "-F"@, "-L"@, label, node]);
}

/// exFAT: `mkfs.exfat` with the label and any cluster size from 512 bytes to
/// 128 KiB that is asked for.
pub proof fn law_exfat_is_made_as_asked(
    fs: Seq<char>,
    label: Seq<char>,
    node: Seq<char>,
    bytes: int,
)
    requires
        lower(fs) == "exfat"@,
        512 <= bytes <= 131072,
    ensures
        ({
            let t = mkfs_task(fs, label, node, Some(bytes));
            let d = mkfs_task(fs, label, node, None);
            &&& t.cmd.program == "mkfs.exfat"@ && d.cmd.program == "mkfs.exfat"@
            &&& gives(t.cmd, "-n"@, label)
            &&& gives(t.cmd, "-c"@, dec(bytes as nat))
            &&& t.cmd.args.last() == node && d.cmd.args == seq!["-n"@, label, node]
            &&& t.cmd.args.len() == d.cmd.args.len() + 2
            &&& t.cmd.stdin is None && d.cmd.stdin is None
            &&& patient(t) && patient(d)
        }),
{
    lemma_kinds(fs);
    let t = mkfs_task(fs, label, node, Some(bytes)).cmd;
    let d = mkfs_task(fs, label, node, None).cmd;
    assert(t.args[0] == "-n"@);
    assert(t.args[2] == "-c"@);
    assert(d.args =~= seq!["-n"@, label, node]);
}

/// UDF: `mkudffs` with the label as volume identifier and a block size up to
/// 32 KiB that is asked for.
pub proof fn law_udf_is_made_as_asked(
    fs: Seq<char>,
    label: Seq<char>,
    node: Seq<char>,
    sectors: int,
)
    requires
        lower(fs) == "udf"@,
        small_power(sectors),
        sectors <= 64,
    ensures
        ({
            let t = mkfs_task(fs, label, node, Some(512 * sectors));
            let d = mkfs_task(fs, label, node, None);
            &&& t.cmd.program == "mkudffs"@ && d.cmd.program == "mkudffs"@
            &&& says(t.cmd, "--lvid="@ + label)
            &&& gives(t.cmd, "-b"@, dec((512 * sectors) as nat))
            &&& t.cmd.args.last() == node && d.cmd.args == seq!["--lvid="@ + label, node]
            &&& t.cmd.args.len() == d.cmd.args.len() + 2
            &&& t.cmd.stdin is None && d.cmd.stdin is None
        }),
{
    lemma_kinds(fs);
    reveal_strlit("udf");
    reveal_strlit("ntfs");
    reveal_strlit("exfat");
    reveal_strlit("vfat");
    reveal_strlit("fat32");
    let t = mkfs_task(fs, label, node, Some(512 * sectors)).cmd;
    let d = mkfs_task(fs, label, node, None).cmd;
    assert(t.args[0] == "--lvid="@ + label);
    assert(t.args[1] == "-b"@);
    assert(d.args =~= seq!["--lvid="@ + label, node]);
}

/// ext2, ext3 and ext4: each its own program, with the label and a block size
/// of 1, 2 or 4 KiB that is asked for.
pub proof fn law_ext_is_made_as_asked(
    fs: Seq<char>,
    label: Seq<char>,
    node: Seq<char>,
    bytes: int,
)
    requires
        lower(fs) == "ext2"@ || lower(fs) == "ext3"@ || lower(fs) == "ext4"@,
        bytes == 1024 || bytes == 2048 || bytes == 4096,
    ensures
        ({
            let t = mkfs_task(fs, label, node, Some(bytes));
            let d = mkfs_task(fs, label, node, None);
            &&& t.cmd.program == "mkfs."@ + lower(fs) && d.cmd.program == t.cmd.program
            &&& says(t.cmd, "-F"@)
            &&& gives(t.cmd, "-L"@, label)
            &&& gives(t.cmd, "-b"@, dec(bytes as nat))
            &&& t.cmd.args.last() == node && d.cmd.args == seq!["-F"@, "-L"@, label, node]
            &&& t.cmd.args.len() == d.cmd.args.len() + 2
            &&& t.cmd.stdin is None && d.cmd.stdin is None
            &&& patient(t) && patient(d)
        }),
{
    lemma_kinds(fs);
    reveal_strlit("ext2");
    reveal_strlit("ext3");
    reveal_strlit("ext4");
    reveal_strlit("mkfs.");
    reveal_strlit("mkfs.ext2");
    reveal_strlit("mkfs.ext3");
    reveal_strlit("mkfs.ext4");
    assert("ext2"@[3] != "ext3"@[3] && "ext4"@[3] != "ext3"@[3] && "ext4"@[3] != "ext2"@[3]);
    assert("mkfs."@ + "ext2"@ =~= "mkfs.ext2"@);
    assert("mkfs."@ + "ext3"@ =~= "mkfs.ext3"@);
    assert("mkfs."@ + "ext4"@ =~= "mkfs.ext4"@);
    let t = mkfs_task(fs, label, node, Some(bytes)).cmd;
    let d = mkfs_task(fs, label, node, None).cmd;
    assert(t.args[0] == "-F"@ && t.args[1] == "-L"@);
    assert(t.args[3] == "-b"@);
    assert(d.args =~= seq!["-F"@, "-L"@, label, node]);
}

/// Any other name is made an ext4.
pub proof fn law_unknown_names_are_ext4(
    fs: Seq<char>,
    label: Seq<char>,
    node: Seq<char>,
    cluster: Option<int>,
)
    requires
        lower(fs) != "fat32"@,
        lower(fs) != "vfat"@,
        lower(fs) != "exfat"@,
        lower(fs) != "ntfs"@,
        lower(fs) != "udf"@,
        lower(fs) != "ext2"@,
        lower(fs) != "ext3"@,
    ensures
        mkfs_task(fs, label, node, cluster) == mkfs_task("ext4"@, label, node, cluster),
{
    reveal_strlit("ext4");
    reveal_strlit("ext2");
    reveal_strlit("ext3");
    assert(lower("ext4"@) =~= "ext4"@);
    lemma_kinds("ext4"@);
    assert("ext4"@[3] != "ext3"@[3] && "ext4"@[3] != "ext2"@[3]);
}

/// A size that a filesystem does not take is left to its default.
pub proof fn law_odd_sizes_are_left_out(
    fs: Seq<char>,
    label: Seq<char>,
    node: Seq<char>,
    bytes: int,
)
    requires
        bytes < 512 || bytes > 131072,
    ensures
        mkfs_task(fs, label, node, Some(bytes)) == mkfs_task(fs, label, node, None),
{
}

/// Which sizes a filesystem does not take: FAT32 and NTFS take powers of two from
/// a sector to 64 KiB, exFAT any from a sector to 128 KiB, UDF powers of two to
/// 32 KiB, ext 1, 2 and 4 KiB.
#[verifier::rlimit(40)]
pub proof fn law_sizes_not_taken(fs: Seq<char>, label: Seq<char>, node: Seq<char>, bytes: int)
    requires
        ({
            let l = lower(fs);
            ||| (l == "fat32"@ || l == "vfat"@ || l == "ntfs"@) && forall|p: int| #[trigger]
                small_power(p) ==> bytes != 512 * p
            ||| l == "exfat"@ && (bytes < 512 || bytes > 131072)
            ||| l == "udf"@ && (bytes > 32768 || forall|p: int| #[trigger]
                small_power(p) ==> bytes != 512 * p)
            ||| (l == "ext2"@ || l == "ext3"@ || l == "ext4"@) && bytes != 1024 && bytes != 2048
                && bytes != 4096
        }),
    ensures
        mkfs_task(fs, label, node, Some(bytes)) == mkfs_task(fs, label, node, None),
{
    lemma_kinds(fs);
    assert(small_power(1) && small_power(2) && small_power(4) && small_power(8) && small_power(16)
        && small_power(32) && small_power(64) && small_power(128));
    reveal_strlit("udf");
    reveal_strlit("ntfs");
    reveal_strlit("exfat");
    reveal_strlit("vfat");
    reveal_strlit("fat32");
    reveal_strlit("ext2");
    reveal_strlit("ext3");
    reveal_strlit("ext4");
    assert("udf"@.len() == 3 && "ntfs"@.len() == 4 && "exfat"@.len() == 5);
}

/// What is said in front of an error of a command that makes a filesystem.
pub proof fn law_words_of_formats(fs: Seq<char>, label: Seq<char>, node: Seq<char>)
    ensures
        ({
            let t = mkfs_task(fs, label, node, None);
            let l = lower(fs);
            &&& l == "fat32"@ || l == "vfat"@ ==> t.context == "creating FAT32 filesystem"@
            &&& l == "ntfs"@ ==> t.context == "creating NTFS filesystem"@
            &&& l == "exfat"@ ==> t.context == "creating exFAT filesystem"@
            &&& l == "udf"@ ==> t.context == "creating UDF filesystem (is udftools installed?)"@
                && t.attempts == 1
            &&& l == "ext2"@ || l == "ext3"@ || l == "ext4"@ ==> t.context == "creating "@
                + t.cmd.program
        }),
{
    lemma_kinds(fs);
}

/// The label of a FAT32 volume has 11 characters at most, of an exFAT one 15, of
/// an NTFS one 32, of a UDF one 30, of any other 16; a shorter one is kept
/// whole, a longer one is cut behind its first so many.
pub proof fn law_labels_fit(fs: Seq<char>, label: Seq<char>)
    ensures
        ({
            let r = final_label(fs, label);
            let u = uppercase_of(label);
            let cap = if lower(fs) == "fat32"@ || lower(fs) == "vfat"@ {
                11int
            } else if lower(fs) == "exfat"@ {
                15
            } else if lower(fs) == "ntfs"@ {
                32
            } else if lower(fs) == "udf"@ {
                30
            } else {
                16
            };
            &&& r.len() <= cap
            &&& u.len() <= cap ==> r == u
            &&& u.len() >= cap ==> r.len() == cap
            &&& forall|i: int| 0 <= i < r.len() ==> #[trigger] r[i] == u[i]
        }),
{
}

/// The scan looks at 4096-byte blocks of the whole device; a fast one only
/// reads, a thorough one writes patterns.
pub proof fn law_scan_as_asked(dev: Seq<char>, mode: BadBlocks)
    ensures
        ({
            let t = bad_blocks_task(dev, mode);
            &&& t.cmd.program == "badblocks"@
            &&& gives(t.cmd, "-b"@, "4096"@)
            &&& t.cmd.args.last() == dev && t.cmd.args.len() == 4
            &&& mode == BadBlocks::Fast ==> t.cmd.args[0] == "-sv"@
            &&& mode == BadBlocks::Thorough ==> t.cmd.args[0] == "-wsv"@
            &&& t.attempts == 1
        }),
{
    assert(bad_blocks_task(dev, mode).cmd.args[1] == "-b"@);
}

proof fn lemma_word_after(head: Seq<char>, w: Seq<char>)
    requires
        head.len() == 0 || head.last() == ' ' || head.last() == ',',
        forall|i: int| 0 <= i < w.len() ==> (#[trigger] w[i]) != ' ' && w[i] != ',',
    ensures
        word_start(head + w) == head.len(),
    decreases w.len(),
{
    if w.len() > 0 {
        let s = head + w;
        assert(s.last() == w[w.len() - 1]);
        assert(s.drop_last() =~= head + w.drop_last());
        assert forall|i: int| 0 <= i < w.drop_last().len() implies (#[trigger] w.drop_last()[i])
            != ' ' && w.drop_last()[i] != ',' by {
            assert(w.drop_last()[i] == w[i]);
        }
        lemma_word_after(head, w.drop_last());
    } else {
        assert(head + w =~= head);
    }
}

/// A line says that there are `n` bad blocks where that number, set off by a
/// space or a comma, stands in front of `bad blocks found`.
pub proof fn law_count_is_read(line: Seq<char>, head: Seq<char>, n: nat)
    requires
        find(line, "bad blocks found"@) is Some,
        line.take(find(line, "bad blocks found"@)->0) == head + dec(n) + seq![' '],
        head.len() == 0 || head.last() == ' ' || head.last() == ',',
        n <= u64::MAX,
    ensures
        line_count(line) == Some(n as int),
{
    let i = find(line, "bad blocks found"@)->0;
    let s = head + dec(n) + seq![' '];
    lemma_dec_shape(n);
    let w = head + dec(n);
    assert(s.drop_last() =~= w);
    assert(w.last() == dec(n)[dec(n).len() - 1]);
    assert(!is_space(w.last()));
    reveal_with_fuel(trim_end, 3);
    assert(trim_end(s) == w);
    assert forall|k: int| 0 <= k < dec(n).len() implies (#[trigger] dec(n)[k]) != ' ' && dec(n)[k]
        != ',' by {}
    lemma_word_after(head, dec(n));
    assert(last_word(w) =~= dec(n));
    law_dec_parses(n, u64::MAX as int);
}

/// The count is that of the last line which has one: lines behind it that say
/// nothing of bad blocks do not matter, and neither does what stands before it.
pub proof fn law_last_count_decides(before: Seq<Seq<char>>, line: Seq<char>, behind: Seq<Seq<char>>)
    requires
        line_count(line) is Some,
        forall|i: int| 0 <= i < behind.len() ==> line_count(#[trigger] behind[i]) is None,
    ensures
        last_count(before.push(line) + behind) == line_count(line)->0,
    decreases behind.len(),
{
    let all = before.push(line) + behind;
    if behind.len() == 0 {
        assert(all =~= before.push(line));
        assert(all.last() == line);
    } else {
        let front = behind.drop_last();
        assert forall|i: int| 0 <= i < front.len() implies line_count(#[trigger] front[i]) is None by {
            assert(front[i] == behind[i]);
        }
        law_last_count_decides(before, line, front);
        assert(all.drop_last() =~= before.push(line) + front);
        assert(all.last() == behind[behind.len() - 1]);
    }
}

/// Output in which no line counts bad blocks counts as none.
pub proof fn law_silence_is_clean(ls: Seq<Seq<char>>)
    requires
        forall|i: int| 0 <= i < ls.len() ==> line_count(#[trigger] ls[i]) is None,
    ensures
        last_count(ls) == 0,
    decreases ls.len(),
{
    if ls.len() > 0 {
        let front = ls.drop_last();
        assert forall|i: int| 0 <= i < front.len() implies line_count(#[trigger] front[i]) is None by {
            assert(front[i] == ls[i]);
        }
        law_silence_is_clean(front);
        assert(line_count(ls[ls.len() - 1]) is None);
    }
}

} // verus!
