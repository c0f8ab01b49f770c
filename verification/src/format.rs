//! Creating filesystems and checking a device for bad blocks.

use crate::commands::{cmd, once, retried, Cmd, CmdModel, Task, TaskModel};
use crate::protocol::BadBlocks;
use crate::text::{
    dec, dec_string, find, find_chars, from_chars, lines, lines_chars, lower, parse_chars,
    parse_number, slice_chars, str_eq, to_chars, to_lower, trim_end, trim_end_chars, upper, upper_char,
};
use vstd::prelude::*;
use vstd::string::*;
use vstd::utf8::is_ascii_chars;

verus! {

/// Filesystem families.
#[derive(Debug, Clone, Copy, PartialEq, Eq, Structural)]
pub enum FsKind {
    Fat,
    Exfat,
    Ntfs,
    Udf,
    Ext,
}

/// The family of a filesystem, by its name in any case.
pub open spec fn kind_of(fs: Seq<char>) -> FsKind {
    if lower(fs) == "fat32"@ || lower(fs) == "vfat"@ {
        FsKind::Fat
    } else if lower(fs) == "exfat"@ {
        FsKind::Exfat
    } else if lower(fs) == "ntfs"@ {
        FsKind::Ntfs
    } else if lower(fs) == "udf"@ {
        FsKind::Udf
    } else {
        FsKind::Ext
    }
}

pub fn fs_kind(fs: &str) -> (k: FsKind)
    ensures
        k == kind_of(fs@),
{
    let l: String = to_lower(fs);
    if str_eq(l.as_str(), "fat32") || str_eq(l.as_str(), "vfat") {
        FsKind::Fat
    } else if str_eq(l.as_str(), "exfat") {
        FsKind::Exfat
    } else if str_eq(l.as_str(), "ntfs") {
        FsKind::Ntfs
    } else if str_eq(l.as_str(), "udf") {
        FsKind::Udf
    } else {
        FsKind::Ext
    }
}

/// The longest label of a family, in characters.
pub open spec fn label_limit(k: FsKind) -> int {
    match k {
        FsKind::Fat => 11,
        FsKind::Exfat => 15,
        FsKind::Ntfs => 32,
        FsKind::Udf => 30,
        FsKind::Ext => 16,
    }
}

/// What `str::to_uppercase` makes of a text: its Unicode upper case.
pub uninterp spec fn uppercase_of(s: Seq<char>) -> Seq<char>;

/// `str::to_uppercase`: the Unicode upper case of `s`, which depends on `s`
/// alone; of ASCII text that is its ASCII upper case. What becomes of other
/// characters is left open.
#[verifier::external_body]
pub(crate) fn to_upper(s: &str) -> (r: String)
    ensures
        r@ == uppercase_of(s@),
        is_ascii_chars(s@) ==> r@ == upper(s@),
{
    s.to_uppercase()
}

/// The first `n` characters of `s`.
pub open spec fn cut(s: Seq<char>, n: int) -> Seq<char> {
    if s.len() <= n {
        s
    } else {
        s.take(n)
    }
}

/// A label cut to what the filesystem takes.
pub fn cut_label(fs: &str, label: &str) -> (r: String)
    ensures
        r@ == cut(label@, label_limit(kind_of(fs@))),
{
    let max: usize = match fs_kind(fs) {
        FsKind::Fat => 11,
        FsKind::Exfat => 15,
        FsKind::Ntfs => 32,
        FsKind::Udf => 30,
        FsKind::Ext => 16,
    };
    let v: Vec<char> = to_chars(label);
    let n: usize = if v.len() <= max { v.len() } else { max };
    let r = from_chars(&v, 0, n);
    assert(r@ =~= cut(label@, label_limit(kind_of(fs@))));
    r
}

/// The label that a filesystem gets: in upper case, and cut to what the
/// filesystem takes.
pub open spec fn final_label(fs: Seq<char>, label: Seq<char>) -> Seq<char> {
    cut(uppercase_of(label), label_limit(kind_of(fs)))
}

/// Volume label: in upper case, length-capped per filesystem.
pub fn sanitize_label(fs: &str, label: &str) -> (r: String)
    ensures
        r@ == final_label(fs@, label@),
        r@.len() <= label_limit(kind_of(fs@)),
        is_ascii_chars(label@) ==> r@ == cut(upper(label@), label_limit(kind_of(fs@))),
{
    cut_label(fs, to_upper(label).as_str())
}

/// Whatever the text, a label is within its limit, and one that is its own upper
/// case stays as it is when a label is made of it again.
pub proof fn law_label_made_again(fs: Seq<char>, label: Seq<char>)
    ensures
        final_label(fs, label).len() <= label_limit(kind_of(fs)),
        uppercase_of(final_label(fs, label)) == final_label(fs, label) ==> final_label(
            fs,
            final_label(fs, label),
        ) == final_label(fs, label),
{
}

/// A label of ASCII text is in upper case and within its limit, and making a
/// label of it again changes nothing.
pub proof fn law_label_is_stable(fs: Seq<char>, label: Seq<char>)
    requires
        is_ascii_chars(label),
    ensures
        ({
            let n = label_limit(kind_of(fs));
            let r = cut(upper(label), n);
            &&& r.len() <= n
            &&& is_ascii_chars(r)
            &&& upper(r) == r
            &&& cut(upper(r), n) == r
        }),
{
    let n = label_limit(kind_of(fs));
    let u = upper(label);
    let r = cut(u, n);
    assert forall|i: int| 0 <= i < r.len() implies '\0' <= #[trigger] r[i] <= '\u{7f}'
        && upper(r)[i] == r[i] by {
        assert(r[i] == u[i] && u[i] == upper_char(label[i]));
    }
    assert(upper(r) =~= r);
}

/// Cluster sizes that FAT takes.
pub open spec fn fat_cluster(c: int) -> bool {
    c == 512 || c == 1024 || c == 2048 || c == 4096 || c == 8192 || c == 16384 || c == 32768 || c
        == 65536
}

/// Cluster sizes that NTFS takes: powers of two from a sector to 64 KiB.
pub open spec fn ntfs_cluster(c: int) -> bool {
    fat_cluster(c)
}

/// Block sizes that UDF takes: powers of two from a sector to 32 KiB.
pub open spec fn udf_cluster(c: int) -> bool {
    fat_cluster(c) && c <= 32768
}

/// Block sizes that ext filesystems take.
pub open spec fn ext_cluster(c: int) -> bool {
    c == 1024 || c == 2048 || c == 4096
}

/// The program for an ext filesystem: ext4 unless ext2 or ext3 is named.
pub open spec fn ext_program(fs: Seq<char>) -> Seq<char> {
    if lower(fs) == "ext2"@ {
        "mkfs.ext2"@
    } else if lower(fs) == "ext3"@ {
        "mkfs.ext3"@
    } else {
        "mkfs.ext4"@
    }
}

/// `args` with the option `flag` set to `n`, where there is an `n`.
pub open spec fn with_option(args: Seq<Seq<char>>, flag: Seq<char>, n: Option<int>) -> Seq<
    Seq<char>,
> {
    match n {
        Some(v) => args.push(flag).push(dec(v as nat)),
        None => args,
    }
}

/// The command that makes a filesystem with a finished label. A cluster size
/// that the filesystem does not take is left out.
pub open spec fn mkfs_task(
    fs: Seq<char>,
    label: Seq<char>,
    node: Seq<char>,
    cluster: Option<int>,
) -> TaskModel {
    match kind_of(fs) {
        FsKind::Fat => {
            let s = match cluster {
                Some(c) => if fat_cluster(c) {
                    Some(c / 512)
                } else {
                    None
                },
                None => None,
            };
            retried(
                cmd("mkfs.vfat"@, with_option(seq!["-F32"@, "-n"@, label], "-s"@, s).push(node)),
                "creating FAT32 filesystem"@,
            )
        },
        FsKind::Ntfs => {
            let c = match cluster {
                Some(c) => if ntfs_cluster(c) {
                    Some(c)
                } else {
                    None
                },
                None => None,
            };
            retried(
                cmd(
                    "mkfs.ntfs"@,
                    with_option(seq!["-Q"@, "-F"@, "-L"@, label], "-c"@, c).push(node),
                ),
                "creating NTFS filesystem"@,
            )
        },
        FsKind::Exfat => {
            let c = match cluster {
                Some(c) => if 512 <= c <= 131072 {
                    Some(c)
                } else {
                    None
                },
                None => None,
            };
            retried(
                cmd("mkfs.exfat"@, with_option(seq!["-n"@, label], "-c"@, c).push(node)),
                "creating exFAT filesystem"@,
            )
        },
        FsKind::Udf => {
            let b = match cluster {
                Some(c) => if udf_cluster(c) {
                    Some(c)
                } else {
                    None
                },
                None => None,
            };
            once(
                cmd("mkudffs"@, with_option(seq!["--lvid="@ + label], "-b"@, b).push(node)),
                "creating UDF filesystem (is udftools installed?)"@,
            )
        },
        FsKind::Ext => {
            let b = match cluster {
                Some(c) => if ext_cluster(c) {
                    Some(c)
                } else {
                    None
                },
                None => None,
            };
            retried(
                cmd(
                    ext_program(fs),
                    with_option(seq!["-F"@, "-L"@, label], "-b"@, b).push(node),
                ),
                "creating "@ + ext_program(fs),
            )
        },
    }
}

pub open spec fn opt_int(n: Option<u64>) -> Option<int> {
    match n {
        Some(v) => Some(v as int),
        None => None,
    }
}

fn is_fat_cluster(c: u64) -> (r: bool)
    ensures
        r == fat_cluster(c as int),
{
    c == 512 || c == 1024 || c == 2048 || c == 4096 || c == 8192 || c == 16384 || c == 32768 || c
        == 65536
}

fn arg_option(c: Cmd, flag: &str, n: Option<u64>) -> (r: Cmd)
    ensures
        r@ == (CmdModel { args: with_option(c@.args, flag@, opt_int(n)), ..c@ }),
{
    match n {
        Some(v) => c.arg(flag).arg(dec_string(v).as_str()),
        None => c,
    }
}

/// The command that makes a filesystem with a finished label.
pub fn mkfs_with_label(fs: &str, label: &str, node: &str, cluster_bytes: Option<u64>) -> (t: Task)
    ensures
        t@ == mkfs_task(fs@, label@, node@, opt_int(cluster_bytes)),
{
    match fs_kind(fs) {
        FsKind::Fat => {
            let s: Option<u64> = match cluster_bytes {
                Some(c) => if is_fat_cluster(c) {
                    Some(c / 512)
                } else {
                    None
                },
                None => None,
            };
            let c = Cmd::new("mkfs.vfat").arg("-F32").arg("-n").arg(label);
            assert(c@.args =~= seq!["-F32"@, "-n"@, label@]);
            Task::retried(arg_option(c, "-s", s).arg(node), "creating FAT32 filesystem")
        },
        FsKind::Ntfs => {
            let n: Option<u64> = match cluster_bytes {
                Some(c) => if is_fat_cluster(c) {
                    Some(c)
                } else {
                    None
                },
                None => None,
            };
            let c = Cmd::new("mkfs.ntfs").arg("-Q").arg("-F").arg("-L").arg(label);
            assert(c@.args =~= seq!["-Q"@, "-F"@, "-L"@, label@]);
            Task::retried(arg_option(c, "-c", n).arg(node), "creating NTFS filesystem")
        },
        FsKind::Exfat => {
            let n: Option<u64> = match cluster_bytes {
                Some(c) => if 512 <= c && c <= 131072 {
                    Some(c)
                } else {
                    None
                },
                None => None,
            };
            let c = Cmd::new("mkfs.exfat").arg("-n").arg(label);
            assert(c@.args =~= seq!["-n"@, label@]);
            Task::retried(arg_option(c, "-c", n).arg(node), "creating exFAT filesystem")
        },
        FsKind::Udf => {
            let lvid: String = "--lvid=".to_owned().concat(label);
            let n: Option<u64> = match cluster_bytes {
                Some(c) => if is_fat_cluster(c) && c <= 32768 {
                    Some(c)
                } else {
                    None
                },
                None => None,
            };
            let c = Cmd::new("mkudffs").arg(lvid.as_str());
            assert(c@.args =~= seq!["--lvid="@ + label@]);
            Task::once(
                arg_option(c, "-b", n).arg(node),
                "creating UDF filesystem (is udftools installed?)",
            )
        },
        FsKind::Ext => {
            let l: String = to_lower(fs);
            let program: &str = if str_eq(l.as_str(), "ext2") {
                "mkfs.ext2"
            } else if str_eq(l.as_str(), "ext3") {
                "mkfs.ext3"
            } else {
                "mkfs.ext4"
            };
            let b: Option<u64> = match cluster_bytes {
                Some(c) => if c == 1024 || c == 2048 || c == 4096 {
                    Some(c)
                } else {
                    None
                },
                None => None,
            };
            let c = Cmd::new(program).arg("-F").arg("-L").arg(label);
            assert(c@.args =~= seq!["-F"@, "-L"@, label@]);
            Task::retried(
                arg_option(c, "-b", b).arg(node),
                "creating ".to_owned().concat(program).as_str(),
            )
        },
    }
}

/// The command that creates a filesystem on `node`, honouring an optional
/// cluster size.
pub fn mkfs_any(fs: &str, label: &str, node: &str, cluster_bytes: Option<u64>) -> (t: Task)
    ensures
        t@ == mkfs_task(fs@, final_label(fs@, label@), node@, opt_int(cluster_bytes)),
{
    let l: String = sanitize_label(fs, label);
    mkfs_with_label(fs, l.as_str(), node, cluster_bytes)
}

// ---- bad blocks ------------------------------------------------------------

/// The command that scans a device in 4096-byte blocks.
pub open spec fn bad_blocks_task(dev: Seq<char>, mode: BadBlocks) -> TaskModel {
    once(
        cmd(
            "badblocks"@,
            seq![
                match mode {
                    BadBlocks::Fast => "-sv"@,
                    BadBlocks::Thorough => "-wsv"@,
                },
                "-b"@,
                "4096"@,
                dev,
            ],
        ),
        "running badblocks"@,
    )
}

/// The command of the sector scan that goes before everything else.
pub fn scan_bad_blocks(dev: &str, mode: BadBlocks) -> (t: Task)
    ensures
        t@ == bad_blocks_task(dev@, mode),
{
    let flag: &str = match mode {
        BadBlocks::Fast => "-sv",
        BadBlocks::Thorough => "-wsv",
    };
    let c = Cmd::new("badblocks").arg(flag).arg("-b").arg("4096").arg(dev);
    assert(c@.args =~= bad_blocks_task(dev@, mode).cmd.args);
    Task::once(c, "running badblocks")
}

/// Where the last word of `s` starts: behind the last space or comma.
pub open spec fn word_start(s: Seq<char>) -> int
    decreases s.len(),
{
    if s.len() == 0 || s.last() == ' ' || s.last() == ',' {
        s.len() as int
    } else {
        word_start(s.drop_last())
    }
}

pub open spec fn last_word(s: Seq<char>) -> Seq<char> {
    s.skip(word_start(s))
}

/// The number in front of `bad blocks found`, where the line has one.
pub open spec fn line_count(line: Seq<char>) -> Option<int> {
    match find(line, "bad blocks found"@) {
        Some(i) => parse_number(last_word(trim_end(line.take(i))), u64::MAX as int),
        None => None,
    }
}

/// The count in the last line that has one; 0 where none has.
pub open spec fn last_count(ls: Seq<Seq<char>>) -> int
    decreases ls.len(),
{
    if ls.len() == 0 {
        0
    } else {
        match line_count(ls.last()) {
            Some(n) => n,
            None => last_count(ls.drop_last()),
        }
    }
}

fn last_word_of(v: &Vec<char>) -> (r: Vec<char>)
    ensures
        r@ == last_word(v@),
{
    let mut k: usize = v.len();
    assert(v@.take(k as int) =~= v@);
    while k > 0 && v[k - 1] != ' ' && v[k - 1] != ','
        invariant
            k <= v@.len(),
            word_start(v@.take(k as int)) == word_start(v@),
        decreases k,
    {
        proof {
            assert(v@.take(k as int).last() == v@[k - 1]);
            assert(v@.take(k as int).drop_last() =~= v@.take(k - 1));
        }
        k -= 1;
    }
    proof {
        if k > 0 {
            assert(v@.take(k as int).last() == v@[k - 1]);
        }
        assert(v@.subrange(k as int, v@.len() as int) =~= v@.skip(k as int));
    }
    slice_chars(v, k, v.len())
}

fn line_bad_count(line: &Vec<char>) -> (r: Option<u64>)
    ensures
        match r {
            Some(n) => line_count(line@) == Some(n as int),
            None => line_count(line@) is None,
        },
{
    match find_chars(line, &to_chars("bad blocks found")) {
        Some(i) => {
            let head: Vec<char> = slice_chars(line, 0, i);
            assert(head@ =~= line@.take(i as int));
            parse_chars(&last_word_of(&trim_end_chars(&head)), u64::MAX)
        },
        None => None,
    }
}

/// The number of bad blocks that the scan's output reports.
pub fn bad_block_count(out: &str) -> (n: u64)
    ensures
        n == last_count(lines(out@)),
{
    let ls: Vec<Vec<char>> = lines_chars(&to_chars(out));
    let ghost all = ls@.map_values(|l: Vec<char>| l@);
    let mut k: usize = ls.len();
    assert(all.take(k as int) =~= all);
    while k > 0
        invariant
            k <= ls@.len(),
            all == ls@.map_values(|l: Vec<char>| l@),
            all == lines(out@),
            last_count(all.take(k as int)) == last_count(all),
        decreases k,
    {
        proof {
            assert(all.take(k as int).last() == ls@[k - 1]@);
            assert(all.take(k as int).drop_last() =~= all.take(k - 1));
        }
        match line_bad_count(&ls[k - 1]) {
            Some(n) => return n,
            None => {},
        }
        k -= 1;
    }
    0
}

} // verus!
