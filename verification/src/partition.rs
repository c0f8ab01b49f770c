//! Partition tables: scripts for `sfdisk`, node names, free space.

use crate::commands::{cmd, cmd_with, once, Cmd, CmdModel, Task, TaskModel};
use crate::paths::{file_name, path_file_name, path_with_file_name, with_file_name};
use crate::protocol::PartitionScheme;
use crate::text::{
    at, dec, find, find_chars, is_digit, lines, lines_chars, parse_chars, parse_number, push_dec,
    slice_chars, starts_with, starts_with_str, to_chars, trim, trim_chars, trim_start,
    trim_start_chars,
};
use vstd::prelude::*;
use vstd::string::*;

verus! {

/// GPT type of a basic data partition.
pub const MS_BASIC_DATA: &'static str = "EBD0A0A2-B9E5-4433-87C0-68B6B72699C7";

/// GPT type of a Linux filesystem.
pub const LINUX_FS_DATA: &'static str = "0FC63DAF-8483-4772-8E79-3D69D8477DE4";

/// Size of the uefi:ntfs boot partition: 16 MiB.
pub const UEFI_NTFS_PART_SECTORS: u64 = 32_768;

/// Size of the EFI system partition of Windows To Go: 512 MiB.
pub const ESP_SECTORS: u64 = 1_048_576;

/// A partition to create.
#[derive(Debug, Clone, PartialEq, Eq)]
pub struct PartSpec {
    pub name: String,
    /// Size in 512-byte sectors; None = fill the remaining space.
    pub size_sectors: Option<u64>,
    /// GPT type GUID.
    pub gpt_type: &'static str,
    /// MBR type byte in hexadecimal.
    pub mbr_type: &'static str,
    /// MBR only: set the active flag.
    pub mbr_boot: bool,
    /// MBR only: start at this sector.
    pub mbr_start: Option<u64>,
}

pub struct PartModel {
    pub name: Seq<char>,
    pub size: Option<u64>,
    pub gpt_type: Seq<char>,
    pub mbr_type: Seq<char>,
    pub boot: bool,
    pub start: Option<u64>,
}

impl PartSpec {
    pub open spec fn view(self) -> PartModel {
        PartModel {
            name: self.name@,
            size: self.size_sectors,
            gpt_type: self.gpt_type@,
            mbr_type: self.mbr_type@,
            boot: self.mbr_boot,
            start: self.mbr_start,
        }
    }
}

/// A data partition: Linux filesystem or basic data.
pub open spec fn data_model(name: Seq<char>, size: Option<u64>, linux_fs: bool) -> PartModel {
    PartModel {
        name,
        size,
        gpt_type: if linux_fs {
            LINUX_FS_DATA@
        } else {
            MS_BASIC_DATA@
        },
        mbr_type: if linux_fs {
            "83"@
        } else {
            "07"@
        },
        boot: false,
        start: None,
    }
}

pub fn data_part(name: &str, size_sectors: Option<u64>, linux_fs: bool) -> (p: PartSpec)
    ensures
        p@ == data_model(name@, size_sectors, linux_fs),
{
    PartSpec {
        name: name.to_owned(),
        size_sectors,
        gpt_type: if linux_fs { LINUX_FS_DATA } else { MS_BASIC_DATA },
        mbr_type: if linux_fs { "83" } else { "07" },
        mbr_boot: false,
        mbr_start: None,
    }
}

pub open spec fn part_models(parts: Seq<PartSpec>) -> Seq<PartModel> {
    parts.map_values(|p: PartSpec| p@)
}

/// The line of a script for a GPT partition.
pub open spec fn gpt_line(p: PartModel) -> Seq<char> {
    "name=\""@ + p.name + "\""@ + (match p.size {
        Some(s) => ", size="@ + dec(s as nat),
        None => seq![],
    }) + ", type="@ + p.gpt_type + "\n"@
}

/// The line of a script for an MBR partition.
pub open spec fn mbr_line(p: PartModel) -> Seq<char> {
    (match p.start {
        Some(s) => "start="@ + dec(s as nat) + ", "@,
        None => seq![],
    }) + (match p.size {
        Some(s) => "size="@ + dec(s as nat) + ", "@,
        None => seq![],
    }) + "type="@ + p.mbr_type + (if p.boot {
        ", bootable"@
    } else {
        seq![]
    }) + "\n"@
}

/// The lines of a script.
pub open spec fn part_lines(scheme: PartitionScheme, parts: Seq<PartModel>) -> Seq<char>
    decreases parts.len(),
{
    if parts.len() == 0 {
        seq![]
    } else {
        part_lines(scheme, parts.drop_last()) + match scheme {
            PartitionScheme::Gpt => gpt_line(parts.last()),
            PartitionScheme::Mbr => mbr_line(parts.last()),
        }
    }
}

/// The script that creates a table.
pub open spec fn table_script(scheme: PartitionScheme, parts: Seq<PartModel>) -> Seq<char> {
    (match scheme {
        PartitionScheme::Gpt => "label: gpt\n"@,
        PartitionScheme::Mbr => "label: dos\n"@,
    }) + part_lines(scheme, parts)
}

/// The command that writes a fresh partition table.
pub open spec fn partition_task(
    dev: Seq<char>,
    scheme: PartitionScheme,
    parts: Seq<PartModel>,
) -> TaskModel {
    once(
        cmd_with(
            "sfdisk"@,
            seq!["-q"@, "--force"@, "--wipe=always"@, dev],
            table_script(scheme, parts),
        ),
        match scheme {
            PartitionScheme::Gpt => "writing GPT partition table"@,
            PartitionScheme::Mbr => "writing MBR partition table"@,
        },
    )
}

fn push_gpt_line(script: &mut String, p: &PartSpec)
    ensures
        final(script)@ == old(script)@ + gpt_line(p@),
{
    let ghost start = script@;
    script.append("name=\"");
    script.append(p.name.as_str());
    script.append("\"");
    match p.size_sectors {
        Some(s) => {
            script.append(", size=");
            push_dec(script, s);
        },
        None => {},
    }
    script.append(", type=");
    script.append(p.gpt_type);
    script.append("\n");
    assert(script@ =~= start + gpt_line(p@));
}

fn push_mbr_line(script: &mut String, p: &PartSpec)
    ensures
        final(script)@ == old(script)@ + mbr_line(p@),
{
    let ghost start = script@;
    match p.mbr_start {
        Some(s) => {
            script.append("start=");
            push_dec(script, s);
            script.append(", ");
        },
        None => {},
    }
    match p.size_sectors {
        Some(s) => {
            script.append("size=");
            push_dec(script, s);
            script.append(", ");
        },
        None => {},
    }
    script.append("type=");
    script.append(p.mbr_type);
    if p.mbr_boot {
        script.append(", bootable");
    }
    script.append("\n");
    assert(script@ =~= start + mbr_line(p@));
}

/// The command that writes a fresh partition table.
pub fn partition(dev: &str, scheme: PartitionScheme, parts: &Vec<PartSpec>) -> (t: Task)
    ensures
        t@ == partition_task(dev@, scheme, part_models(parts@)),
{
    let ghost models = part_models(parts@);
    let mut script: String = match scheme {
        PartitionScheme::Gpt => "label: gpt\n".to_owned(),
        PartitionScheme::Mbr => "label: dos\n".to_owned(),
    };
    let ghost head = script@;
    let mut i: usize = 0;
    assert(head + part_lines(scheme, models.take(0)) =~= head);
    while i < parts.len()
        invariant
            i <= parts@.len(),
            models == part_models(parts@),
            script@ == head + part_lines(scheme, models.take(i as int)),
        decreases parts@.len() - i,
    {
        let ghost before = script@;
        match scheme {
            PartitionScheme::Gpt => push_gpt_line(&mut script, &parts[i]),
            PartitionScheme::Mbr => push_mbr_line(&mut script, &parts[i]),
        }
        proof {
            assert(models.take(i + 1).drop_last() =~= models.take(i as int));
            assert(models.take(i + 1).last() == parts@[i as int]@);
            assert(script@ =~= head + part_lines(scheme, models.take(i + 1)));
        }
        i += 1;
    }
    assert(models.take(i as int) =~= models);
    let c = Cmd::new("sfdisk").arg("-q").arg("--force").arg("--wipe=always").arg(dev).input(script);
    assert(c@.args =~= seq!["-q"@, "--force"@, "--wipe=always"@, dev@]);
    match scheme {
        PartitionScheme::Gpt => Task::once(c, "writing GPT partition table"),
        PartitionScheme::Mbr => Task::once(c, "writing MBR partition table"),
    }
}

// ---- nodes -----------------------------------------------------------------

/// The node of partition `n`: `loop0p1` for loop devices, else `sda1`.
pub open spec fn node_of(dev: Seq<char>, n: int) -> Seq<char> {
    let name = match file_name(dev) {
        Some(f) => f,
        None => seq![],
    };
    with_file_name(
        dev,
        if starts_with(name, "loop"@) {
            name + "p"@ + dec(n as nat)
        } else {
            name + dec(n as nat)
        },
    )
}

/// Partition node naming differs for loop devices (`loop0p1`, `sda1`).
pub fn part_node(dev: &str, n: u8) -> (node: String)
    ensures
        node@ == node_of(dev@, n as int),
{
    let name: String = match path_file_name(dev) {
        Some(f) => f,
        None => String::new(),
    };
    let mut leaf: String = name.as_str().to_owned();
    if starts_with_str(name.as_str(), "loop") {
        leaf.append("p");
    }
    push_dec(&mut leaf, n as u64);
    path_with_file_name(dev, leaf.as_str())
}

pub open spec fn cmd_models(cmds: Seq<Cmd>) -> Seq<CmdModel> {
    cmds.map_values(|c: Cmd| c@)
}

/// Best-effort wipe of leftover signatures, so that the kernel's re-scan stays
/// clean.
pub fn wipe_signatures(dev: &str) -> (c: Cmd)
    ensures
        c@ == cmd("wipefs"@, seq!["-a"@, dev@]),
{
    let c = Cmd::new("wipefs").arg("-a").arg(dev);
    assert(c@.args =~= seq!["-a"@, dev@]);
    c
}

/// Flushes a device.
pub fn sync_dev(dev: &str) -> (c: Cmd)
    ensures
        c@ == cmd("sync"@, seq!["-f"@, dev@]),
{
    let c = Cmd::new("sync").arg("-f").arg(dev);
    assert(c@.args =~= seq!["-f"@, dev@]);
    c
}

/// The command that unmounts partition `n` of `dev`.
pub open spec fn release_cmd(dev: Seq<char>, n: int) -> CmdModel {
    cmd("umount"@, seq!["-l"@, node_of(dev, n)])
}

/// Best-effort unmount of the partitions 1 to 8 of `dev`.
pub fn release_partitions(dev: &str) -> (cmds: Vec<Cmd>)
    ensures
        cmd_models(cmds@) == Seq::new(8, |i: int| release_cmd(dev@, i + 1)),
{
    let mut cmds: Vec<Cmd> = Vec::new();
    let mut i: u8 = 1;
    while i <= 8
        invariant
            1 <= i <= 9,
            cmd_models(cmds@) == Seq::new((i - 1) as nat, |j: int| release_cmd(dev@, j + 1)),
        decreases 9 - i,
    {
        let ghost before = cmds@;
        let c = Cmd::new("umount").arg("-l").arg(part_node(dev, i).as_str());
        assert(c@.args =~= seq!["-l"@, node_of(dev@, i as int)]);
        cmds.push(c);
        assert(cmd_models(cmds@) =~= cmd_models(before).push(c@));
        i += 1;
        assert(cmd_models(cmds@) =~= Seq::new((i - 1) as nat, |j: int| release_cmd(dev@, j + 1)));
    }
    cmds
}

/// Delete and add the kernel's partition registrations, then let udev settle.
pub open spec fn reread_cmds(dev: Seq<char>) -> Seq<CmdModel> {
    seq![
        cmd("partx"@, seq!["-d"@, dev]),
        cmd("partx"@, seq!["-u"@, dev]),
        cmd("partx"@, seq!["-a"@, dev]),
        cmd("udevadm"@, seq!["settle"@, "--timeout=8"@]),
    ]
}

/// Best-effort commands that make the kernel re-read the partition table.
pub fn reread_partitions(dev: &str) -> (cmds: Vec<Cmd>)
    ensures
        cmd_models(cmds@) == reread_cmds(dev@),
{
    let mut cmds: Vec<Cmd> = Vec::new();
    let d = Cmd::new("partx").arg("-d").arg(dev);
    assert(d@.args =~= seq!["-d"@, dev@]);
    let u = Cmd::new("partx").arg("-u").arg(dev);
    assert(u@.args =~= seq!["-u"@, dev@]);
    let a = Cmd::new("partx").arg("-a").arg(dev);
    assert(a@.args =~= seq!["-a"@, dev@]);
    let s = Cmd::new("udevadm").arg("settle").arg("--timeout=8");
    assert(s@.args =~= seq!["settle"@, "--timeout=8"@]);
    cmds.push(d);
    cmds.push(u);
    cmds.push(a);
    cmds.push(s);
    assert(cmd_models(cmds@) =~= reread_cmds(dev@));
    cmds
}

/// What comes of a look for a node.
#[derive(Debug, Clone, Copy, PartialEq, Eq, Structural)]
pub enum NodeWait {
    Found,
    /// Look again after so many milliseconds.
    Again(u64),
    TimedOut,
}

/// Looks for a node every 100 ms until it is there or the time is over. A node
/// that is there counts also when the time is over.
pub fn wait_for_node(present: bool, expired: bool) -> (w: NodeWait)
    ensures
        w == if present {
            NodeWait::Found
        } else if expired {
            NodeWait::TimedOut
        } else {
            NodeWait::Again(100)
        },
{
    if present {
        NodeWait::Found
    } else if expired {
        NodeWait::TimedOut
    } else {
        NodeWait::Again(100)
    }
}

pub fn node_missing_text(node: &str) -> (m: String)
    ensures
        m@ == "partition node "@ + node@ + " never appeared"@,
{
    "partition node ".to_owned().concat(node).concat(" never appeared")
}

// ---- what is on a device -----------------------------------------------------

/// The command that asks for a device's size in bytes.
pub fn device_size_task(dev: &str) -> (t: Task)
    ensures
        t@ == once(cmd("blockdev"@, seq!["--getsize64"@, dev@]), "querying device size"@),
{
    let c = Cmd::new("blockdev").arg("--getsize64").arg(dev);
    assert(c@.args =~= seq!["--getsize64"@, dev@]);
    Task::once(c, "querying device size")
}

/// The size in 512-byte sectors, from the size in bytes that a command wrote.
pub fn device_sectors(out: &str) -> (r: Option<u64>)
    ensures
        match parse_number(trim(out@), u64::MAX as int) {
            Some(n) => r == Some((n / 512) as u64),
            None => r is None,
        },
{
    let t: Vec<char> = trim_chars(&to_chars(out));
    match parse_chars(&t, u64::MAX) {
        Some(n) => Some(n / 512),
        None => None,
    }
}

/// The command that dumps a partition table.
pub fn dump_task(dev: &str) -> (t: Task)
    ensures
        t@ == once(cmd("sfdisk"@, seq!["-d"@, dev@]), "reading partition table"@),
{
    let c = Cmd::new("sfdisk").arg("-d").arg(dev);
    assert(c@.args =~= seq!["-d"@, dev@]);
    Task::once(c, "reading partition table")
}

/// How many digits stand in front.
pub open spec fn digit_run(s: Seq<char>) -> int
    decreases s.len(),
{
    if s.len() > 0 && is_digit(s[0]) {
        1 + digit_run(s.drop_first())
    } else {
        0
    }
}

/// The number behind `key`, white space in between left out.
pub open spec fn number_after(s: Seq<char>, key: Seq<char>) -> Option<int> {
    match find(s, key) {
        Some(i) => {
            let rest = trim_start(s.skip(i + key.len()));
            parse_number(rest.take(digit_run(rest)), u64::MAX as int)
        },
        None => None,
    }
}

/// The extent of a partition: start and size in sectors.
pub open spec fn line_extent(line: Seq<char>) -> Option<(int, int)> {
    match find(line, ":"@) {
        Some(colon) => match (
            number_after(line, "start="@),
            number_after(line.skip(colon), "size="@),
        ) {
            (Some(a), Some(b)) => Some((a, b)),
            _ => None,
        },
        None => None,
    }
}

pub open spec fn extents(ls: Seq<Seq<char>>) -> Seq<(int, int)>
    decreases ls.len(),
{
    if ls.len() == 0 {
        seq![]
    } else {
        match line_extent(ls.last()) {
            Some(e) => extents(ls.drop_last()).push(e),
            None => extents(ls.drop_last()),
        }
    }
}

pub open spec fn says_gpt(ls: Seq<Seq<char>>) -> bool {
    exists|i: int| 0 <= i < ls.len() && starts_with(#[trigger] ls[i], "label: gpt"@)
}

proof fn lemma_digit_run(s: Seq<char>)
    ensures
        0 <= digit_run(s) <= s.len(),
    decreases s.len(),
{
    if s.len() > 0 && is_digit(s[0]) {
        lemma_digit_run(s.drop_first());
    }
}

fn leading_digits(v: &Vec<char>) -> (r: Vec<char>)
    ensures
        r@ == v@.take(digit_run(v@)),
        digit_run(v@) <= v@.len(),
{
    let mut k: usize = 0;
    assert(v@.skip(0) =~= v@);
    while k < v.len() && '0' <= v[k] && v[k] <= '9'
        invariant
            k <= v@.len(),
            digit_run(v@) == k + digit_run(v@.skip(k as int)),
        decreases v@.len() - k,
    {
        assert(v@.skip(k as int).drop_first() =~= v@.skip(k + 1));
        k += 1;
    }
    proof {
        lemma_digit_run(v@);
        assert(v@.subrange(0, k as int) =~= v@.take(k as int));
    }
    slice_chars(v, 0, k)
}

/// The number behind `key`.
fn extract_num(v: &Vec<char>, key: &str) -> (r: Option<u64>)
    ensures
        match r {
            Some(n) => number_after(v@, key@) == Some(n as int),
            None => number_after(v@, key@) is None,
        },
{
    let k: Vec<char> = to_chars(key);
    match find_chars(v, &k) {
        Some(i) => {
            assert(i + k@.len() <= v.len());
            let rest: Vec<char> = slice_chars(v, i + k.len(), v.len());
            assert(rest@ =~= v@.skip(i + key@.len()));
            let t: Vec<char> = trim_start_chars(&rest);
            parse_chars(&leading_digits(&t), u64::MAX)
        },
        None => None,
    }
}

pub open spec fn extent_models(parts: Seq<(u64, u64)>) -> Seq<(int, int)> {
    parts.map_values(|p: (u64, u64)| (p.0 as int, p.1 as int))
}

/// The table's flavour (whether it is a GPT), and start and size of every
/// partition, from a dump.
pub fn dump_partitions(out: &str) -> (r: (bool, Vec<(u64, u64)>))
    ensures
        r.0 == says_gpt(lines(out@)),
        extent_models(r.1@) == extents(lines(out@)),
{
    let ls: Vec<Vec<char>> = lines_chars(&to_chars(out));
    let ghost all = ls@.map_values(|l: Vec<char>| l@);
    let gpt: Vec<char> = to_chars("label: gpt");
    let colon_text: Vec<char> = to_chars(":");
    let mut is_gpt: bool = false;
    let mut parts: Vec<(u64, u64)> = Vec::new();
    let mut i: usize = 0;
    assert(extent_models(parts@) =~= extents(all.take(0)));
    while i < ls.len()
        invariant
            i <= ls@.len(),
            gpt@ == "label: gpt"@,
            colon_text@ == ":"@,
            all == ls@.map_values(|l: Vec<char>| l@),
            is_gpt == says_gpt(all.take(i as int)),
            extent_models(parts@) == extents(all.take(i as int)),
        decreases ls@.len() - i,
    {
        let line: &Vec<char> = &ls[i];
        let ghost before = all.take(i as int);
        let ghost now = all.take(i + 1);
        let ghost p0 = parts@;
        proof {
            assert(now.drop_last() =~= before);
            assert(now.last() == line@);
        }
        let labelled: bool = crate::text::stands_at(line, &gpt, 0);
        proof {
            if says_gpt(before) {
                let k = choose|k: int|
                    0 <= k < before.len() && starts_with(#[trigger] before[k], "label: gpt"@);
                assert(now[k] == before[k]);
                assert(says_gpt(now));
            }
            if labelled {
                assert(starts_with(now[i as int], "label: gpt"@));
                assert(says_gpt(now));
            }
            if says_gpt(now) {
                let k = choose|k: int|
                    0 <= k < now.len() && starts_with(#[trigger] now[k], "label: gpt"@);
                if k < i {
                    assert(before[k] == now[k]);
                    assert(says_gpt(before));
                }
            }
        }
        if labelled {
            is_gpt = true;
        }
        match find_chars(line, &colon_text) {
            Some(colon) => {
                let from_colon: Vec<char> = slice_chars(line, colon, line.len());
                assert(from_colon@ =~= line@.skip(colon as int));
                let start: Option<u64> = extract_num(line, "start=");
                let size: Option<u64> = extract_num(&from_colon, "size=");
                match (start, size) {
                    (Some(a), Some(b)) => {
                        parts.push((a, b));
                        assert(extent_models(parts@) =~= extent_models(p0).push(
                            (a as int, b as int),
                        ));
                    },
                    _ => {},
                }
            },
            None => {},
        }
        i += 1;
    }
    assert(all.take(i as int) =~= all);
    (is_gpt, parts)
}

// ---- persistence ----------------------------------------------------------

#[derive(Debug, Clone, Copy, PartialEq, Eq, Structural)]
pub enum PersistError {
    NoPartitions,
    TableFull,
    NoSpace,
    TooSmall,
}

impl PersistError {
    pub open spec fn text(self) -> Seq<char> {
        match self {
            PersistError::NoPartitions => "image has no partitions; cannot add persistence"@,
            PersistError::TableFull =>
                "MBR table already has 4 primary partitions; no room for persistence"@,
            PersistError::NoSpace =>
                "not enough space left on the device for a persistence partition"@,
            PersistError::TooSmall => "requested persistence size too small for this device"@,
        }
    }

    pub fn message(&self) -> (m: String)
        ensures
            m@ == self.text(),
    {
        match self {
            PersistError::NoPartitions =>
                "image has no partitions; cannot add persistence".to_owned(),
            PersistError::TableFull =>
                "MBR table already has 4 primary partitions; no room for persistence".to_owned(),
            PersistError::NoSpace =>
                "not enough space left on the device for a persistence partition".to_owned(),
            PersistError::TooSmall =>
                "requested persistence size too small for this device".to_owned(),
        }
    }
}

/// Where the last of the partitions ends.
pub open spec fn last_end(parts: Seq<(int, int)>) -> int
    decreases parts.len(),
{
    if parts.len() == 0 {
        0
    } else {
        let e = parts.last().0 + parts.last().1;
        let rest = last_end(parts.drop_last());
        if e > rest {
            e
        } else {
            rest
        }
    }
}

/// The next multiple of 1 MiB, in sectors.
pub open spec fn align_mib(n: int) -> int {
    (n + 2047) / 2048 * 2048
}

/// The end of the usable space: a GPT keeps a copy of itself behind it.
pub open spec fn usable_end(total: int, is_gpt: bool) -> int {
    if !is_gpt {
        total
    } else if total >= 128 {
        total - 128
    } else {
        0
    }
}

/// Start and size of a persistence partition of `mib` MiB behind the others:
/// aligned to 1 MiB, clamped to the free space, at least 2 MiB.
pub open spec fn persist_extent(
    is_gpt: bool,
    parts: Seq<(int, int)>,
    total: int,
    mib: int,
) -> Result<(int, int), PersistError> {
    let start = align_mib(last_end(parts));
    let free = usable_end(total, is_gpt) - start;
    let want = if mib * 2048 < free {
        mib * 2048
    } else {
        free
    };
    if parts.len() == 0 {
        Err(PersistError::NoPartitions)
    } else if !is_gpt && parts.len() >= 4 {
        Err(PersistError::TableFull)
    } else if free <= 1 {
        Err(PersistError::NoSpace)
    } else if want < 4096 {
        Err(PersistError::TooSmall)
    } else {
        Ok((start, want))
    }
}

fn end_of(parts: &Vec<(u64, u64)>) -> (e: u128)
    ensures
        e == last_end(extent_models(parts@)),
        e <= 0x1_FFFF_FFFF_FFFF_FFFE,
{
    let ghost all = extent_models(parts@);
    let mut e: u128 = 0;
    let mut i: usize = 0;
    while i < parts.len()
        invariant
            i <= parts@.len(),
            all == extent_models(parts@),
            e == last_end(all.take(i as int)),
            e <= 0x1_FFFF_FFFF_FFFF_FFFE,
        decreases parts@.len() - i,
    {
        let p: (u64, u64) = parts[i];
        let x: u128 = p.0 as u128 + p.1 as u128;
        proof {
            assert(all.take(i + 1).drop_last() =~= all.take(i as int));
            assert(all.take(i + 1).last() == (p.0 as int, p.1 as int));
        }
        if x > e {
            e = x;
        }
        i += 1;
    }
    assert(all.take(i as int) =~= all);
    e
}

/// Places a persistence partition in the free space behind the image.
pub fn place_persistence(
    is_gpt: bool,
    parts: &Vec<(u64, u64)>,
    total: u64,
    persistence_mb: u64,
) -> (r: Result<(u64, u64), PersistError>)
    ensures
        match persist_extent(
            is_gpt,
            extent_models(parts@),
            total as int,
            persistence_mb as int,
        ) {
            Ok((a, b)) => r == Ok::<(u64, u64), PersistError>((a as u64, b as u64)) && a
                <= u64::MAX && b <= u64::MAX,
            Err(e) => r == Err::<(u64, u64), PersistError>(e),
        },
{
    if parts.len() == 0 {
        return Err(PersistError::NoPartitions);
    }
    if !is_gpt && parts.len() >= 4 {
        return Err(PersistError::TableFull);
    }
    let start: u128 = (end_of(parts) + 2047) / 2048 * 2048;
    let end: u128 = if !is_gpt {
        total as u128
    } else if total >= 128 {
        total as u128 - 128
    } else {
        0
    };
    if end <= start + 1 {
        return Err(PersistError::NoSpace);
    }
    let free: u128 = end - start;
    let asked: u128 = persistence_mb as u128 * 2048;
    let want: u128 = if asked < free { asked } else { free };
    if want < 4096 {
        return Err(PersistError::TooSmall);
    }
    Ok((start as u64, want as u64))
}

/// A persistence partition is at least 2 MiB and no larger than asked for; it
/// starts on a 1 MiB boundary, behind every other partition, and ends in the
/// usable space of the device.
pub proof fn law_persistence_fits(
    is_gpt: bool,
    parts: Seq<(int, int)>,
    total: int,
    mib: int,
    i: int,
)
    requires
        0 <= total,
        0 <= mib,
        0 <= i < parts.len(),
        persist_extent(is_gpt, parts, total, mib) is Ok,
    ensures
        ({
            let (start, size) = persist_extent(is_gpt, parts, total, mib)->Ok_0;
            &&& 4096 <= size <= mib * 2048
            &&& start % 2048 == 0
            &&& parts[i].0 + parts[i].1 <= start
            &&& start + size <= usable_end(total, is_gpt) <= total
        }),
{
    lemma_last_end(parts, i);
}

proof fn lemma_last_end(parts: Seq<(int, int)>, i: int)
    requires
        0 <= i < parts.len(),
    ensures
        parts[i].0 + parts[i].1 <= last_end(parts),
    decreases parts.len(),
{
    if i < parts.len() - 1 {
        lemma_last_end(parts.drop_last(), i);
    }
}

/// The line that appends a persistence partition.
pub open spec fn persist_script(is_gpt: bool, start: int, size: int) -> Seq<char> {
    "start="@ + dec(start as nat) + ", size="@ + dec(size as nat) + (if is_gpt {
        ", type=0FC63DAF-8483-4772-8E79-3D69D8477DE4, name=FERRUS-PERSIST\n"@
    } else {
        ", type=83\n"@
    })
}

/// The command that appends a persistence partition.
pub fn append_task(dev: &str, is_gpt: bool, start: u64, size: u64) -> (t: Task)
    ensures
        t@ == once(
            cmd_with(
                "sfdisk"@,
                seq!["-q"@, "--force"@, "--append"@, dev@],
                persist_script(is_gpt, start as int, size as int),
            ),
            "appending persistence partition"@,
        ),
{
    let mut script: String = "start=".to_owned();
    push_dec(&mut script, start);
    script.append(", size=");
    push_dec(&mut script, size);
    if is_gpt {
        script.append(", type=0FC63DAF-8483-4772-8E79-3D69D8477DE4, name=FERRUS-PERSIST\n");
    } else {
        script.append(", type=83\n");
    }
    let c = Cmd::new("sfdisk").arg("-q").arg("--force").arg("--append").arg(dev).input(script);
    assert(c@.args =~= seq!["-q"@, "--force"@, "--append"@, dev@]);
    Task::once(c, "appending persistence partition")
}

} // verus!
