//! What the partition tables of sticks say, as text for `sfdisk`, and how
//! partition nodes are named.

use crate::flash::{bootable, fat_part, stick_part, typed, uefi_ntfs_parts};
use crate::format::{kind_of, FsKind};
use crate::partition::{
    data_model, gpt_line, mbr_line, node_of, part_lines, persist_extent, persist_script,
    release_cmd, reread_cmds, table_script, usable_end, PartModel, ESP_SECTORS, LINUX_FS_DATA,
    MS_BASIC_DATA, UEFI_NTFS_PART_SECTORS,
};
use crate::paths::{base, base_start, dir_part, has_name, trim_tail};
use crate::protocol::PartitionScheme;
use crate::text::{dec, starts_with};
use crate::togo::togo_parts;
use vstd::prelude::*;
use vstd::string::*;

verus! {

// ---- scripts in general ----------------------------------------------------------

pub proof fn lemma_script_one(scheme: PartitionScheme, p: PartModel)
    ensures
        scheme == PartitionScheme::Gpt ==> table_script(scheme, seq![p]) == "label: gpt\n"@
            + gpt_line(p),
        scheme == PartitionScheme::Mbr ==> table_script(scheme, seq![p]) == "label: dos\n"@
            + mbr_line(p),
{
    reveal_with_fuel(part_lines, 2);
    assert(seq![p].drop_last() =~= seq![]);
    assert(part_lines(scheme, seq![p]) =~= match scheme {
        PartitionScheme::Gpt => gpt_line(p),
        PartitionScheme::Mbr => mbr_line(p),
    });
}

pub proof fn lemma_script_two(scheme: PartitionScheme, p: PartModel, q: PartModel)
    ensures
        scheme == PartitionScheme::Gpt ==> table_script(scheme, seq![p, q]) == "label: gpt\n"@
            + gpt_line(p) + gpt_line(q),
        scheme == PartitionScheme::Mbr ==> table_script(scheme, seq![p, q]) == "label: dos\n"@
            + mbr_line(p) + mbr_line(q),
{
    lemma_script_one(scheme, p);
    let all = seq![p, q];
    assert(all.drop_last() =~= seq![p]);
    match scheme {
        PartitionScheme::Gpt => {
            assert(table_script(scheme, all) =~= table_script(scheme, seq![p]) + gpt_line(q));
        },
        PartitionScheme::Mbr => {
            assert(table_script(scheme, all) =~= table_script(scheme, seq![p]) + mbr_line(q));
        },
    }
}

proof fn lemma_script_three(p: PartModel, q: PartModel, r: PartModel)
    ensures
        table_script(PartitionScheme::Gpt, seq![p, q, r]) == "label: gpt\n"@ + gpt_line(p)
            + gpt_line(q) + gpt_line(r),
{
    lemma_script_two(PartitionScheme::Gpt, p, q);
    let all = seq![p, q, r];
    assert(all.drop_last() =~= seq![p, q]);
    assert(table_script(PartitionScheme::Gpt, all) =~= table_script(
        PartitionScheme::Gpt,
        seq![p, q],
    ) + gpt_line(r));
}

proof fn lemma_sizes()
    ensures
        dec(1_048_576) == "1048576"@,
        dec(32_768) == "32768"@,
        dec(63) == "63"@,
{
    reveal_strlit("1048576");
    reveal_strlit("32768");
    reveal_strlit("63");
    reveal_with_fuel(dec, 8);
    assert(dec(1_048_576) =~= "1048576"@);
    assert(dec(32_768) =~= "32768"@);
    assert(dec(63) =~= "63"@);
}

/// A named partition of basic data on a GPT.
proof fn lemma_basic_line(name: Seq<char>, size: Option<u64>, mbr_type: Seq<char>, boot: bool)
    ensures
        ({
            let p = bootable(typed(data_model(name, size, false), mbr_type), boot);
            &&& gpt_line(p) == "name=\""@ + name + "\""@ + (match size {
                Some(n) => ", size="@ + dec(n as nat),
                None => seq![],
            }) + ", type=EBD0A0A2-B9E5-4433-87C0-68B6B72699C7\n"@
            &&& mbr_line(p) == (match size {
                Some(n) => "size="@ + dec(n as nat) + ", "@,
                None => seq![],
            }) + "type="@ + mbr_type + (if boot {
                ", bootable\n"@
            } else {
                "\n"@
            })
        }),
{
    reveal_strlit("EBD0A0A2-B9E5-4433-87C0-68B6B72699C7");
    reveal_strlit(", type=");
    reveal_strlit("\n");
    reveal_strlit(", type=EBD0A0A2-B9E5-4433-87C0-68B6B72699C7\n");
    reveal_strlit(", bootable");
    reveal_strlit(", bootable\n");
    let p = bootable(typed(data_model(name, size, false), mbr_type), boot);
    let t = ", type="@ + MS_BASIC_DATA@ + "\n"@;
    assert(t =~= ", type=EBD0A0A2-B9E5-4433-87C0-68B6B72699C7\n"@);
    let head = "name=\""@ + name + "\""@ + (match size {
        Some(n) => ", size="@ + dec(n as nat),
        None => seq![],
    });
    assert(gpt_line(p) =~= head + t);
    let front = (match size {
        Some(n) => "size="@ + dec(n as nat) + ", "@,
        None => seq![],
    }) + "type="@ + mbr_type;
    if boot {
        assert(", bootable"@ + "\n"@ =~= ", bootable\n"@);
        assert(mbr_line(p) =~= front + (", bootable"@ + "\n"@));
    } else {
        assert(mbr_line(p) =~= front + "\n"@);
    }
}

// ---- the sticks ----------------------------------------------------------------------

/// A FAT32 install stick has one partition over the whole stick: on a GPT basic
/// data, on an MBR FAT32 with LBA, and active.
#[verifier::rlimit(40)]
pub proof fn law_fat32_table(scheme: PartitionScheme)
    ensures
        scheme == PartitionScheme::Gpt ==> table_script(scheme, seq![fat_part(scheme)])
            == "label: gpt\n"@ + ("name=\""@ + "FERRUS"@ + "\""@)
            + ", type=EBD0A0A2-B9E5-4433-87C0-68B6B72699C7\n"@,
        scheme == PartitionScheme::Mbr ==> table_script(scheme, seq![fat_part(scheme)])
            == "label: dos\n"@ + "type=0c, bootable\n"@,
{
    lemma_script_one(scheme, fat_part(scheme));
    lemma_basic_line("FERRUS"@, None, "0c"@, scheme == PartitionScheme::Mbr);
    match scheme {
        PartitionScheme::Gpt => {
            assert(table_script(scheme, seq![fat_part(scheme)]) =~= "label: gpt\n"@ + ("name=\""@
                + "FERRUS"@ + "\""@) + ", type=EBD0A0A2-B9E5-4433-87C0-68B6B72699C7\n"@);
        },
        PartitionScheme::Mbr => {
            reveal_strlit("type=");
            reveal_strlit("0c");
            reveal_strlit(", bootable\n");
            reveal_strlit("type=0c, bootable\n");
            assert(mbr_line(fat_part(scheme)) =~= "type=0c, bootable\n"@);
        },
    }
}

/// A UEFI:NTFS stick has a first partition of 16 MiB for the loader and a second
/// one over the rest, both basic data on a GPT; on an MBR the first is FAT32 and
/// the second NTFS.
#[verifier::rlimit(40)]
pub proof fn law_uefi_ntfs_table(scheme: PartitionScheme)
    ensures
        scheme == PartitionScheme::Gpt ==> table_script(scheme, uefi_ntfs_parts())
            == "label: gpt\n"@ + ("name=\""@ + "UEFI-NTFS"@ + "\""@ + (", size="@ + "32768"@)
            + ", type=EBD0A0A2-B9E5-4433-87C0-68B6B72699C7\n"@) + ("name=\""@ + "WININSTALL"@
            + "\""@ + ", type=EBD0A0A2-B9E5-4433-87C0-68B6B72699C7\n"@),
        scheme == PartitionScheme::Mbr ==> table_script(scheme, uefi_ntfs_parts())
            == "label: dos\n"@ + "size=32768, type=0c\n"@ + "type=07\n"@,
{
    let p = typed(data_model("UEFI-NTFS"@, Some(UEFI_NTFS_PART_SECTORS), false), "0c"@);
    let q = data_model("WININSTALL"@, None, false);
    lemma_sizes();
    lemma_script_two(scheme, p, q);
    lemma_basic_line("UEFI-NTFS"@, Some(32_768u64), "0c"@, false);
    lemma_basic_line("WININSTALL"@, None, "07"@, false);
    assert(p == bootable(p, false));
    assert(q == bootable(typed(q, "07"@), false));
    assert(gpt_line(q) =~= "name=\""@ + "WININSTALL"@ + "\""@
        + ", type=EBD0A0A2-B9E5-4433-87C0-68B6B72699C7\n"@);
    if scheme == PartitionScheme::Mbr {
        reveal_strlit("type=");
        reveal_strlit("size=");
        reveal_strlit("32768");
        reveal_strlit(", ");
        reveal_strlit("0c");
        reveal_strlit("07");
        reveal_strlit("\n");
        reveal_strlit("size=32768, type=0c\n");
        reveal_strlit("type=07\n");
        assert(mbr_line(p) =~= "size=32768, type=0c\n"@);
        assert(mbr_line(q) =~= "type=07\n"@);
    }
}

/// An extracted stick has one partition over the whole stick, which is active
/// where it is to boot on a BIOS.
#[verifier::rlimit(40)]
pub proof fn law_extract_table(bios: bool)
    ensures
        ({
            let parts = seq![bootable(typed(data_model("LIVE"@, None, false), "0c"@), bios)];
            &&& table_script(PartitionScheme::Gpt, parts) == "label: gpt\n"@ + ("name=\""@
                + "LIVE"@ + "\""@) + ", type=EBD0A0A2-B9E5-4433-87C0-68B6B72699C7\n"@
            &&& bios ==> table_script(PartitionScheme::Mbr, parts) == "label: dos\n"@
                + "type=0c, bootable\n"@
            &&& !bios ==> table_script(PartitionScheme::Mbr, parts) == "label: dos\n"@
                + "type=0c\n"@
        }),
{
    let p = bootable(typed(data_model("LIVE"@, None, false), "0c"@), bios);
    lemma_script_one(PartitionScheme::Gpt, p);
    lemma_script_one(PartitionScheme::Mbr, p);
    lemma_basic_line("LIVE"@, None, "0c"@, bios);
    assert(gpt_line(p) =~= ("name=\""@ + "LIVE"@ + "\""@)
        + ", type=EBD0A0A2-B9E5-4433-87C0-68B6B72699C7\n"@);
    assert(table_script(PartitionScheme::Gpt, seq![p]) =~= "label: gpt\n"@ + ("name=\""@ + "LIVE"@
        + "\""@) + ", type=EBD0A0A2-B9E5-4433-87C0-68B6B72699C7\n"@);
    reveal_strlit("type=");
    reveal_strlit("0c");
    reveal_strlit("\n");
    reveal_strlit(", bootable\n");
    reveal_strlit("type=0c, bootable\n");
    reveal_strlit("type=0c\n");
    if bios {
        assert(mbr_line(p) =~= "type=0c, bootable\n"@);
    } else {
        assert(mbr_line(p) =~= "type=0c\n"@);
    }
}

/// A plain stick has one partition over the whole stick. Its type is that of a
/// Linux filesystem if and only if it gets an ext one; on an MBR it is active,
/// FAT32 has its own type, and it starts at sector 63 where old BIOSes ask for
/// that.
#[verifier::rlimit(40)]
pub proof fn law_plain_table(fs: Seq<char>, old_bios_align: bool)
    ensures
        ({
            let kind = kind_of(fs);
            let gpt = table_script(
                PartitionScheme::Gpt,
                seq![stick_part(PartitionScheme::Gpt, fs, old_bios_align)],
            );
            let mbr = table_script(
                PartitionScheme::Mbr,
                seq![stick_part(PartitionScheme::Mbr, fs, old_bios_align)],
            );
            let start = if old_bios_align {
                "start=63, "@
            } else {
                seq![]
            };
            &&& kind == FsKind::Ext ==> gpt == "label: gpt\n"@ + ("name=\""@ + "FERRUS"@ + "\""@)
                + ", type=0FC63DAF-8483-4772-8E79-3D69D8477DE4\n"@
            &&& kind != FsKind::Ext ==> gpt == "label: gpt\n"@ + ("name=\""@ + "FERRUS"@ + "\""@)
                + ", type=EBD0A0A2-B9E5-4433-87C0-68B6B72699C7\n"@
            &&& kind == FsKind::Fat ==> mbr == "label: dos\n"@ + start + "type=0c, bootable\n"@
            &&& kind == FsKind::Ext ==> mbr == "label: dos\n"@ + start + "type=83, bootable\n"@
            &&& kind != FsKind::Fat && kind != FsKind::Ext ==> mbr == "label: dos\n"@ + start
                + "type=07, bootable\n"@
        }),
{
    let kind = kind_of(fs);
    let g = stick_part(PartitionScheme::Gpt, fs, old_bios_align);
    let m = stick_part(PartitionScheme::Mbr, fs, old_bios_align);
    lemma_script_one(PartitionScheme::Gpt, g);
    lemma_script_one(PartitionScheme::Mbr, m);
    lemma_sizes();
    assert(gpt_line(g) =~= ("name=\""@ + "FERRUS"@ + "\""@) + (", type="@ + g.gpt_type + "\n"@));
    assert(table_script(PartitionScheme::Gpt, seq![g]) =~= "label: gpt\n"@ + ("name=\""@
        + "FERRUS"@ + "\""@) + (", type="@ + g.gpt_type + "\n"@));
    lemma_type_texts();
    let start = if old_bios_align {
        "start=63, "@
    } else {
        seq![]
    };
    assert("start="@ + "63"@ + ", "@ =~= "start=63, "@) by {
        reveal_strlit("start=");
        reveal_strlit("63");
        reveal_strlit(", ");
        reveal_strlit("start=63, ");
    }
    assert(mbr_line(m) =~= start + ("type="@ + m.mbr_type + ", bootable"@ + "\n"@));
    assert("label: dos\n"@ + mbr_line(m) =~= "label: dos\n"@ + start + ("type="@ + m.mbr_type
        + ", bootable"@ + "\n"@));
}

proof fn lemma_type_texts()
    ensures
        ", type="@ + LINUX_FS_DATA@ + "\n"@ == ", type=0FC63DAF-8483-4772-8E79-3D69D8477DE4\n"@,
        ", type="@ + MS_BASIC_DATA@ + "\n"@ == ", type=EBD0A0A2-B9E5-4433-87C0-68B6B72699C7\n"@,
        "type="@ + "0c"@ + ", bootable"@ + "\n"@ == "type=0c, bootable\n"@,
        "type="@ + "83"@ + ", bootable"@ + "\n"@ == "type=83, bootable\n"@,
        "type="@ + "07"@ + ", bootable"@ + "\n"@ == "type=07, bootable\n"@,
{
    reveal_strlit("0FC63DAF-8483-4772-8E79-3D69D8477DE4");
    reveal_strlit("EBD0A0A2-B9E5-4433-87C0-68B6B72699C7");
    reveal_strlit(", type=");
    reveal_strlit("\n");
    reveal_strlit(", type=0FC63DAF-8483-4772-8E79-3D69D8477DE4\n");
    reveal_strlit(", type=EBD0A0A2-B9E5-4433-87C0-68B6B72699C7\n");
    reveal_strlit("type=");
    reveal_strlit("0c");
    reveal_strlit("83");
    reveal_strlit("07");
    reveal_strlit(", bootable");
    reveal_strlit("type=0c, bootable\n");
    reveal_strlit("type=83, bootable\n");
    reveal_strlit("type=07, bootable\n");
    assert(", type="@ + LINUX_FS_DATA@ + "\n"@
        =~= ", type=0FC63DAF-8483-4772-8E79-3D69D8477DE4\n"@);
    assert(", type="@ + MS_BASIC_DATA@ + "\n"@
        =~= ", type=EBD0A0A2-B9E5-4433-87C0-68B6B72699C7\n"@);
    assert("type="@ + "0c"@ + ", bootable"@ + "\n"@ =~= "type=0c, bootable\n"@);
    assert("type="@ + "83"@ + ", bootable"@ + "\n"@ =~= "type=83, bootable\n"@);
    assert("type="@ + "07"@ + ", bootable"@ + "\n"@ =~= "type=07, bootable\n"@);
}

/// The EFI system partition of a Windows To Go stick comes first and has
/// 512 MiB. Without a data partition there is one more, for Windows, which has
/// no size of its own and so gets all the space that remains; with one, Windows
/// has a size, and the data partition behind it has the size that was asked for.
/// All of them are basic data.
#[verifier::rlimit(40)]
pub proof fn law_togo_table(sectors: int, persist_mib: int)
    requires
        0 <= sectors < 0x1_0000_0000_0000_0000,
        0 <= persist_mib,
        togo_parts(sectors, persist_mib) is Some,
    ensures
        ({
            let parts = togo_parts(sectors, persist_mib)->0;
            let script = table_script(PartitionScheme::Gpt, parts);
            let esp = "name=\""@ + "FERRUS"@ + "\""@ + (", size="@ + "1048576"@)
                + ", type=EBD0A0A2-B9E5-4433-87C0-68B6B72699C7\n"@;
            let basic = ", type=EBD0A0A2-B9E5-4433-87C0-68B6B72699C7\n"@;
            &&& persist_mib == 0 ==> parts.len() == 2 && parts[1].size is None && script
                == "label: gpt\n"@ + esp + ("name=\""@ + "WINDOWS"@ + "\""@ + basic)
            &&& persist_mib > 0 ==> parts.len() == 3 && parts[1].size is Some && script
                == "label: gpt\n"@ + esp + ("name=\""@ + "WINDOWS"@ + "\""@ + (", size="@ + dec(
                parts[1].size->0 as nat,
            )) + basic) + ("name=\""@ + "FERRUSDATA"@ + "\""@ + (", size="@ + dec(
                (2048 * persist_mib) as nat,
            )) + basic)
        }),
{
    let parts = togo_parts(sectors, persist_mib)->0;
    let e = typed(data_model("FERRUS"@, Some(ESP_SECTORS), false), "0c"@);
    lemma_sizes();
    lemma_basic_line("FERRUS"@, Some(1_048_576u64), "0c"@, false);
    assert(e == bootable(e, false));
    if persist_mib == 0 {
        let w = data_model("WINDOWS"@, None, false);
        lemma_basic_line("WINDOWS"@, None, "07"@, false);
        assert(w == bootable(typed(w, "07"@), false));
        lemma_script_two(PartitionScheme::Gpt, e, w);
        assert(parts =~= seq![e, w]);
        assert(gpt_line(w) =~= "name=\""@ + "WINDOWS"@ + "\""@
            + ", type=EBD0A0A2-B9E5-4433-87C0-68B6B72699C7\n"@);
    } else {
        let w = parts[1];
        let d = parts[2];
        lemma_basic_line("WINDOWS"@, w.size, "07"@, false);
        lemma_basic_line("FERRUSDATA"@, d.size, "07"@, false);
        assert(w == bootable(typed(w, "07"@), false));
        assert(d == bootable(typed(d, "07"@), false));
        lemma_script_three(e, w, d);
        assert(parts =~= seq![e, w, d]);
        crate::togo::law_togo_fits(sectors, persist_mib);
        assert(d.size->0 as int == 2048 * persist_mib);
    }
}

/// A layout with a data partition is refused only where it leaves Windows less
/// than 1 MiB behind the first MiB, the EFI system partition and the data
/// partition, in front of the copy of the table that ends a device.
pub proof fn law_togo_refusal(sectors: int, persist_mib: int)
    requires
        0 <= persist_mib,
    ensures
        togo_parts(sectors, 0) is Some,
        togo_parts(sectors, persist_mib) is None ==> persist_mib > 0 && (sectors < 128
            || sectors - 128 < 2048 + 1_048_576 + 2048 * persist_mib + 2048),
        persist_mib > 0 && sectors - 128 < 2048 + 1_048_576 + 2048 * persist_mib + 2048
            ==> togo_parts(sectors, persist_mib) is None,
{
}

// ---- nodes ------------------------------------------------------------------------------

/// The node of partition `n` of the disk `/dev/NAME` is its name and the number;
/// that of a loop device has a `p` in between.
pub proof fn law_partition_nodes(name: Seq<char>, n: nat)
    requires
        name.len() > 0,
        forall|i: int| 0 <= i < name.len() ==> (#[trigger] name[i]) != '/',
        name.last() != '.',
    ensures
        ({
            let dev = "/dev/"@ + name;
            &&& starts_with(name, "loop"@) ==> node_of(dev, n as int) == dev + "p"@ + dec(n)
            &&& !starts_with(name, "loop"@) ==> node_of(dev, n as int) == dev + dec(n)
        }),
{
    reveal_strlit("/dev/");
    reveal_strlit("/dev");
    let dev = "/dev/"@ + name;
    assert(dev.last() == name[name.len() - 1]);
    assert(trim_tail(dev) == dev);
    lemma_base_start("/dev/"@, name);
    assert(base(dev) =~= name);
    assert(name != seq!['.'] && name != seq!['.', '.']) by {
        assert(seq!['.'].last() == '.');
        assert(seq!['.', '.'].last() == '.');
    }
    assert(has_name(dev));
    assert(dev.take(5) =~= "/dev/"@);
    reveal_with_fuel(trim_tail, 3);
    assert("/dev/"@.drop_last() =~= "/dev"@);
    assert(dir_part(dev) == "/dev"@);
    let leaf = if starts_with(name, "loop"@) {
        name + "p"@ + dec(n)
    } else {
        name + dec(n)
    };
    assert(leaf[0] == name[0]);
    assert("/dev"@.push('/') + leaf =~= "/dev/"@ + leaf);
    assert("/dev/"@ + leaf =~= if starts_with(name, "loop"@) {
        dev + "p"@ + dec(n)
    } else {
        dev + dec(n)
    });
}

pub proof fn lemma_base_start(head: Seq<char>, name: Seq<char>)
    requires
        head.len() > 0,
        head.last() == '/',
        forall|i: int| 0 <= i < name.len() ==> (#[trigger] name[i]) != '/',
    ensures
        base_start(head + name) == head.len(),
    decreases name.len(),
{
    let s = head + name;
    if name.len() > 0 {
        assert(s.last() == name[name.len() - 1]);
        assert(s.drop_last() =~= head + name.drop_last());
        assert forall|i: int| 0 <= i < name.drop_last().len() implies (
        #[trigger] name.drop_last()[i]) != '/' by {
            assert(name.drop_last()[i] == name[i]);
        }
        lemma_base_start(head, name.drop_last());
    } else {
        assert(s =~= head);
    }
}

/// Releasing a device unmounts its partitions, and re-reading its table drops,
/// updates and adds the kernel's partitions and waits for udev, in this order.
pub proof fn law_device_upkeep(dev: Seq<char>, n: int)
    ensures
        release_cmd(dev, n).program == "umount"@,
        release_cmd(dev, n).args == seq!["-l"@, node_of(dev, n)],
        ({
            let r = reread_cmds(dev);
            &&& r.len() == 4
            &&& r[0].program == "partx"@ && r[0].args == seq!["-d"@, dev]
            &&& r[1].program == "partx"@ && r[1].args == seq!["-u"@, dev]
            &&& r[2].program == "partx"@ && r[2].args == seq!["-a"@, dev]
            &&& r[3].program == "udevadm"@ && r[3].args == seq!["settle"@, "--timeout=8"@]
        }),
{
}

// ---- persistence ----------------------------------------------------------------------------

/// A persistence partition is as large as asked for where there is room for it,
/// and takes all the room where there is not; it is refused only without a
/// partition to stand behind, on an MBR with four, or where less than 2 MiB
/// would come of it.
pub proof fn law_persistence_size(
    is_gpt: bool,
    parts: Seq<(int, int)>,
    total: int,
    mib: int,
)
    requires
        0 <= total,
        0 <= mib,
    ensures
        match persist_extent(is_gpt, parts, total, mib) {
            Ok((start, size)) => {
                let room = usable_end(total, is_gpt) - start;
                &&& size <= room
                &&& size == 2048 * mib || size == room && room < 2048 * mib
                &&& size >= 4096
                &&& is_gpt || parts.len() < 4
            },
            Err(e) => {
                ||| parts.len() == 0
                ||| !is_gpt && parts.len() >= 4
                ||| mib < 2
                ||| usable_end(total, is_gpt) - crate::partition::align_mib(
                    crate::partition::last_end(parts),
                ) < 4096
            },
        },
        is_gpt && total >= 128 ==> usable_end(total, is_gpt) == total - 128,
        !is_gpt ==> usable_end(total, is_gpt) == total,
{
}

/// A persistence partition is appended at its place with its size, as a Linux
/// filesystem in either kind of table.
pub proof fn law_persistence_script(start: nat, size: nat)
    ensures
        persist_script(false, start as int, size as int) == "start="@ + dec(start) + ", size="@
            + dec(size) + ", type=83\n"@,
        exists|rest: Seq<char>|
            persist_script(true, start as int, size as int) == "start="@ + dec(start) + ", size="@
                + dec(size) + ", type=0FC63DAF-8483-4772-8E79-3D69D8477DE4"@ + #[trigger] (rest
                + "\n"@),
{
    reveal_strlit(", type=0FC63DAF-8483-4772-8E79-3D69D8477DE4, name=FERRUS-PERSIST\n");
    reveal_strlit(", type=0FC63DAF-8483-4772-8E79-3D69D8477DE4");
    reveal_strlit(", name=FERRUS-PERSIST");
    reveal_strlit("\n");
    let rest = ", name=FERRUS-PERSIST"@;
    assert(", type=0FC63DAF-8483-4772-8E79-3D69D8477DE4"@ + (rest + "\n"@)
        =~= ", type=0FC63DAF-8483-4772-8E79-3D69D8477DE4, name=FERRUS-PERSIST\n"@);
    assert(persist_script(true, start as int, size as int) =~= "start="@ + dec(start) + ", size="@
        + dec(size) + ", type=0FC63DAF-8483-4772-8E79-3D69D8477DE4"@ + (rest + "\n"@));
}

} // verus!
