//! Commands: what is run, on what, with which input; and what is read from
//! their output.

use ferrus::commands::{after_try, failure_text, tail_chars, Cmd, Retry, Task};
use ferrus::format::{
    bad_block_count, cut_label, fs_kind, mkfs_any, mkfs_with_label, sanitize_label,
    scan_bad_blocks, FsKind,
};
use ferrus::mounts::{attach_vhdx, attached_device, dd_to_node, detach_vhdx, Mount, Unmount};
use ferrus::partition::{
    append_task, data_part, device_sectors, device_size_task, dump_partitions, dump_task,
    node_missing_text, part_node, partition, place_persistence, release_partitions,
    reread_partitions, sync_dev, wait_for_node, wipe_signatures, NodeWait, PartSpec, PersistError,
};
use ferrus::protocol::{BadBlocks, PartitionScheme};
use ferrus::togo::format_disk_task;

fn line(c: &Cmd) -> String {
    let mut s = c.program.clone();
    for a in &c.args {
        s.push(' ');
        s.push_str(a);
    }
    s
}

fn task(t: &Task) -> String {
    format!("{} ({} x{})", line(&t.cmd), t.context, t.attempts)
}

#[test]
fn filesystem_families() {
    for (name, kind) in [
        ("FAT32", FsKind::Fat),
        ("vfat", FsKind::Fat),
        ("exFAT", FsKind::Exfat),
        ("NTFS", FsKind::Ntfs),
        ("UDF", FsKind::Udf),
        ("ext4", FsKind::Ext),
        ("anything", FsKind::Ext),
    ] {
        assert_eq!(fs_kind(name), kind);
    }
}

#[test]
fn labels_are_cut_and_raised() {
    assert_eq!(sanitize_label("FAT32", "my stick name"), "MY STICK NA");
    assert_eq!(cut_label("exfat", "abcdefghijklmnopq"), "abcdefghijklmno");
    assert_eq!(sanitize_label("ntfs", &"x".repeat(40)), "X".repeat(32));
    assert_eq!(sanitize_label("udf", &"x".repeat(40)), "X".repeat(30));
    assert_eq!(sanitize_label("ext3", &"x".repeat(40)), "X".repeat(16));
    // Upper case may be longer than what it was made of; the cap holds for it.
    assert_eq!(sanitize_label("FAT32", "straße"), "STRASSE");
    assert_eq!(sanitize_label("FAT32", &"ß".repeat(11)), "S".repeat(11));
    // A label made again stays as it is.
    for fs in ["FAT32", "exFAT", "NTFS", "UDF", "ext4"] {
        let once = sanitize_label(fs, "a label with more than 32 letters in it");
        assert_eq!(sanitize_label(fs, &once), once);
    }
}

#[test]
fn filesystems_are_made() {
    assert_eq!(
        task(&mkfs_any("FAT32", "Usb drive", "/dev/sda1", Some(4096))),
        "mkfs.vfat -F32 -n USB DRIVE -s 8 /dev/sda1 (creating FAT32 filesystem x4)"
    );
    assert_eq!(
        task(&mkfs_any("fat32", "a", "/dev/sda1", Some(131072))),
        "mkfs.vfat -F32 -n A /dev/sda1 (creating FAT32 filesystem x4)"
    );
    assert_eq!(
        task(&mkfs_any("NTFS", "win", "/dev/sda1", Some(4096))),
        "mkfs.ntfs -Q -F -L WIN -c 4096 /dev/sda1 (creating NTFS filesystem x4)"
    );
    assert_eq!(
        task(&mkfs_any("NTFS", "DATA", "/dev/sdz1", Some(8192))),
        "mkfs.ntfs -Q -F -L DATA -c 8192 /dev/sdz1 (creating NTFS filesystem x4)"
    );
    assert_eq!(
        task(&format_disk_task("/dev/loop4")),
        "mkfs.ntfs -Q -F -L WINDOWS /dev/loop4 (creating NTFS filesystem x4)"
    );
    for other in [None, Some(0), Some(3000), Some(131072)] {
        assert_eq!(
            task(&mkfs_any("NTFS", "win", "/dev/sda1", other)),
            "mkfs.ntfs -Q -F -L WIN /dev/sda1 (creating NTFS filesystem x4)"
        );
    }
    assert_eq!(
        task(&mkfs_any("exFAT", "e", "/dev/sda1", Some(131072))),
        "mkfs.exfat -n E -c 131072 /dev/sda1 (creating exFAT filesystem x4)"
    );
    assert_eq!(
        task(&mkfs_any("exFAT", "e", "/dev/sda1", Some(511))),
        "mkfs.exfat -n E /dev/sda1 (creating exFAT filesystem x4)"
    );
    assert_eq!(
        task(&mkfs_any("UDF", "u", "/dev/sda1", None)),
        "mkudffs --lvid=U /dev/sda1 (creating UDF filesystem (is udftools installed?) x1)"
    );
    assert_eq!(
        task(&mkfs_any("udf", "u", "/dev/sda1", Some(2048))),
        "mkudffs --lvid=U -b 2048 /dev/sda1 (creating UDF filesystem (is udftools installed?) x1)"
    );
    assert_eq!(
        task(&mkfs_any("udf", "u", "/dev/sda1", Some(65536))),
        "mkudffs --lvid=U /dev/sda1 (creating UDF filesystem (is udftools installed?) x1)"
    );
    assert_eq!(
        task(&mkfs_any("ext2", "l", "/dev/sda1", Some(1024))),
        "mkfs.ext2 -F -L L -b 1024 /dev/sda1 (creating mkfs.ext2 x4)"
    );
    assert_eq!(
        task(&mkfs_any("Ext3", "l", "/dev/sda1", Some(512))),
        "mkfs.ext3 -F -L L /dev/sda1 (creating mkfs.ext3 x4)"
    );
    assert_eq!(
        task(&mkfs_with_label("btrfs", "keep Case", "/dev/sda1", None)),
        "mkfs.ext4 -F -L keep Case /dev/sda1 (creating mkfs.ext4 x4)"
    );
}

#[test]
fn bad_blocks_are_counted() {
    assert_eq!(
        task(&scan_bad_blocks("/dev/sda", BadBlocks::Fast)),
        "badblocks -sv -b 4096 /dev/sda (running badblocks x1)"
    );
    assert_eq!(
        line(&scan_bad_blocks("/dev/sda", BadBlocks::Thorough).cmd),
        "badblocks -wsv -b 4096 /dev/sda"
    );
    assert_eq!(bad_block_count("Pass completed, 0 bad blocks found. (0/0/0 errors)\n"), 0);
    assert_eq!(
        bad_block_count("Checking blocks 0 to 99\nPass completed, 12 bad blocks found. (12/0/0 errors)\n"),
        12
    );
    assert_eq!(bad_block_count("nothing of the kind"), 0);
    assert_eq!(bad_block_count("3 bad blocks found\nno bad blocks found\n"), 3);
}

fn spec(name: &str, size: Option<u64>, boot: bool, start: Option<u64>) -> PartSpec {
    PartSpec {
        name: name.into(),
        size_sectors: size,
        gpt_type: "G",
        mbr_type: "0c",
        mbr_boot: boot,
        mbr_start: start,
    }
}

#[test]
fn tables_are_scripted() {
    let parts = vec![spec("A", Some(2048), true, Some(63)), data_part("DATA", None, false)];
    let gpt = partition("/dev/sda", PartitionScheme::Gpt, &parts);
    assert_eq!(
        task(&gpt),
        "sfdisk -q --force --wipe=always /dev/sda (writing GPT partition table x1)"
    );
    assert_eq!(
        gpt.cmd.stdin.as_deref(),
        Some(
            "label: gpt\nname=\"A\", size=2048, type=G\nname=\"DATA\", \
             type=EBD0A0A2-B9E5-4433-87C0-68B6B72699C7\n"
        )
    );
    let mbr = partition("/dev/sda", PartitionScheme::Mbr, &parts);
    assert_eq!(mbr.context, "writing MBR partition table");
    assert_eq!(
        mbr.cmd.stdin.as_deref(),
        Some("label: dos\nstart=63, size=2048, type=0c, bootable\ntype=07\n")
    );
    let linux = data_part("L", Some(9), true);
    assert_eq!(linux.gpt_type, "0FC63DAF-8483-4772-8E79-3D69D8477DE4");
    assert_eq!(linux.mbr_type, "83");
}

#[test]
fn nodes_of_partitions() {
    assert_eq!(part_node("/dev/sda", 1), "/dev/sda1");
    assert_eq!(part_node("/dev/loop0", 12), "/dev/loop0p12");
    assert_eq!(node_missing_text("/dev/sda1"), "partition node /dev/sda1 never appeared");
    assert_eq!(wait_for_node(true, true), NodeWait::Found);
    assert_eq!(wait_for_node(false, false), NodeWait::Again(100));
    assert_eq!(wait_for_node(false, true), NodeWait::TimedOut);
}

#[test]
fn upkeep_of_a_device() {
    assert_eq!(line(&wipe_signatures("/dev/sda")), "wipefs -a /dev/sda");
    assert_eq!(line(&sync_dev("/dev/sda")), "sync -f /dev/sda");
    let release = release_partitions("/dev/loop1");
    assert_eq!(release.len(), 8);
    assert_eq!(line(&release[0]), "umount -l /dev/loop1p1");
    assert_eq!(line(&release[7]), "umount -l /dev/loop1p8");
    let reread: Vec<String> = reread_partitions("/dev/sda").iter().map(line).collect();
    assert_eq!(
        reread,
        ["partx -d /dev/sda", "partx -u /dev/sda", "partx -a /dev/sda", "udevadm settle --timeout=8"]
    );
}

#[test]
fn sizes_are_read() {
    assert_eq!(
        task(&device_size_task("/dev/sda")),
        "blockdev --getsize64 /dev/sda (querying device size x1)"
    );
    assert_eq!(device_sectors("1024\n"), Some(2));
    assert_eq!(device_sectors(" 1535 "), Some(2));
    assert_eq!(device_sectors(""), None);
    assert_eq!(device_sectors("18446744073709551616"), None);
}

const DUMP: &str = "label: dos
label-id: 0x12345678
device: /dev/sda
unit: sectors

/dev/sda1 : start=          64, size=     9613440, type=0, bootable
/dev/sda2 : start=     9613504, size=        8496, type=ef
";

#[test]
fn tables_are_read() {
    assert_eq!(task(&dump_task("/dev/sda")), "sfdisk -d /dev/sda (reading partition table x1)");
    assert_eq!(dump_partitions(DUMP), (false, vec![(64, 9613440), (9613504, 8496)]));
    let gpt = "label: gpt\nfirst-lba: 34\n\n/dev/sda1 : start=2048, size=4096, type=X, name=\"a\"\n";
    assert_eq!(dump_partitions(gpt), (true, vec![(2048, 4096)]));
    assert_eq!(dump_partitions(""), (false, vec![]));
    assert_eq!(dump_partitions("/dev/sda1 : start=, size=5\n"), (false, vec![]));
}

#[test]
fn persistence_is_placed() {
    let parts = vec![(64u64, 9613440u64), (9613504, 8496)];
    // Behind 9622000, on the next MiB.
    assert_eq!(place_persistence(false, &parts, 30_000_000, 4096), Ok((9_623_552, 8_388_608)));
    // Clamped to what is free.
    assert_eq!(place_persistence(false, &parts, 9_700_000, 4096), Ok((9_623_552, 76_448)));
    // A GPT keeps its last sectors.
    assert_eq!(place_persistence(true, &parts, 9_700_000, 4096), Ok((9_623_552, 76_320)));
}

#[test]
fn persistence_is_refused() {
    let parts = vec![(64u64, 9613440u64)];
    let cases = [
        (
            place_persistence(false, &vec![], 30_000_000, 1),
            PersistError::NoPartitions,
            "image has no partitions; cannot add persistence",
        ),
        (
            place_persistence(false, &vec![(1, 1); 4], 30_000_000, 100),
            PersistError::TableFull,
            "MBR table already has 4 primary partitions; no room for persistence",
        ),
        (
            place_persistence(false, &parts, 9_613_505, 100),
            PersistError::NoSpace,
            "not enough space left on the device for a persistence partition",
        ),
        (
            place_persistence(false, &parts, 30_000_000, 1),
            PersistError::TooSmall,
            "requested persistence size too small for this device",
        ),
    ];
    for (got, want, text) in cases {
        assert_eq!(got, Err(want));
        assert_eq!(want.message(), text);
    }
    // Only an MBR is full with four.
    assert!(place_persistence(true, &vec![(1, 1); 4], 30_000_000, 100).is_ok());
}

#[test]
fn persistence_is_appended() {
    let t = append_task("/dev/sda", true, 2048, 4096);
    assert_eq!(
        task(&t),
        "sfdisk -q --force --append /dev/sda (appending persistence partition x1)"
    );
    assert_eq!(
        t.cmd.stdin.as_deref(),
        Some("start=2048, size=4096, type=0FC63DAF-8483-4772-8E79-3D69D8477DE4, name=FERRUS-PERSIST\n")
    );
    let t = append_task("/dev/sda", false, 2048, 4096);
    assert_eq!(t.cmd.stdin.as_deref(), Some("start=2048, size=4096, type=83\n"));
}

#[test]
fn mounts() {
    let m = Mount::new_dir("/tmp", 42, 7, "iso");
    assert_eq!(m.path(), "/tmp/ferrus-mnt-42-7-iso");
    assert_eq!(
        task(&m.ro("/x.iso")),
        "mount -o ro,loop /x.iso /tmp/ferrus-mnt-42-7-iso (loop-mounting /x.iso x1)"
    );
    let rw = m.rw("/dev/sda1");
    assert_eq!(line(&rw.first), "mount /dev/sda1 /tmp/ferrus-mnt-42-7-iso");
    assert_eq!(
        task(&rw.fallback),
        "mount -t ntfs-3g /dev/sda1 /tmp/ferrus-mnt-42-7-iso (mounting /dev/sda1 x4)"
    );
    assert_eq!(line(&m.umount_cmd()), "umount /tmp/ferrus-mnt-42-7-iso");
    assert_eq!(line(&m.lazy_umount_cmd()), "umount -l /tmp/ferrus-mnt-42-7-iso");
    assert_eq!(
        m.busy_text(),
        "unmount /tmp/ferrus-mnt-42-7-iso: busy even for lazy unmount"
    );
    assert_eq!(Mount::after_umount(1, true), Unmount::Done);
    assert_eq!(Mount::after_umount(1, false), Unmount::Again(250));
    assert_eq!(Mount::after_umount(2, false), Unmount::Again(500));
    assert_eq!(Mount::after_umount(3, false), Unmount::Busy(750));
}

#[test]
fn loop_devices() {
    assert_eq!(
        task(&attach_vhdx("/m/windows.vhdx")),
        "losetup -f --show -P /m/windows.vhdx (losetup attach VHDX x1)"
    );
    assert_eq!(attached_device(" /dev/loop4\n").as_deref(), Some("/dev/loop4"));
    assert_eq!(attached_device("\n"), None);
    assert_eq!(task(&detach_vhdx("/dev/loop4")), "losetup -d /dev/loop4 (losetup detach VHDX x1)");
    assert_eq!(
        task(&dd_to_node("/f.img", "/dev/sda2")),
        "dd if=/f.img of=/dev/sda2 bs=4M conv=fsync status=none (writing bootloader image x4)"
    );
}

#[test]
fn failures_in_words() {
    assert_eq!(
        failure_text("mkfs.ext4", "exit status: 1", "\n no such device \n"),
        "mkfs.ext4 failed (exit status: 1): no such device"
    );
    let long = format!("{}é", "x".repeat(500));
    let m = failure_text("p", "s", &long);
    assert_eq!(m, format!("p failed (s): {}é", "x".repeat(399)));
    assert_eq!(tail_chars("abc", 2), "bc");
    assert_eq!(tail_chars("abc", 9), "abc");
}

#[test]
fn tries_end() {
    assert_eq!(after_try(true, 1, 4, 600), Retry::Succeed);
    assert_eq!(after_try(false, 3, 4, 600), Retry::Again(600));
    assert_eq!(after_try(false, 4, 4, 600), Retry::GiveUp);
    assert_eq!(after_try(false, 1, 0, 600), Retry::GiveUp);
}
