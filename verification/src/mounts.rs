//! Mount points and loop devices.

use crate::commands::{cmd, once, retried, Cmd, Task};
use crate::paths::{join, path_join};
use crate::text::{dec, from_chars, push_dec, to_chars, trim, trim_chars};
use vstd::prelude::*;
use vstd::string::*;

verus! {

/// A directory on which something is mounted.
#[derive(Debug, Clone, PartialEq, Eq)]
pub struct Mount {
    pub dir: String,
}

/// The commands that mount a partition: the kernel's choice of filesystem
/// first, then ntfs-3g.
pub struct MountTask {
    pub first: Cmd,
    pub fallback: Task,
}

/// What comes after a try to unmount.
#[derive(Debug, Clone, Copy, PartialEq, Eq, Structural)]
pub enum Unmount {
    /// Unmounted: remove the directory.
    Done,
    /// Wait for so many milliseconds and try again.
    Again(u64),
    /// Wait for so many milliseconds, unmount lazily, remove the directory, and
    /// report that it was busy.
    Busy(u64),
}

impl Mount {
    /// The name of mount point number `n` of process `pid`.
    pub open spec fn dir_name(pid: int, n: int, tag: Seq<char>) -> Seq<char> {
        "ferrus-mnt-"@ + dec(pid as nat) + "-"@ + dec(n as nat) + "-"@ + tag
    }

    /// A mount point below `tmp`.
    pub fn new_dir(tmp: &str, pid: u32, n: u32, tag: &str) -> (m: Mount)
        ensures
            m.dir@ == join(tmp@, Mount::dir_name(pid as int, n as int, tag@)),
    {
        let mut name: String = "ferrus-mnt-".to_owned();
        push_dec(&mut name, pid as u64);
        name.append("-");
        push_dec(&mut name, n as u64);
        name.append("-");
        name.append(tag);
        Mount { dir: path_join(tmp, name.as_str()) }
    }

    pub fn path(&self) -> (p: &str)
        ensures
            p@ == self.dir@,
    {
        self.dir.as_str()
    }

    /// Read-only loop mount of an image file.
    pub fn ro(&self, image: &str) -> (t: Task)
        ensures
            t@ == once(
                cmd("mount"@, seq!["-o"@, "ro,loop"@, image@, self.dir@]),
                "loop-mounting "@ + image@,
            ),
    {
        let c = Cmd::new("mount").arg("-o").arg("ro,loop").arg(image).arg(self.dir.as_str());
        assert(c@.args =~= seq!["-o"@, "ro,loop"@, image@, self.dir@]);
        Task::once(c, "loop-mounting ".to_owned().concat(image).as_str())
    }

    /// Mount of a freshly formatted partition; the two commands together are
    /// tried as often as the fallback says.
    pub fn rw(&self, node: &str) -> (t: MountTask)
        ensures
            t.first@ == cmd("mount"@, seq![node@, self.dir@]),
            t.fallback@ == retried(
                cmd("mount"@, seq!["-t"@, "ntfs-3g"@, node@, self.dir@]),
                "mounting "@ + node@,
            ),
    {
        let first = Cmd::new("mount").arg(node).arg(self.dir.as_str());
        assert(first@.args =~= seq![node@, self.dir@]);
        let c = Cmd::new("mount").arg("-t").arg("ntfs-3g").arg(node).arg(self.dir.as_str());
        assert(c@.args =~= seq!["-t"@, "ntfs-3g"@, node@, self.dir@]);
        MountTask {
            first,
            fallback: Task::retried(c, "mounting ".to_owned().concat(node).as_str()),
        }
    }

    pub fn umount_cmd(&self) -> (c: Cmd)
        ensures
            c@ == cmd("umount"@, seq![self.dir@]),
    {
        let c = Cmd::new("umount").arg(self.dir.as_str());
        assert(c@.args =~= seq![self.dir@]);
        c
    }

    pub fn lazy_umount_cmd(&self) -> (c: Cmd)
        ensures
            c@ == cmd("umount"@, seq!["-l"@, self.dir@]),
    {
        let c = Cmd::new("umount").arg("-l").arg(self.dir.as_str());
        assert(c@.args =~= seq!["-l"@, self.dir@]);
        c
    }

    /// Three tries, with a longer wait behind each that failed.
    pub fn after_umount(tries: u64, ok: bool) -> (r: Unmount)
        ensures
            r == if ok {
                Unmount::Done
            } else if tries < 3 {
                Unmount::Again((250 * tries) as u64)
            } else {
                Unmount::Busy(750)
            },
    {
        if ok {
            Unmount::Done
        } else if tries < 3 {
            Unmount::Again(250 * tries)
        } else {
            Unmount::Busy(750)
        }
    }

    pub fn busy_text(&self) -> (m: String)
        ensures
            m@ == "unmount "@ + self.dir@ + ": busy even for lazy unmount"@,
    {
        "unmount ".to_owned().concat(self.dir.as_str()).concat(": busy even for lazy unmount")
    }
}

/// The command that attaches a disk file to a loop device.
pub fn attach_vhdx(path: &str) -> (t: Task)
    ensures
        t@ == once(
            cmd("losetup"@, seq!["-f"@, "--show"@, "-P"@, path@]),
            "losetup attach VHDX"@,
        ),
{
    let c = Cmd::new("losetup").arg("-f").arg("--show").arg("-P").arg(path);
    assert(c@.args =~= seq!["-f"@, "--show"@, "-P"@, path@]);
    Task::once(c, "losetup attach VHDX")
}

/// The loop device that `losetup` names; None where it names none.
pub fn attached_device(out: &str) -> (r: Option<String>)
    ensures
        match r {
            Some(d) => d@ == trim(out@) && d@.len() > 0,
            None => trim(out@).len() == 0,
        },
{
    let t: Vec<char> = trim_chars(&to_chars(out));
    if t.len() == 0 {
        None
    } else {
        let d: String = from_chars(&t, 0, t.len());
        assert(d@ =~= trim(out@));
        Some(d)
    }
}

/// The command that detaches a loop device.
pub fn detach_vhdx(loop_dev: &str) -> (t: Task)
    ensures
        t@ == once(cmd("losetup"@, seq!["-d"@, loop_dev@]), "losetup detach VHDX"@),
{
    let c = Cmd::new("losetup").arg("-d").arg(loop_dev);
    assert(c@.args =~= seq!["-d"@, loop_dev@]);
    Task::once(c, "losetup detach VHDX")
}

/// The command that writes a bootloader image to a partition.
pub fn dd_to_node(file: &str, node: &str) -> (t: Task)
    ensures
        t@ == retried(
            cmd(
                "dd"@,
                seq!["if="@ + file@, "of="@ + node@, "bs=4M"@, "conv=fsync"@, "status=none"@],
            ),
            "writing bootloader image"@,
        ),
{
    let c = Cmd::new("dd").arg("if=".to_owned().concat(file).as_str()).arg(
        "of=".to_owned().concat(node).as_str(),
    ).arg("bs=4M").arg("conv=fsync").arg("status=none");
    assert(c@.args =~= seq![
        "if="@ + file@,
        "of="@ + node@,
        "bs=4M"@,
        "conv=fsync"@,
        "status=none"@,
    ]);
    Task::retried(c, "writing bootloader image")
}

} // verus!
