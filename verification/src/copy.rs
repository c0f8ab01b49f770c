//! Copying the tree of an image: which files are copied, which are split, and
//! how far the copy has come.

use crate::commands::{cmd, tail, tail_chars, Cmd};
use crate::iso::{is_wimish, wimish, FAT32_MAX_FILE};
use crate::paths::{
    file_name, join, path_file_name, path_join, path_stem, path_with_file_name, stem,
    with_file_name,
};
use crate::text::{
    dec, dec_string, ends_with, from_chars, opt_view, parse_number, parse_u64, push_dec, to_chars,
};
use crate::tree::{file_models, FileEntry, FileModel};
use vstd::prelude::*;
use vstd::string::*;

verus! {

/// What happens to a file of the tree.
#[derive(Debug, Clone, PartialEq, Eq)]
pub struct Item {
    /// Path from the root of the tree.
    pub rel: String,
    pub size: u64,
    /// Split into `.swm` parts in place of a copy.
    pub split: bool,
}

pub struct ItemModel {
    pub rel: Seq<char>,
    pub size: int,
    pub split: bool,
}

impl Item {
    pub open spec fn view(self) -> ItemModel {
        ItemModel { rel: self.rel@, size: self.size as int, split: self.split }
    }
}

pub open spec fn item_models(items: Seq<Item>) -> Seq<ItemModel> {
    items.map_values(|i: Item| i@)
}

/// Whether a file is beyond the limit, where there is one.
pub open spec fn beyond(len: int, limit: Option<u64>) -> bool {
    limit matches Some(l) && len > l
}

/// A file that is too large and cannot be split.
pub open spec fn unsplittable(f: FileModel, limit: Option<u64>, allow_split: bool) -> bool {
    beyond(f.len, limit) && !(allow_split && wimish(f.name))
}

/// What happens to each file.
pub open spec fn items_of(files: Seq<FileModel>, limit: Option<u64>) -> Seq<ItemModel> {
    files.map_values(
        |f: FileModel| ItemModel { rel: f.rel, size: f.len, split: beyond(f.len, limit) },
    )
}

pub open spec fn too_large(rel: Seq<char>) -> Seq<char> {
    rel + " exceeds the FAT32 4 GiB limit and cannot be split"@
}

/// Sorts the files of a tree into copies and splits. A file that is too large
/// and cannot be split is an error, which names the first of them.
pub fn collect_items(files: &Vec<FileEntry>, skip_limit: Option<u64>, allow_split: bool) -> (r:
    Result<Vec<Item>, String>)
    ensures
        match r {
            Ok(items) => item_models(items@) == items_of(file_models(files@), skip_limit)
                && forall|i: int|
                0 <= i < files@.len() ==> !unsplittable(
                    #[trigger] file_models(files@)[i],
                    skip_limit,
                    allow_split,
                ),
            Err(e) => exists|i: int|
                {
                    &&& 0 <= i < files@.len()
                    &&& unsplittable(#[trigger] file_models(files@)[i], skip_limit, allow_split)
                    &&& e@ == too_large(file_models(files@)[i].rel)
                    &&& forall|j: int|
                        0 <= j < i ==> !unsplittable(
                            #[trigger] file_models(files@)[j],
                            skip_limit,
                            allow_split,
                        )
                },
        },
{
    let ghost all = file_models(files@);
    let mut items: Vec<Item> = Vec::new();
    let mut i: usize = 0;
    assert(item_models(items@) =~= items_of(all.take(0), skip_limit));
    while i < files.len()
        invariant
            i <= files@.len(),
            all == file_models(files@),
            item_models(items@) == items_of(all.take(i as int), skip_limit),
            forall|j: int|
                0 <= j < i ==> !unsplittable(#[trigger] all[j], skip_limit, allow_split),
        decreases files@.len() - i,
    {
        let f: &FileEntry = &files[i];
        assert(all[i as int] == f@);
        let ghost before = items@;
        let oversize: bool = match skip_limit {
            Some(l) => f.len > l,
            None => false,
        };
        if oversize && !(allow_split && is_wimish(f.name.as_str())) {
            let e: String = f.rel.as_str().to_owned().concat(
                " exceeds the FAT32 4 GiB limit and cannot be split",
            );
            return Err(e);
        }
        let item = Item { rel: f.rel.as_str().to_owned(), size: f.len, split: oversize };
        items.push(item);
        i += 1;
        proof {
            assert(item_models(items@) =~= item_models(before).push(item@));
            assert(item_models(items@) =~= items_of(all.take(i as int), skip_limit));
        }
    }
    assert(all.take(i as int) =~= all);
    Ok(items)
}

/// The sizes of items, all together.
pub open spec fn items_len(items: Seq<ItemModel>) -> int
    decreases items.len(),
{
    if items.len() == 0 {
        0
    } else {
        items_len(items.drop_last()) + items.last().size
    }
}

/// The first part of a file that is split: beside its place, `.swm` for its
/// extension.
pub open spec fn first_part(dst: Seq<char>) -> Seq<char> {
    let name = match file_name(dst) {
        Some(n) => stem(n),
        None => seq![],
    };
    with_file_name(dst, name + ".swm"@)
}

/// One file to copy or to split, and the progress that is reported behind it.
#[derive(Debug, Clone, PartialEq, Eq)]
pub struct CopyStep {
    pub src: String,
    pub dst: String,
    pub split: bool,
    pub size: u64,
    /// Bytes done before this file.
    pub before: u64,
    /// Bytes done behind this file.
    pub done: u64,
    pub total: u64,
}

pub struct CopyModel {
    pub src: Seq<char>,
    pub dst: Seq<char>,
    pub split: bool,
    pub size: int,
    pub before: int,
    pub done: int,
    pub total: int,
}

impl CopyStep {
    pub open spec fn view(self) -> CopyModel {
        CopyModel {
            src: self.src@,
            dst: self.dst@,
            split: self.split,
            size: self.size as int,
            before: self.before as int,
            done: self.done as int,
            total: self.total as int,
        }
    }

    /// What is reported of this file.
    pub fn phase(&self) -> (s: &'static str)
        ensures
            s@ == if self.split {
                "splitting WIM"@
            } else {
                "copying files"@
            },
    {
        if self.split {
            "splitting WIM"
        } else {
            "copying files"
        }
    }
}

pub open spec fn wrap64(n: int) -> int {
    n % 0x1_0000_0000_0000_0000
}

pub open spec fn at_most(n: int, limit: int) -> int {
    if n < limit {
        n
    } else {
        limit
    }
}

/// The step for item `i`. Sums are modulo 2^64.
pub open spec fn step_of(
    items: Seq<ItemModel>,
    src_root: Seq<char>,
    dst_root: Seq<char>,
    i: int,
) -> CopyModel {
    let it = items[i];
    let dst = join(dst_root, it.rel);
    let total = wrap64(items_len(items));
    CopyModel {
        src: join(src_root, it.rel),
        dst: if it.split {
            first_part(dst)
        } else {
            dst
        },
        split: it.split,
        size: it.size,
        before: wrap64(items_len(items.take(i))),
        done: at_most(wrap64(items_len(items.take(i + 1))), total),
        total,
    }
}

/// The place of the first part of a split file.
pub fn first_swm(dst: &str) -> (r: String)
    ensures
        r@ == first_part(dst@),
{
    let name: String = match path_file_name(dst) {
        Some(n) => path_stem(n.as_str()),
        None => String::new(),
    };
    path_with_file_name(dst, name.concat(".swm").as_str())
}

fn sum_items(items: &Vec<Item>) -> (n: u64)
    ensures
        n == wrap64(items_len(item_models(items@))),
{
    let ghost all = item_models(items@);
    let mut n: u64 = 0;
    let mut i: usize = 0;
    while i < items.len()
        invariant
            i <= items@.len(),
            all == item_models(items@),
            n == wrap64(items_len(all.take(i as int))),
        decreases items@.len() - i,
    {
        proof {
            assert(all.take(i + 1).drop_last() =~= all.take(i as int));
            assert(all.take(i + 1).last() == items@[i as int]@);
        }
        n = n.wrapping_add(items[i].size);
        i += 1;
    }
    assert(all.take(i as int) =~= all);
    n
}

/// The steps that copy `items` from one root to another.
pub fn copy_steps(items: &Vec<Item>, src_root: &str, dst_root: &str) -> (steps: Vec<CopyStep>)
    ensures
        steps@.len() == items@.len(),
        forall|i: int|
            0 <= i < items@.len() ==> (#[trigger] steps@[i])@ == step_of(
                item_models(items@),
                src_root@,
                dst_root@,
                i,
            ),
{
    let ghost all = item_models(items@);
    let total: u64 = sum_items(items);
    let mut steps: Vec<CopyStep> = Vec::new();
    let mut done: u64 = 0;
    let mut i: usize = 0;
    while i < items.len()
        invariant
            i <= items@.len(),
            all == item_models(items@),
            total == wrap64(items_len(all)),
            done == wrap64(items_len(all.take(i as int))),
            steps@.len() == i,
            forall|j: int|
                0 <= j < i ==> (#[trigger] steps@[j])@ == step_of(all, src_root@, dst_root@, j),
        decreases items@.len() - i,
    {
        let it: &Item = &items[i];
        let before: u64 = done;
        done = done.wrapping_add(it.size);
        proof {
            assert(all[i as int] == it@);
            assert(all.take(i + 1).drop_last() =~= all.take(i as int));
            assert(all.take(i + 1).last() == it@);
        }
        let place: String = path_join(dst_root, it.rel.as_str());
        let dst: String = if it.split { first_swm(place.as_str()) } else { place };
        let step = CopyStep {
            src: path_join(src_root, it.rel.as_str()),
            dst,
            split: it.split,
            size: it.size,
            before,
            done: if done < total { done } else { total },
            total,
        };
        assert(step@ == step_of(all, src_root@, dst_root@, i as int));
        steps.push(step);
        i += 1;
    }
    steps
}

/// Behind the last file everything is done, and the progress never goes back,
/// as long as the sizes together stay below 2^64.
pub proof fn law_copy_progress(
    items: Seq<ItemModel>,
    src_root: Seq<char>,
    dst_root: Seq<char>,
    i: int,
)
    requires
        0 <= i < items.len(),
        forall|k: int| 0 <= k < items.len() ==> 0 <= (#[trigger] items[k]).size,
        items_len(items) < 0x1_0000_0000_0000_0000,
    ensures
        ({
            let s = step_of(items, src_root, dst_root, i);
            &&& s.before + s.size == s.done <= s.total
            &&& i == items.len() - 1 ==> s.done == s.total == items_len(items)
            &&& i > 0 ==> step_of(items, src_root, dst_root, i - 1).done == s.before
        }),
{
    lemma_items_len(items, i);
    lemma_items_len(items, i + 1);
    assert(items.take(i + 1).drop_last() =~= items.take(i));
    assert(items.take(items.len() as int) =~= items);
    assert(items.take(i + 1).last() == items[i]);
}

proof fn lemma_items_len(items: Seq<ItemModel>, k: int)
    requires
        0 <= k <= items.len(),
        forall|k: int| 0 <= k < items.len() ==> 0 <= (#[trigger] items[k]).size,
    ensures
        0 <= items_len(items.take(k)) <= items_len(items),
    decreases items.len(),
{
    if items.len() == 0 {
        assert(items.take(k) =~= items);
    } else {
        let front = items.drop_last();
        assert forall|k: int| 0 <= k < front.len() implies 0 <= (#[trigger] front[k]).size by {
            assert(front[k] == items[k]);
        }
        assert(items[items.len() - 1].size >= 0);
        if k == items.len() {
            assert(items.take(k) =~= items);
            lemma_items_len(front, front.len() as int);
            assert(front.take(front.len() as int) =~= front);
        } else {
            lemma_items_len(front, k);
            assert(front.take(k) =~= items.take(k));
        }
    }
}

// ---- splitting ---------------------------------------------------------------

/// The largest file that is copied as it is: what the environment says, if it
/// is a number, else the limit of FAT32.
pub fn split_limit(env: Option<&str>) -> (n: u64)
    ensures
        n == match opt_view(env) {
            Some(v) => match parse_number(v, u64::MAX as int) {
                Some(k) => k as u64,
                None => FAT32_MAX_FILE,
            },
            None => FAT32_MAX_FILE,
        },
{
    match env {
        Some(v) => match parse_u64(v) {
            Some(k) => k,
            None => FAT32_MAX_FILE,
        },
        None => FAT32_MAX_FILE,
    }
}

/// The command that splits an archive into parts of 3800 MiB; parts of 1 MiB
/// where the limit was shrunk for a test.
pub fn split_cmd(src: &str, first: &str, small_parts: bool) -> (c: Cmd)
    ensures
        c@ == cmd(
            "wimlib-imagex"@,
            seq![
                "split"@,
                src@,
                first@,
                if small_parts {
                    "1"@
                } else {
                    "3800"@
                },
            ],
        ),
{
    let c = Cmd::new("wimlib-imagex").arg("split").arg(src).arg(first).arg(
        if small_parts { "1" } else { "3800" },
    );
    assert(c@.args =~= seq![
        "split"@,
        src@,
        first@,
        if small_parts {
            "1"@
        } else {
            "3800"@
        },
    ]);
    c
}

/// The continuation `n` of a split: `x2.swm` behind `x.swm`.
pub open spec fn part_name(first: Seq<char>, n: int) -> Seq<char> {
    first.take(first.len() - 4) + dec(n as nat) + ".swm"@
}

pub fn swm_part(first: &str, n: u64) -> (r: String)
    requires
        ends_with(first@, ".swm"@),
    ensures
        r@ == part_name(first@, n as int),
{
    proof {
        reveal_strlit(".swm");
    }
    let v: Vec<char> = to_chars(first);
    let mut r: String = from_chars(&v, 0, v.len() - 4);
    assert(r@ =~= first@.take(first@.len() - 4));
    push_dec(&mut r, n);
    r.append(".swm");
    r
}

/// How much of a split is written: the first part, and the continuations up to
/// the first that is missing. Sums are modulo 2^64.
pub open spec fn grown_by(parts: Seq<Option<u64>>) -> int
    decreases parts.len(),
{
    if parts.len() == 0 || parts[0] is None {
        0
    } else {
        parts[0]->0 + grown_by(parts.drop_first())
    }
}

/// Progress inside a split: what was done before, and what has grown since, no
/// more than the archive.
pub fn split_progress(before: u64, first: Option<u64>, parts: &Vec<Option<u64>>, size: u64) -> (n:
    u64)
    ensures
        n == wrap64(
            before + at_most(
                wrap64(
                    (match first {
                        Some(k) => k as int,
                        None => 0,
                    }) + grown_by(parts@),
                ),
                size as int,
            ),
        ),
{
    let ghost head = match first {
        Some(k) => k as int,
        None => 0,
    };
    let mut grown: u64 = match first {
        Some(k) => k,
        None => 0,
    };
    let mut i: usize = 0;
    assert(parts@.skip(0) =~= parts@);
    while i < parts.len()
        invariant_except_break
            i <= parts@.len(),
            wrap64(grown + grown_by(parts@.skip(i as int))) == wrap64(head + grown_by(parts@)),
        ensures
            grown == wrap64(head + grown_by(parts@)),
        decreases parts@.len() - i,
    {
        proof {
            assert(parts@.skip(i as int)[0] == parts@[i as int]);
            assert(parts@.skip(i as int).drop_first() =~= parts@.skip(i + 1));
        }
        match parts[i] {
            Some(k) => {
                grown = grown.wrapping_add(k);
            },
            None => {
                break ;
            },
        }
        i += 1;
    }
    let g: u64 = if grown < size { grown } else { size };
    before.wrapping_add(g)
}

/// How a child process stands.
#[derive(Debug, Clone, Copy, PartialEq, Eq, Structural)]
pub enum Child {
    Running,
    /// It has exited, with success or not.
    Exited(bool),
    /// Its state cannot be told.
    Lost,
}

/// What is done about a child process.
#[derive(Debug, Clone, Copy, PartialEq, Eq, Structural)]
pub enum ChildAction {
    /// End it: the job was cancelled.
    Kill,
    /// Report progress, wait for so many milliseconds and look again.
    Wait(u64),
    Finish,
    Fail,
    GiveUp,
}

/// Looks after a child process: a cancel goes before everything else.
pub fn watch_child(cancel: bool, child: Child, interval_ms: u64) -> (a: ChildAction)
    ensures
        a == if cancel {
            ChildAction::Kill
        } else {
            match child {
                Child::Running => ChildAction::Wait(interval_ms),
                Child::Exited(ok) => if ok {
                    ChildAction::Finish
                } else {
                    ChildAction::Fail
                },
                Child::Lost => ChildAction::GiveUp,
            }
        },
{
    if cancel {
        return ChildAction::Kill;
    }
    match child {
        Child::Running => ChildAction::Wait(interval_ms),
        Child::Exited(ok) => if ok {
            ChildAction::Finish
        } else {
            ChildAction::Fail
        },
        Child::Lost => ChildAction::GiveUp,
    }
}

/// What is said of a failed `wimlib-imagex`: the last 300 characters of what it
/// wrote to stderr.
pub fn wimlib_failure(verb: &str, status: &str, log: &str) -> (m: String)
    ensures
        m@ == "wimlib-imagex "@ + verb@ + " failed ("@ + status@ + "): "@ + tail(log@, 300),
{
    let mut m: String = "wimlib-imagex ".to_owned();
    m.append(verb);
    m.append(" failed (");
    m.append(status);
    m.append("): ");
    m.append(tail_chars(log, 300).as_str());
    m
}

/// The command that applies an image of an archive; index 0 stands for the
/// first.
pub fn apply_cmd(wim: &str, index: u32, target: &str) -> (c: Cmd)
    ensures
        c@ == cmd(
            "wimlib-imagex"@,
            seq![
                "apply"@,
                wim@,
                dec(
                    if index == 0 {
                        1
                    } else {
                        index as nat
                    },
                ),
                target@,
            ],
        ),
{
    let n: u64 = if index == 0 { 1 } else { index as u64 };
    let c = Cmd::new("wimlib-imagex").arg("apply").arg(wim).arg(dec_string(n).as_str()).arg(target);
    assert(c@.args =~= seq!["apply"@, wim@, dec(n as nat), target@]);
    c
}

/// Spellings under which media keep their archive, in the order in which they
/// are tried.
pub open spec fn archive_spellings() -> Seq<Seq<char>> {
    seq![
        "/sources/install.wim"@,
        "/SOURCES/INSTALL.WIM"@,
        "/sources/INSTALL.WIM"@,
        "/sources/install.esd"@,
        "/SOURCES/INSTALL.ESD"@,
        "/sources/INSTALL.ESD"@,
    ]
}

/// The commands that stream the archive out of an image to `dest`, one for each
/// spelling of its path.
pub fn extract_cmds(iso: &str, dest: &str) -> (r: Vec<Cmd>)
    ensures
        crate::partition::cmd_models(r@) == archive_spellings().map_values(
            |p: Seq<char>|
                cmd(
                    "xorriso"@,
                    seq!["-osirrox"@, "on"@, "-indev"@, iso@, "-extract"@, p, dest@],
                ),
        ),
{
    let mut r: Vec<Cmd> = Vec::new();
    r.push(extract_cmd(iso, "/sources/install.wim", dest));
    r.push(extract_cmd(iso, "/SOURCES/INSTALL.WIM", dest));
    r.push(extract_cmd(iso, "/sources/INSTALL.WIM", dest));
    r.push(extract_cmd(iso, "/sources/install.esd", dest));
    r.push(extract_cmd(iso, "/SOURCES/INSTALL.ESD", dest));
    r.push(extract_cmd(iso, "/sources/INSTALL.ESD", dest));
    assert(crate::partition::cmd_models(r@) =~= archive_spellings().map_values(
        |p: Seq<char>|
            cmd("xorriso"@, seq!["-osirrox"@, "on"@, "-indev"@, iso@, "-extract"@, p, dest@]),
    ));
    r
}

fn extract_cmd(iso: &str, path: &str, dest: &str) -> (c: Cmd)
    ensures
        c@ == cmd(
            "xorriso"@,
            seq!["-osirrox"@, "on"@, "-indev"@, iso@, "-extract"@, path@, dest@],
        ),
{
    let c = Cmd::new("xorriso").arg("-osirrox").arg("on").arg("-indev").arg(iso).arg(
        "-extract",
    ).arg(path).arg(dest);
    assert(c@.args =~= seq!["-osirrox"@, "on"@, "-indev"@, iso@, "-extract"@, path@, dest@]);
    c
}

/// The command that describes an archive.
pub fn info_cmd(wim: &str) -> (c: Cmd)
    ensures
        c@ == cmd("wimlib-imagex"@, seq!["info"@, wim@]),
{
    let c = Cmd::new("wimlib-imagex").arg("info").arg(wim);
    assert(c@.args =~= seq!["info"@, wim@]);
    c
}

/// An entry of the top directory of a tree.
#[derive(Clone, Copy)]
pub struct TopEntry {
    pub is_dir: bool,
    pub len: u64,
}

pub open spec fn top_len(top: Seq<TopEntry>) -> int
    decreases top.len(),
{
    if top.len() == 0 {
        0
    } else {
        top_len(top.drop_last()) + if top.last().is_dir {
            0
        } else {
            top.last().len as int
        }
    }
}

/// Cheap size probe of an applied tree, for progress display: what stands in
/// its top directory, directories aside, modulo 2^64.
pub fn dir_size_approx(top: &Vec<TopEntry>) -> (n: u64)
    ensures
        n == wrap64(top_len(top@)),
{
    let mut n: u64 = 0;
    let mut i: usize = 0;
    while i < top.len()
        invariant
            i <= top@.len(),
            n == wrap64(top_len(top@.take(i as int))),
        decreases top@.len() - i,
    {
        proof {
            assert(top@.take(i + 1).drop_last() =~= top@.take(i as int));
            assert(top@.take(i + 1).last() == top@[i as int]);
        }
        if !top[i].is_dir {
            n = n.wrapping_add(top[i].len);
        }
        i += 1;
    }
    assert(top@.take(i as int) =~= top@);
    n
}

} // verus!
