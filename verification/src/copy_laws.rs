//! What copying a tree, writing an image and mounting mean for the files.

use crate::commands::{cmd, once, retried, tail};
use crate::copy::{
    archive_spellings, grown_by, items_of, part_name, step_of, too_large, top_len, unsplittable,
    wrap64, ItemModel, TopEntry,
};
use crate::mounts::Mount;
use crate::path_laws::{law_path_comes_apart, law_renamed_beside, law_stem, plain_dir, plain_name};
use crate::text::{dec, ends_with, lower};
use crate::tree::FileModel;
use crate::write::{chunk_error, first_difference, written_text, CHUNK_SIZE};
use vstd::prelude::*;
use vstd::string::*;

verus! {

/// Every file of a tree becomes one item, in order, with its path and size; it
/// is split if and only if there is a limit and it is larger.
pub proof fn law_every_file_is_an_item(files: Seq<FileModel>, limit: Option<u64>, i: int)
    requires
        0 <= i < files.len(),
    ensures
        ({
            let items = items_of(files, limit);
            &&& items.len() == files.len()
            &&& items[i].rel == files[i].rel
            &&& items[i].size == files[i].len
            &&& items[i].split <==> limit is Some && files[i].len > limit->0
        }),
{
}

/// A file stands in the way if and only if it is larger than the limit and no
/// archive that may be split; the error names it.
pub proof fn law_what_cannot_be_split(f: FileModel, limit: Option<u64>, allow_split: bool)
    ensures
        limit is None ==> !unsplittable(f, limit, allow_split),
        limit is Some ==> (unsplittable(f, limit, allow_split) <==> f.len > limit->0 && !(
        allow_split && (ends_with(lower(f.name), ".wim"@) || ends_with(lower(f.name), ".esd"@)))),
        too_large(f.rel) == f.rel + " exceeds the FAT32 4 GiB limit and cannot be split"@,
{
}

/// A file is copied to the place below the new root that it had below the old
/// one, with its size.
pub proof fn law_copy_keeps_places(
    items: Seq<ItemModel>,
    src_root: Seq<char>,
    dst_root: Seq<char>,
    i: int,
)
    requires
        0 <= i < items.len(),
        plain_dir(src_root),
        plain_dir(dst_root),
        items[i].rel.len() > 0,
        items[i].rel[0] != '/',
        !items[i].split,
    ensures
        ({
            let s = step_of(items, src_root, dst_root, i);
            &&& s.src == src_root + seq!['/'] + items[i].rel
            &&& s.dst == dst_root + seq!['/'] + items[i].rel
            &&& s.size == items[i].size
            &&& !s.split
        }),
{
    let rel = items[i].rel;
    assert(src_root.push('/') + rel =~= src_root + seq!['/'] + rel);
    assert(dst_root.push('/') + rel =~= dst_root + seq!['/'] + rel);
}

/// An archive that is split goes to where it would have been copied, its
/// extension replaced by `swm`.
#[verifier::rlimit(40)]
pub proof fn law_split_goes_beside(
    items: Seq<ItemModel>,
    src_root: Seq<char>,
    dst_root: Seq<char>,
    i: int,
    dir: Seq<char>,
    name: Seq<char>,
    ext: Seq<char>,
)
    requires
        0 <= i < items.len(),
        plain_dir(src_root),
        plain_dir(dst_root),
        plain_dir(dir),
        dir[0] != '/',
        dir != seq!['.'],
        plain_name(name),
        !ext.contains('.'),
        !ext.contains('/'),
        items[i].rel == dir + seq!['/'] + (name + seq!['.'] + ext),
        items[i].split,
    ensures
        ({
            let s = step_of(items, src_root, dst_root, i);
            &&& s.src == src_root + seq!['/'] + items[i].rel
            &&& s.dst == dst_root + seq!['/'] + dir + seq!['/'] + name + ".swm"@
            &&& s.size == items[i].size
            &&& s.split
        }),
{
    reveal_strlit(".swm");
    let rel = items[i].rel;
    let full = name + seq!['.'] + ext;
    let part = name + ".swm"@;
    let place = dst_root + seq!['/'] + dir;
    assert(rel[0] == dir[0]);
    assert(src_root.push('/') + rel =~= src_root + seq!['/'] + rel);
    assert(dst_root.push('/') + rel =~= place + seq!['/'] + full);
    lemma_dotted(name, seq!['.'] + ext);
    assert(name + (seq!['.'] + ext) =~= full);
    lemma_dotted(name, ".swm"@);
    law_stem(name, ext);
    assert(place.last() == dir.last());
    assert(plain_dir(place)) by {
        if dir.len() > 1 {
            assert(place[place.len() - 2] == dir[dir.len() - 2]);
        } else if dir.last() == '.' {
            lemma_dot_dir(dir);
        }
    }
    law_path_comes_apart(place, full);
    law_renamed_beside(place, full, part);
    assert(place + seq!['/'] + part =~= dst_root + seq!['/'] + dir + seq!['/'] + name + ".swm"@);
}

proof fn lemma_dot_dir(dir: Seq<char>)
    requires
        dir.len() == 1,
        dir[0] == '.',
    ensures
        dir == seq!['.'],
{
    assert(dir =~= seq!['.']);
}

proof fn lemma_dotted(name: Seq<char>, ext: Seq<char>)
    requires
        plain_name(name),
        ext.len() > 0,
        ext[0] == '.',
        !ext.contains('/'),
    ensures
        plain_name(name + ext),
{
    let n = name + ext;
    assert forall|k: int| 0 <= k < n.len() implies n[k] != '/' by {
        if k < name.len() {
            assert(name.contains(name[k]));
        } else {
            assert(ext.contains(ext[k - name.len()]));
        }
    }
    assert(n.len() >= 2 && seq!['.'].len() == 1);
    if n == seq!['.', '.'] {
        assert(seq!['.', '.'].len() == 2 && n.len() == 2);
        assert(seq!['.', '.'][0] == '.');
        assert(n[0] == name[0]);
        assert(name =~= seq!['.']);
    }
}

/// The parts of a split archive are numbered behind its name.
pub proof fn law_parts_are_numbered(name: Seq<char>, n: nat)
    ensures
        part_name(name + ".swm"@, n as int) == name + dec(n) + ".swm"@,
{
    reveal_strlit(".swm");
    let first = name + ".swm"@;
    assert(first.take(first.len() - 4) =~= name);
}

/// What has been written of the continuations: their sizes up to the first that
/// is missing.
pub proof fn law_parts_up_to_a_gap(k: u64, rest: Seq<Option<u64>>)
    ensures
        grown_by(seq![]) == 0,
        grown_by(seq![None] + rest) == 0,
        grown_by(seq![Some(k)] + rest) == k + grown_by(rest),
{
    assert((seq![Some(k)] + rest).drop_first() =~= rest);
}

/// The size of the top of a tree counts its files and no directory.
pub proof fn law_top_counts_files(top: Seq<TopEntry>, e: TopEntry)
    ensures
        top_len(seq![]) == 0,
        e.is_dir ==> top_len(top.push(e)) == top_len(top),
        !e.is_dir ==> top_len(top.push(e)) == top_len(top) + e.len,
{
    assert(top.push(e).drop_last() =~= top);
}

/// Sums are kept modulo 2^64.
pub proof fn law_sums_wrap(n: int)
    ensures
        0 <= wrap64(n) < 0x1_0000_0000_0000_0000,
        0 <= n < 0x1_0000_0000_0000_0000 ==> wrap64(n) == n,
        wrap64(n + 0x1_0000_0000_0000_0000) == wrap64(n),
{
}

/// An archive is looked for as `install.wim` before it is looked for as
/// `install.esd`, in the directory `sources`, however the two are spelled; in
/// lower case first.
#[verifier::rlimit(40)]
pub proof fn law_where_archives_are(i: int)
    requires
        0 <= i < archive_spellings().len(),
    ensures
        archive_spellings().len() == 6,
        i < 3 ==> lower(archive_spellings()[i]) == "/sources/install.wim"@,
        i >= 3 ==> lower(archive_spellings()[i]) == "/sources/install.esd"@,
        archive_spellings()[0] == "/sources/install.wim"@,
        archive_spellings()[3] == "/sources/install.esd"@,
        archive_spellings()[1] == "/SOURCES/INSTALL.WIM"@,
        archive_spellings()[4] == "/SOURCES/INSTALL.ESD"@,
        archive_spellings()[2] == "/sources/INSTALL.WIM"@,
        archive_spellings()[5] == "/sources/INSTALL.ESD"@,
{
    reveal_strlit("/sources/install.wim");
    reveal_strlit("/SOURCES/INSTALL.WIM");
    reveal_strlit("/sources/INSTALL.WIM");
    reveal_strlit("/sources/install.esd");
    reveal_strlit("/SOURCES/INSTALL.ESD");
    reveal_strlit("/sources/INSTALL.ESD");
    assert(lower("/sources/install.wim"@) =~= "/sources/install.wim"@);
    assert(lower("/SOURCES/INSTALL.WIM"@) =~= "/sources/install.wim"@);
    assert(lower("/sources/INSTALL.WIM"@) =~= "/sources/install.wim"@);
    assert(lower("/sources/install.esd"@) =~= "/sources/install.esd"@);
    assert(lower("/SOURCES/INSTALL.ESD"@) =~= "/sources/install.esd"@);
    assert(lower("/sources/INSTALL.ESD"@) =~= "/sources/install.esd"@);
}

// ---- verifying a write ----------------------------------------------------------------

/// The error for a chunk that was read back wrong names the first byte that
/// differs; that for a device that ends too soon, how much is missing.
pub proof fn law_errors_name_the_place(src: Seq<u8>, dst: Seq<u8>, offset: int, k: int)
    requires
        0 <= offset,
    ensures
        dst.len() < src.len() ==> chunk_error(src, dst, offset) == Some(
            "destination shorter than image: missing "@ + dec((src.len() - dst.len()) as nat)
                + " bytes at offset "@ + dec(offset as nat),
        ),
        src.len() <= dst.len() && 0 <= k < src.len() && src[k] != dst[k] && offset + k
            < 0x1_0000_0000_0000_0000 && (forall|i: int|
            0 <= i < k ==> #[trigger] src[i] == dst[i]) ==> chunk_error(src, dst, offset) == Some(
            "verification mismatch at offset "@ + dec((offset + k) as nat),
        ),
{
    if src.len() <= dst.len() && 0 <= k < src.len() && src[k] != dst[k] && offset + k
        < 0x1_0000_0000_0000_0000 && (forall|i: int|
        0 <= i < k ==> #[trigger] src[i] == dst[i]) {
        lemma_first_difference(src, dst, k);
        assert(dst.take(src.len() as int)[k] == dst[k]);
    }
}

proof fn lemma_first_difference(a: Seq<u8>, b: Seq<u8>, k: int)
    requires
        0 <= k < a.len(),
        k < b.len(),
        a[k] != b[k],
        forall|i: int| 0 <= i < k ==> #[trigger] a[i] == b[i],
    ensures
        first_difference(a, b) == k,
    decreases k,
{
    if k > 0 {
        assert(a[0] == b[0]);
        let x = a.drop_first();
        let y = b.drop_first();
        assert forall|i: int| 0 <= i < k - 1 implies #[trigger] x[i] == y[i] by {
            assert(a[i + 1] == b[i + 1]);
        }
        lemma_first_difference(x, y, k - 1);
    }
}

/// An image is written 4 MiB at a time.
pub proof fn law_chunk_size()
    ensures
        CHUNK_SIZE == 4 * 1024 * 1024,
{
}

/// What is said of a finished write names the device, and says that it was
/// verified if and only if it was.
pub proof fn law_words_of_a_write(device: Seq<char>)
    ensures
        written_text(true, device) == "image written and verified to "@ + device,
        written_text(false, device) == "image written to "@ + device,
{
}

// ---- commands --------------------------------------------------------------------------

/// Commands and tasks: a command has a program and arguments and reads nothing,
/// a task is tried once, or up to four times, 600 ms apart, where a fresh node
/// may be held for a moment.
pub proof fn law_tasks(program: Seq<char>, args: Seq<Seq<char>>, context: Seq<char>)
    ensures
        ({
            let c = cmd(program, args);
            &&& c.program == program && c.args == args && c.stdin is None
            &&& once(c, context).cmd == c && once(c, context).context == context
            &&& once(c, context).attempts == 1
            &&& retried(c, context).cmd == c && retried(c, context).context == context
            &&& retried(c, context).attempts == 4
            &&& retried(c, context).delay_ms == 600
        }),
{
}

/// The tail of a text is its last characters, all of them where there are no
/// more.
pub proof fn law_tail(s: Seq<char>, n: int)
    requires
        0 <= n,
    ensures
        s.len() <= n ==> tail(s, n) == s,
        s.len() > n ==> tail(s, n).len() == n && tail(s, n) == s.skip(s.len() - n),
{
}

/// The directory of a mount names the process, a number and what it is for.
pub proof fn law_mount_names(pid: nat, n: nat, tag: Seq<char>)
    ensures
        Mount::dir_name(pid as int, n as int, tag) == "ferrus-mnt-"@ + dec(pid) + "-"@ + dec(n)
            + "-"@ + tag,
{
}

} // verus!
