//! What the classification of an image and the plan chosen for it follow from,
//! in terms of the files and directories of its tree.

use crate::iso::{
    any_oversized, any_stuck, auto_plan, below, by_index, cfg_in, current_index, dir_at, disk_info,
    file_at, first_oversized_wim, largest, linux_flavor, manifest_of, names_of, nonzero_count,
    oversized, stuck, syslinux_dir, total_len, wim_images, wimish, windows_tree, ManifestModel,
};
use crate::iso_laws::{clear_names, distinct, law_lookup_finds, lemma_first};
use crate::paths::join;
use crate::protocol::{FlashPlan, PartitionScheme};
use crate::text::{
    at, contains, dec, is_space, law_dec_parses, law_find_is_first, law_trim, lower, starts_with,
    trim,
};
use crate::tree::{
    any_case, entries, exact, exists_at, files_in, first, is_dir, is_file, named, text_of,
    FileModel, Kind, Node,
};
use vstd::prelude::*;

verus! {

// ---- what a tree holds ---------------------------------------------------------

/// Whether a directory has an entry of this name, given in lower case, in
/// whatever case.
pub open spec fn has_entry(nodes: Seq<Node>, name: Seq<char>) -> bool {
    exists|i: int| 0 <= i < nodes.len() && lower((#[trigger] nodes[i]).name@) == name
}

/// Whether a directory has a subdirectory of this name in whatever case.
pub open spec fn has_subdir(nodes: Seq<Node>, name: Seq<char>) -> bool {
    exists|i: int|
        0 <= i < nodes.len() && lower((#[trigger] nodes[i]).name@) == name && is_dir(nodes[i].kind)
}

/// Whether a tree has `sources` with an entry of this name in it.
pub open spec fn has_source(root: Seq<Node>, name: Seq<char>) -> bool {
    exists|i: int|
        0 <= i < root.len() && lower((#[trigger] root[i]).name@) == "sources"@ && has_entry(
            entries(root[i].kind),
            name,
        )
}

/// Whether the text of `.disk/info` has this word, given in lower case, in
/// whatever case.
pub open spec fn info_says(root: Seq<Node>, word: Seq<char>) -> bool {
    exists|i: int, j: int, k: int|
        #![trigger root[i], entries(root[i].kind)[j], at(lower(text_of(entries(root[i].kind)[j].kind)->0), word, k)]
        {
            &&& 0 <= i < root.len()
            &&& lower(root[i].name@) == ".disk"@
            &&& 0 <= j < entries(root[i].kind).len()
            &&& lower(entries(root[i].kind)[j].name@) == "info"@
            &&& text_of(entries(root[i].kind)[j].kind) is Some
            &&& at(lower(text_of(entries(root[i].kind)[j].kind)->0), word, k)
        }
}

proof fn lemma_lower_literals()
    ensures
        lower("bootmgr"@) == "bootmgr"@,
        lower("sources"@) == "sources"@,
        lower("install.wim"@) == "install.wim"@,
        lower("install.esd"@) == "install.esd"@,
        lower(".disk"@) == ".disk"@,
        lower("info"@) == "info"@,
        lower("casper"@) == "casper"@,
        lower("live"@) == "live"@,
{
    reveal_strlit("bootmgr");
    reveal_strlit("sources");
    reveal_strlit("install.wim");
    reveal_strlit("install.esd");
    reveal_strlit(".disk");
    reveal_strlit("info");
    reveal_strlit("casper");
    reveal_strlit("live");
    assert(lower("bootmgr"@) =~= "bootmgr"@);
    assert(lower("sources"@) =~= "sources"@);
    assert(lower("install.wim"@) =~= "install.wim"@);
    assert(lower("install.esd"@) =~= "install.esd"@);
    assert(lower(".disk"@) =~= ".disk"@);
    assert(lower("info"@) =~= "info"@);
    assert(lower("casper"@) =~= "casper"@);
    assert(lower("live"@) =~= "live"@);
}

proof fn lemma_has_entry(nodes: Seq<Node>, name: Seq<char>)
    requires
        distinct(nodes),
        lower(name) == name,
    ensures
        has_entry(nodes, name) <==> any_case(nodes, name) is Some,
{
    law_lookup_finds(nodes, name);
}

/// A tree is a Windows install medium if and only if it has `bootmgr`, and
/// `install.wim` or `install.esd` in `sources`.
pub proof fn law_windows_media(root: Seq<Node>)
    requires
        clear_names(root),
    ensures
        windows_tree(root) <==> has_entry(root, "bootmgr"@) && (has_source(root, "install.wim"@)
            || has_source(root, "install.esd"@)),
{
    lemma_lower_literals();
    lemma_has_entry(root, "bootmgr"@);
    law_lookup_finds(root, "sources"@);
    match any_case(root, "sources"@) {
        Some(s) => {
            let i = choose|i: int| 0 <= i < root.len() && #[trigger] root[i] == s;
            assert(root[i] == s && lower(root[i].name@) == "sources"@);
            assert(distinct(entries(root[i].kind)));
            lemma_has_entry(entries(s.kind), "install.wim"@);
            lemma_has_entry(entries(s.kind), "install.esd"@);
            if windows_tree(root) {
                assert(has_source(root, "install.wim"@) || has_source(root, "install.esd"@));
            }
        },
        None => {},
    }
}

proof fn lemma_has_subdir(root: Seq<Node>, name: Seq<char>)
    requires
        distinct(root),
        lower(name) == name,
    ensures
        has_subdir(root, name) <==> dir_at(root, name),
{
    law_lookup_finds(root, name);
}

proof fn lemma_info_says(root: Seq<Node>, word: Seq<char>)
    requires
        clear_names(root),
        word.len() > 0,
    ensures
        info_says(root, word) <==> contains(disk_info(root), word),
{
    lemma_lower_literals();
    law_lookup_finds(root, ".disk"@);
    law_find_is_first(disk_info(root), word);
    match any_case(root, ".disk"@) {
        Some(d) => {
            let i = choose|i: int| 0 <= i < root.len() && #[trigger] root[i] == d;
            assert(root[i] == d);
            assert(distinct(entries(root[i].kind)));
            law_lookup_finds(entries(d.kind), "info"@);
            match any_case(entries(d.kind), "info"@) {
                Some(n) => {
                    let j = choose|j: int|
                        0 <= j < entries(d.kind).len() && #[trigger] entries(d.kind)[j] == n;
                    assert(entries(root[i].kind)[j] == n);
                    if contains(disk_info(root), word) {
                        let k = choose|k: int| #[trigger] at(disk_info(root), word, k);
                        assert(text_of(n.kind) is Some);
                        assert(at(lower(text_of(entries(root[i].kind)[j].kind)->0), word, k));
                    }
                },
                None => {},
            }
        },
        None => {},
    }
    if contains(disk_info(root), word) {
        assert(disk_info(root).len() > 0);
    }
}

/// The persistence convention of a live image follows from its directories and
/// from what `.disk/info` says. `casper-rw` is given only where there is
/// `casper`, or Ubuntu or Mint is named; `persistence` only where there is
/// `live`, or Debian is named. Without any of these, and for Windows media,
/// there is none.
#[verifier::rlimit(40)]
pub proof fn law_flavor_follows_the_tree(root: Seq<Node>)
    requires
        clear_names(root),
    ensures
        ({
            let casper = has_subdir(root, "casper"@);
            let live = has_subdir(root, "live"@);
            let ubuntu = info_says(root, "ubuntu"@);
            let mint = info_says(root, "mint"@);
            let debian = info_says(root, "debian"@);
            let flavor = linux_flavor(root);
            &&& windows_tree(root) ==> flavor is None
            &&& !windows_tree(root) && debian && !ubuntu ==> flavor == Some("persistence"@)
            &&& !windows_tree(root) && ubuntu ==> flavor == Some("casper-rw"@)
            &&& !windows_tree(root) && !debian && (casper || mint) ==> flavor == Some(
                "casper-rw"@,
            )
            &&& !windows_tree(root) && live && !casper && !ubuntu && !mint ==> flavor == Some(
                "persistence"@,
            )
            &&& !windows_tree(root) && !live && !casper && !ubuntu && !mint && !debian
                ==> flavor is None
            &&& flavor == Some("casper-rw"@) ==> casper || ubuntu || mint
            &&& flavor == Some("persistence"@) ==> live || debian
            &&& flavor is None || flavor == Some("casper-rw"@) || flavor == Some("persistence"@)
        }),
{
    lemma_lower_literals();
    lemma_has_subdir(root, "casper"@);
    lemma_has_subdir(root, "live"@);
    reveal_strlit("ubuntu");
    reveal_strlit("mint");
    reveal_strlit("debian");
    reveal_strlit("casper-rw");
    reveal_strlit("persistence");
    assert("casper-rw"@.len() != "persistence"@.len());
    lemma_info_says(root, "ubuntu"@);
    lemma_info_says(root, "mint"@);
    lemma_info_says(root, "debian"@);
}

// ---- loader configurations --------------------------------------------------------

/// No two entries have one and the same name.
pub open spec fn exact_distinct(nodes: Seq<Node>) -> bool {
    forall|i: int, j: int|
        0 <= i < j < nodes.len() ==> (#[trigger] nodes[i]).name@ != (#[trigger] nodes[j]).name@
}

/// Whether `nodes` has a regular file of exactly this name.
pub open spec fn has_file_named(nodes: Seq<Node>, name: Seq<char>) -> bool {
    exists|i: int|
        0 <= i < nodes.len() && (#[trigger] nodes[i]).name@ == name && is_file(nodes[i].kind)
}

/// Whether `nodes` has the directory `a` with `syslinux.cfg` or `isolinux.cfg`
/// in it.
pub open spec fn has_loader_dir(nodes: Seq<Node>, a: Seq<char>) -> bool {
    exists|i: int|
        0 <= i < nodes.len() && (#[trigger] nodes[i]).name@ == a && is_dir(nodes[i].kind) && (
        has_file_named(entries(nodes[i].kind), "syslinux.cfg"@) || has_file_named(
            entries(nodes[i].kind),
            "isolinux.cfg"@,
        ))
}

/// The same two levels down: `a/b`.
pub open spec fn has_loader_dir_below(nodes: Seq<Node>, a: Seq<char>, b: Seq<char>) -> bool {
    exists|i: int|
        0 <= i < nodes.len() && (#[trigger] nodes[i]).name@ == a && exists_at(nodes[i].kind)
            && has_loader_dir(entries(nodes[i].kind), b)
}

/// Names are unique in the root, below it, and one level further down.
pub open spec fn unique_names(root: Seq<Node>) -> bool {
    &&& exact_distinct(root)
    &&& forall|i: int| 0 <= i < root.len() ==> exact_distinct(entries(#[trigger] root[i].kind))
    &&& forall|i: int, j: int|
        0 <= i < root.len() && 0 <= j < entries(root[i].kind).len() ==> exact_distinct(
            entries(#[trigger] entries(#[trigger] root[i].kind)[j].kind),
        )
}

proof fn lemma_exact(nodes: Seq<Node>, name: Seq<char>)
    requires
        exact_distinct(nodes),
    ensures
        forall|i: int|
            0 <= i < nodes.len() && (#[trigger] nodes[i]).name@ == name && exists_at(nodes[i].kind)
                ==> exact(nodes, name) == Some(nodes[i]),
        exact(nodes, name) matches Some(n) ==> exists|i: int|
            0 <= i < nodes.len() && #[trigger] nodes[i] == n && n.name@ == name && exists_at(
                n.kind,
            ),
{
    let p = named(name);
    lemma_first(nodes, p);
    match exact(nodes, name) {
        Some(n) => {
            let k = choose|k: int| 0 <= k < nodes.len() && #[trigger] nodes[k] == n;
            assert(p(n));
            assert forall|i: int|
                0 <= i < nodes.len() && (#[trigger] nodes[i]).name@ == name && exists_at(
                    nodes[i].kind,
                ) implies exact(nodes, name) == Some(nodes[i]) by {
                if i < k {
                    assert(nodes[i].name@ != nodes[k].name@);
                } else if k < i {
                    assert(nodes[k].name@ != nodes[i].name@);
                }
            }
        },
        None => {
            assert forall|i: int|
                0 <= i < nodes.len() && (#[trigger] nodes[i]).name@ == name && exists_at(
                    nodes[i].kind,
                ) implies exact(nodes, name) == Some(nodes[i]) by {
                assert(!p(nodes[i]));
            }
        },
    }
}

proof fn lemma_dir_exists(k: Kind)
    ensures
        is_dir(k) ==> exists_at(k),
        is_file(k) ==> exists_at(k),
    decreases k,
{
    match k {
        Kind::Link(Some(t)) => {
            lemma_dir_exists(*t);
        },
        _ => {},
    }
}

proof fn lemma_file_named(nodes: Seq<Node>, name: Seq<char>)
    requires
        exact_distinct(nodes),
    ensures
        file_at(nodes, name) <==> has_file_named(nodes, name),
{
    lemma_exact(nodes, name);
    if has_file_named(nodes, name) {
        let i = choose|i: int|
            0 <= i < nodes.len() && (#[trigger] nodes[i]).name@ == name && is_file(nodes[i].kind);
        lemma_dir_exists(nodes[i].kind);
    }
    if file_at(nodes, name) {
        let n = exact(nodes, name)->0;
        let i = choose|i: int| 0 <= i < nodes.len() && #[trigger] nodes[i] == n;
        assert(nodes[i].name@ == name && is_file(nodes[i].kind));
    }
}

proof fn lemma_loader_dir(nodes: Seq<Node>, a: Seq<char>)
    requires
        exact_distinct(nodes),
        forall|i: int| 0 <= i < nodes.len() ==> exact_distinct(entries(#[trigger] nodes[i].kind)),
    ensures
        cfg_in(nodes, a) <==> has_loader_dir(nodes, a),
{
    lemma_exact(nodes, a);
    if has_loader_dir(nodes, a) {
        let i = choose|i: int|
            0 <= i < nodes.len() && (#[trigger] nodes[i]).name@ == a && is_dir(nodes[i].kind) && (
            has_file_named(entries(nodes[i].kind), "syslinux.cfg"@) || has_file_named(
                entries(nodes[i].kind),
                "isolinux.cfg"@,
            ));
        lemma_dir_exists(nodes[i].kind);
        assert(exact_distinct(entries(nodes[i].kind)));
        lemma_file_named(entries(nodes[i].kind), "syslinux.cfg"@);
        lemma_file_named(entries(nodes[i].kind), "isolinux.cfg"@);
    }
    if cfg_in(nodes, a) {
        let n = exact(nodes, a)->0;
        let i = choose|i: int| 0 <= i < nodes.len() && #[trigger] nodes[i] == n;
        assert(exact_distinct(entries(nodes[i].kind)));
        lemma_file_named(entries(nodes[i].kind), "syslinux.cfg"@);
        lemma_file_named(entries(nodes[i].kind), "isolinux.cfg"@);
        assert(nodes[i].name@ == a);
    }
}

proof fn lemma_loader_dir_below(root: Seq<Node>, a: Seq<char>, b: Seq<char>)
    requires
        unique_names(root),
    ensures
        cfg_in(below(root, a), b) <==> has_loader_dir_below(root, a, b),
{
    lemma_exact(root, a);
    if has_loader_dir_below(root, a, b) {
        let i = choose|i: int|
            0 <= i < root.len() && (#[trigger] root[i]).name@ == a && exists_at(root[i].kind)
                && has_loader_dir(entries(root[i].kind), b);
        assert(below(root, a) == entries(root[i].kind));
        lemma_unique_below(root, i);
        lemma_loader_dir(entries(root[i].kind), b);
    }
    if cfg_in(below(root, a), b) {
        if exact(root, a) is None {
            assert(below(root, a) == Seq::<Node>::empty());
            assert(exact(Seq::<Node>::empty(), b) is None);
        }
        let n = exact(root, a)->0;
        let i = choose|i: int| 0 <= i < root.len() && #[trigger] root[i] == n;
        lemma_unique_below(root, i);
        lemma_loader_dir(entries(root[i].kind), b);
        assert(root[i].name@ == a);
    }
}

proof fn lemma_unique_below(root: Seq<Node>, i: int)
    requires
        unique_names(root),
        0 <= i < root.len(),
    ensures
        exact_distinct(entries(root[i].kind)),
        forall|j: int|
            0 <= j < entries(root[i].kind).len() ==> exact_distinct(
                entries(#[trigger] entries(root[i].kind)[j].kind),
            ),
{
    assert forall|j: int| 0 <= j < entries(root[i].kind).len() implies exact_distinct(
        entries(#[trigger] entries(root[i].kind)[j].kind),
    ) by {
        assert(exact_distinct(entries(entries(root[i].kind)[j].kind)));
    }
}

/// The directory of a loader configuration is the first of `isolinux`,
/// `boot/syslinux`, `syslinux`, `boot/isolinux` and `images` that holds one;
/// there is none if and only if none of the five does.
pub proof fn law_loader_dir_is_first(root: Seq<Node>)
    requires
        unique_names(root),
    ensures
        ({
            let a = has_loader_dir(root, "isolinux"@);
            let b = has_loader_dir_below(root, "boot"@, "syslinux"@);
            let c = has_loader_dir(root, "syslinux"@);
            let d = has_loader_dir_below(root, "boot"@, "isolinux"@);
            let e = has_loader_dir(root, "images"@);
            let found = syslinux_dir(root);
            &&& a ==> found == Some("isolinux"@)
            &&& !a && b ==> found == Some("boot/syslinux"@)
            &&& !a && !b && c ==> found == Some("syslinux"@)
            &&& !a && !b && !c && d ==> found == Some("boot/isolinux"@)
            &&& !a && !b && !c && !d && e ==> found == Some("images"@)
            &&& !a && !b && !c && !d && !e <==> found is None
        }),
{
    lemma_loader_dir(root, "isolinux"@);
    lemma_loader_dir(root, "syslinux"@);
    lemma_loader_dir(root, "images"@);
    lemma_loader_dir_below(root, "boot"@, "syslinux"@);
    lemma_loader_dir_below(root, "boot"@, "isolinux"@);
}

// ---- files and sizes ---------------------------------------------------------------

/// The regular files of a directory are its own and, under their directory's
/// name, those of its subdirectories; nothing else adds any, links among them.
pub proof fn law_files_of_a_tree(nodes: Seq<Node>, n: Node, dir: Seq<char>)
    ensures
        ({
            let before = files_in(nodes, dir);
            let now = files_in(nodes.push(n), dir);
            &&& n.kind matches Kind::File(len, _) ==> now.len() == before.len() + 1
                && now.last().len == len && now.last().name == n.name@ && now.last().rel == join(
                dir,
                n.name@,
            )
            &&& n.kind matches Kind::Dir(c) ==> now.len() == before.len() + files_in(
                c@,
                join(dir, n.name@),
            ).len() && now.skip(before.len() as int) == files_in(c@, join(dir, n.name@))
            &&& n.kind is Link || n.kind is Other ==> now == before
            &&& now.take(before.len() as int) == before
        }),
{
    let all = nodes.push(n);
    assert(all.drop_last() =~= nodes);
    let before = files_in(nodes, dir);
    let now = files_in(all, dir);
    assert(now.take(before.len() as int) =~= before);
    match n.kind {
        Kind::Dir(c) => {
            assert(now.skip(before.len() as int) =~= files_in(c@, join(dir, n.name@)));
        },
        Kind::File(_, _) => {},
        _ => {
            assert(now =~= before);
        },
    }
}

/// A path below a directory is the directory's, a slash, and the name; at the
/// top it is the name.
pub proof fn law_paths_of_files(dir: Seq<char>, name: Seq<char>)
    requires
        name.len() > 0,
        name[0] != '/',
        dir.len() > 0 ==> dir.last() != '/',
    ensures
        dir.len() == 0 ==> join(dir, name) == name,
        dir.len() > 0 ==> join(dir, name) == dir + seq!['/'] + name,
{
    if dir.len() > 0 {
        assert(dir.push('/') + name =~= dir + seq!['/'] + name);
    }
}

/// What a manifest says of sizes: the total is the sum of all files, the largest
/// is one of them and no file is larger, a file counts as too large for FAT32
/// beyond 4 GiB less 1 MiB, and the archive that is named is the first such
/// file whose name ends in `.wim` or `.esd`.
#[verifier::rlimit(40)]
pub proof fn law_manifest_measures(root: Seq<Node>)
    ensures
        ({
            let files = files_in(root, seq![]);
            let m = manifest_of(root);
            let limit = 4_293_918_720int;
            &&& m.total_size == total_len(files) % 0x1_0000_0000_0000_0000
            &&& forall|i: int|
                0 <= i < files.len() ==> (#[trigger] files[i]).len <= m.max_file_size
            &&& files.len() > 0 ==> exists|i: int|
                0 <= i < files.len() && (#[trigger] files[i]).len == m.max_file_size
            &&& files.len() == 0 ==> m.max_file_size == 0
            &&& m.has_oversized_files <==> exists|i: int|
                0 <= i < files.len() && (#[trigger] files[i]).len > limit
            &&& m.has_unsplittable_files <==> exists|i: int|
                0 <= i < files.len() && stuck_file(#[trigger] files[i])
            &&& match m.oversized_wim {
                Some(p) => exists|i: int|
                    0 <= i < files.len() && big_archive(#[trigger] files[i]) && p.len()
                        == files[i].rel.len() && (forall|k: int|
                        0 <= k < p.len() ==> p[k] == if files[i].rel[k] == '\\' {
                            '/'
                        } else {
                            files[i].rel[k]
                        }) && forall|j: int| 0 <= j < i ==> !big_archive(#[trigger] files[j]),
                None => forall|j: int| 0 <= j < files.len() ==> !big_archive(#[trigger] files[j]),
            }
            &&& !m.hybrid
        }),
{
    let files = files_in(root, seq![]);
    lemma_file_lens(root, seq![]);
    lemma_largest(files);
    lemma_first_archive(files);
    assert forall|i: int| 0 <= i < files.len() implies stuck(#[trigger] files[i])
        == stuck_file(files[i]) by {
        lemma_archive_name(files[i].name);
    }
    if any_stuck(files) {
        let i = choose|i: int| 0 <= i < files.len() && stuck(#[trigger] files[i]);
        assert(stuck_file(files[i]));
    }
    if exists|i: int| 0 <= i < files.len() && stuck_file(#[trigger] files[i]) {
        let i = choose|i: int| 0 <= i < files.len() && stuck_file(#[trigger] files[i]);
        assert(stuck(files[i]));
    }
    if exists|i: int| 0 <= i < files.len() && (#[trigger] files[i]).len > 4_293_918_720int {
        let i = choose|i: int|
            0 <= i < files.len() && (#[trigger] files[i]).len > 4_293_918_720int;
        assert(oversized(files[i]));
    }
    if any_oversized(files) {
        let i = choose|i: int|
            0 <= i < files.len() && oversized(#[trigger] files[i]);
        assert(files[i].len > 4_293_918_720int);
    }
}

/// Whether the name of a file ends in `.wim` or `.esd`, in whatever case.
pub open spec fn archive_name(name: Seq<char>) -> bool {
    let n = name.len() as int;
    n >= 4 && (lower(name.skip(n - 4)) == ".wim"@ || lower(name.skip(n - 4)) == ".esd"@)
}

/// An archive beyond the limit of FAT32.
pub open spec fn big_archive(f: FileModel) -> bool {
    f.len > 4_293_918_720int && archive_name(f.name)
}

/// A file beyond the limit of FAT32 that is no archive.
pub open spec fn stuck_file(f: FileModel) -> bool {
    f.len > 4_293_918_720int && !archive_name(f.name)
}

proof fn lemma_archive_name(name: Seq<char>)
    ensures
        wimish(name) == archive_name(name),
{
    reveal_strlit(".wim");
    reveal_strlit(".esd");
    let n = name.len() as int;
    if n >= 4 {
        assert(lower(name).subrange(n - 4, n) =~= lower(name.skip(n - 4)));
    }
}

proof fn lemma_file_lens(nodes: Seq<Node>, dir: Seq<char>)
    ensures
        forall|i: int|
            0 <= i < files_in(nodes, dir).len() ==> 0 <= (#[trigger] files_in(nodes, dir)[i]).len,
    decreases nodes,
{
    if nodes.len() > 0 {
        let n = nodes[nodes.len() - 1];
        assert(nodes.last() == n);
        let front = files_in(nodes.drop_last(), dir);
        let all = files_in(nodes, dir);
        lemma_file_lens(nodes.drop_last(), dir);
        match n.kind {
            Kind::Dir(c) => {
                let more = files_in(c@, join(dir, n.name@));
                lemma_file_lens(c@, join(dir, n.name@));
                assert(all == front + more);
                assert forall|i: int| 0 <= i < all.len() implies 0 <= (#[trigger] all[i]).len by {
                    if i < front.len() {
                        assert(all[i] == front[i]);
                    } else {
                        assert(all[i] == more[i - front.len()]);
                    }
                }
            },
            _ => {
                assert forall|i: int| 0 <= i < all.len() implies 0 <= (#[trigger] all[i]).len by {
                    if i < front.len() {
                        assert(all[i] == front[i]);
                    }
                }
            },
        }
    }
}

proof fn lemma_largest(files: Seq<FileModel>)
    requires
        forall|i: int| 0 <= i < files.len() ==> 0 <= (#[trigger] files[i]).len,
    ensures
        0 <= largest(files),
        forall|i: int|
            0 <= i < files.len() ==> (#[trigger] files[i]).len <= largest(files),
        files.len() > 0 ==> exists|i: int|
            0 <= i < files.len() && (#[trigger] files[i]).len == largest(files),
    decreases files.len(),
{
    if files.len() > 0 {
        let front = files.drop_last();
        let last = files[files.len() - 1];
        assert forall|i: int| 0 <= i < front.len() implies 0 <= (#[trigger] front[i]).len by {
            assert(front[i] == files[i]);
        }
        lemma_largest(front);
        assert forall|i: int| 0 <= i < files.len() implies (#[trigger] files[i]).len
            <= largest(files) by {
            if i < front.len() {
                assert(front[i] == files[i]);
            }
        }
        if last.len > largest(front) {
            assert(files[files.len() - 1].len == largest(files));
        } else if front.len() > 0 {
            let i = choose|i: int|
                0 <= i < front.len() && (#[trigger] front[i]).len == largest(front);
            assert(files[i].len == largest(files));
        } else {
            assert(files[files.len() - 1].len == largest(files));
        }
    }
}

proof fn lemma_first_archive(files: Seq<FileModel>)
    ensures
        match first_oversized_wim(files) {
            Some(p) => exists|i: int|
                0 <= i < files.len() && big_archive(#[trigger] files[i]) && p.len()
                    == files[i].rel.len() && (forall|k: int|
                    0 <= k < p.len() ==> p[k] == if files[i].rel[k] == '\\' {
                        '/'
                    } else {
                        files[i].rel[k]
                    }) && forall|j: int| 0 <= j < i ==> !big_archive(#[trigger] files[j]),
            None => forall|j: int| 0 <= j < files.len() ==> !big_archive(#[trigger] files[j]),
        },
    decreases files.len(),
{
    if files.len() > 0 {
        let front = files.drop_last();
        let m = files.len() - 1;
        lemma_first_archive(front);
        lemma_archive_name(files[m].name);
        assert forall|j: int| 0 <= j < m implies big_archive(#[trigger] files[j]) == big_archive(
            front[j],
        ) by {
            assert(front[j] == files[j]);
        }
        match first_oversized_wim(front) {
            Some(p) => {
                let i = choose|i: int|
                    0 <= i < front.len() && big_archive(#[trigger] front[i]) && p.len()
                        == front[i].rel.len() && (forall|k: int|
                        0 <= k < p.len() ==> p[k] == if front[i].rel[k] == '\\' {
                            '/'
                        } else {
                            front[i].rel[k]
                        }) && forall|j: int| 0 <= j < i ==> !big_archive(#[trigger] front[j]);
                assert(files[i] == front[i]);
                assert forall|j: int| 0 <= j < i implies !big_archive(#[trigger] files[j]) by {
                    assert(!big_archive(front[j]));
                }
            },
            None => {
                assert forall|j: int| 0 <= j < m implies !big_archive(#[trigger] files[j]) by {
                    assert(!big_archive(front[j]));
                }
                if first_oversized_wim(files) is Some {
                    assert(big_archive(files[m]));
                }
            },
        }
    }
}

/// The size of all files grows by the size of each.
pub proof fn law_total_is_the_sum(files: Seq<FileModel>, f: FileModel)
    ensures
        total_len(Seq::<FileModel>::empty()) == 0,
        total_len(files.push(f)) == total_len(files) + f.len,
{
    assert(files.push(f).drop_last() =~= files);
}

// ---- the plan ------------------------------------------------------------------------

/// A plan is chosen for the image that it is asked for, without options. An
/// image that is no Windows medium is copied sector by sector and verified,
/// unless a sector copy would not boot and SYSLINUX can be installed for a
/// configuration that it has; then it is extracted for a BIOS. Windows media are
/// laid out on a GPT.
pub proof fn law_plan_suits_the_image(
    m: ManifestModel,
    image: Seq<char>,
    have_syslinux: bool,
    have_wimlib: bool,
    plan: FlashPlan,
)
    requires
        auto_plan(m, image, have_syslinux, have_wimlib, plan),
    ensures
        plan.image() == Some(image),
        plan matches FlashPlan::RawDd { verify, persistence_mb, persistence_label, .. } ==> verify
            && persistence_mb == 0 && persistence_label is None && !m.is_windows,
        plan is IsoExtract <==> !m.is_windows && !m.hybrid && m.syslinux_dir is Some
            && have_syslinux,
        plan is RawDd <==> !m.is_windows && (m.hybrid || m.syslinux_dir is None
            || !have_syslinux),
        plan matches FlashPlan::IsoExtract { scheme, syslinux_bios, .. } ==> syslinux_bios
            && scheme == PartitionScheme::Mbr,
        m.is_windows <==> plan is WinFat32 || plan is WinUefiNtfs,
        plan matches FlashPlan::WinFat32 { scheme, options, .. } ==> scheme == PartitionScheme::Gpt
            && !options.hw_bypass && !options.no_online_account && !options.no_bitlocker,
        plan matches FlashPlan::WinUefiNtfs { scheme, options, .. } ==> scheme
            == PartitionScheme::Gpt && !options.hw_bypass && !options.no_online_account
            && !options.no_bitlocker,
        plan is WinUefiNtfs <==> m.is_windows && m.has_oversized_files && (m.has_unsplittable_files
            || m.oversized_wim is None || !have_wimlib),
        plan matches FlashPlan::WinFat32 { split_wim, .. } ==> split_wim == m.has_oversized_files,
{
}

/// The bytes of a sector that count: those that are not zero.
pub proof fn law_dense_sectors(s: Seq<u8>, b: u8, n: nat)
    ensures
        nonzero_count(crate::bytes::zeros(n)) == 0,
        b == 0 ==> nonzero_count(s.push(b)) == nonzero_count(s),
        b != 0 ==> nonzero_count(s.push(b)) == nonzero_count(s) + 1,
    decreases n,
{
    assert(s.push(b).drop_last() =~= s);
    if n > 0 {
        let z = crate::bytes::zeros(n);
        assert(z.drop_last() =~= crate::bytes::zeros((n - 1) as nat));
        law_dense_sectors(s, b, (n - 1) as nat);
        assert(z.last() == 0);
    }
}

/// A link is what it leads to, and a dangling one is nothing; a directory is no
/// file, and only files have text.
pub proof fn law_links_are_followed(t: Box<Kind>, c: Vec<Node>, len: u64, text: String)
    ensures
        ({
            let l = Kind::Link(Some(t));
            &&& is_dir(l) == is_dir(*t)
            &&& is_file(l) == is_file(*t)
            &&& exists_at(l) == exists_at(*t)
            &&& entries(l) == entries(*t)
            &&& text_of(l) == text_of(*t)
        }),
        !is_dir(Kind::Link(None)) && !is_file(Kind::Link(None)) && !exists_at(Kind::Link(None)),
        is_dir(Kind::Dir(c)) && !is_file(Kind::Dir(c)) && exists_at(Kind::Dir(c)),
        entries(Kind::Dir(c)) == c@ && text_of(Kind::Dir(c)) is None,
        is_file(Kind::File(len, Some(text))) && !is_dir(Kind::File(len, Some(text))),
        text_of(Kind::File(len, Some(text))) == Some(text@),
        text_of(Kind::File(len, None)) is None && is_file(Kind::File(len, None)),
        !is_dir(Kind::Other) && !is_file(Kind::Other) && exists_at(Kind::Other),
        entries(Kind::File(len, None)).len() == 0 && entries(Kind::Other).len() == 0,
{
}

// ---- editions --------------------------------------------------------------------------

/// Whether a line of archive information says nothing of an index or a name.
pub open spec fn silent(line: Seq<char>) -> bool {
    !starts_with(trim(line), "Index:"@) && !starts_with(trim(line), "Name:"@)
}

proof fn lemma_silent(ls: Seq<Seq<char>>, mid: Seq<Seq<char>>)
    requires
        forall|i: int| 0 <= i < mid.len() ==> silent(#[trigger] mid[i]),
    ensures
        wim_images(ls + mid) == wim_images(ls),
        current_index(ls + mid) == current_index(ls),
    decreases mid.len(),
{
    if mid.len() == 0 {
        assert(ls + mid =~= ls);
    } else {
        let front = mid.drop_last();
        assert forall|i: int| 0 <= i < front.len() implies silent(#[trigger] front[i]) by {
            assert(front[i] == mid[i]);
        }
        lemma_silent(ls, front);
        assert((ls + mid).drop_last() =~= ls + front);
        assert((ls + mid).last() == mid[mid.len() - 1]);
        assert(silent(mid[mid.len() - 1]));
    }
}

/// An index line, lines that say nothing of either, and a name line add one
/// image with this index and this name to those before them.
pub proof fn law_edition_is_read(
    before: Seq<Seq<char>>,
    index_line: Seq<char>,
    mid: Seq<Seq<char>>,
    name_line: Seq<char>,
    index: nat,
    name: Seq<char>,
)
    requires
        trim(index_line) == "Index: "@ + dec(index),
        trim(name_line) == "Name: "@ + name,
        index <= u32::MAX,
        name.len() > 0,
        !is_space(name[0]),
        !is_space(name.last()),
        forall|i: int| 0 <= i < mid.len() ==> silent(#[trigger] mid[i]),
    ensures
        wim_images((before.push(index_line) + mid).push(name_line)) == wim_images(before).push(
            (index as int, name),
        ),
{
    reveal_strlit("Index:");
    reveal_strlit("Index: ");
    reveal_strlit("Name:");
    reveal_strlit("Name: ");
    let a = before.push(index_line);
    let b = a + mid;
    let c = b.push(name_line);
    let il = trim(index_line);
    let nl = trim(name_line);
    assert(a.drop_last() =~= before && b == a + mid && c.drop_last() =~= b);
    assert(il.subrange(0, 6) =~= "Index:"@);
    assert(il.skip(6) =~= seq![' '] + dec(index) + Seq::<char>::empty());
    crate::text::lemma_dec_shape(index);
    law_trim(seq![' '], dec(index), Seq::empty());
    law_dec_parses(index, u32::MAX as int);
    assert(current_index(a) == Some(index as int));
    assert(wim_images(a) == wim_images(before));
    lemma_silent(a, mid);
    assert(nl.subrange(0, 5) =~= "Name:"@);
    assert(nl[0] == 'N' && "Index:"@[0] == 'I');
    assert(!starts_with(nl, "Index:"@)) by {
        if starts_with(nl, "Index:"@) {
            assert(nl.subrange(0, 6)[0] == nl[0]);
        }
    }
    assert(nl.skip(5) =~= seq![' '] + name + Seq::<char>::empty());
    law_trim(seq![' '], name, Seq::empty());
}

/// Editions that come in order of their index stay in that order, each under its
/// name.
pub proof fn law_editions_in_order(images: Seq<(int, Seq<char>)>, k: int)
    requires
        forall|i: int, j: int|
            0 <= i < j < images.len() ==> (#[trigger] images[i]).0 <= (#[trigger] images[j]).0,
        0 <= k < images.len(),
    ensures
        by_index(images) == images,
        names_of(by_index(images)).len() == images.len(),
        names_of(by_index(images))[k] == images[k].1,
    decreases images.len(),
{
    let front = images.drop_last();
    assert forall|i: int, j: int| 0 <= i < j < front.len() implies (#[trigger] front[i]).0 <= (
    #[trigger] front[j]).0 by {
        assert(front[i] == images[i] && front[j] == images[j]);
    }
    if front.len() > 0 {
        law_editions_in_order(front, 0);
        assert(front.last() == images[images.len() - 2]);
        assert(images.last() == images[images.len() - 1]);
    } else {
        assert(by_index(front) =~= front);
    }
    assert(by_index(images) =~= images);
}

} // verus!
