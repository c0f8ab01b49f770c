//! What holds of the classification of images: letter case does not matter to
//! it, and a plan that was chosen for an image can copy it.

use crate::copy::unsplittable;
use crate::iso::{
    any_oversized, any_stuck, auto_plan, disk_info, linux_flavor, manifest_of, opt_text, oversized,
    stuck, windows_tree, ManifestModel, FAT32_MAX_FILE,
};
use crate::protocol::FlashPlan;
use crate::text::lower;
use crate::tree::{
    any_case, entries, exists_at, files_in, first, is_dir, named, spelled, text_of, Kind, Node,
};
use vstd::prelude::*;

verus! {

// ---- letter case -------------------------------------------------------------

/// The same up to the case of names.
pub open spec fn kind_like(a: Kind, b: Kind) -> bool
    decreases a,
{
    match (a, b) {
        (Kind::Dir(x), Kind::Dir(y)) => nodes_like(x@, y@),
        (Kind::File(m, s), Kind::File(n, t)) => m == n && opt_text(s) == opt_text(t),
        (Kind::Link(None), Kind::Link(None)) => true,
        (Kind::Link(Some(x)), Kind::Link(Some(y))) => kind_like(*x, *y),
        (Kind::Other, Kind::Other) => true,
        _ => false,
    }
}

/// Entry by entry the same up to the case of names.
pub open spec fn nodes_like(a: Seq<Node>, b: Seq<Node>) -> bool
    decreases a,
{
    if a.len() == 0 || b.len() == 0 {
        a.len() == b.len()
    } else {
        lower(a.last().name@) == lower(b.last().name@) && kind_like(a.last().kind, b.last().kind)
            && nodes_like(a.drop_last(), b.drop_last())
    }
}

/// No two entries have one name up to case.
pub open spec fn distinct(nodes: Seq<Node>) -> bool {
    forall|i: int, j: int|
        0 <= i < j < nodes.len() ==> lower((#[trigger] nodes[i]).name@) != lower(
            (#[trigger] nodes[j]).name@,
        )
}

/// No directory that a lookup reads holds two entries of one name up to case.
pub open spec fn clear_names(root: Seq<Node>) -> bool {
    distinct(root) && forall|i: int| 0 <= i < root.len() ==> distinct(entries(#[trigger] root[i].kind))
}

proof fn lemma_nodes_like(a: Seq<Node>, b: Seq<Node>, i: int)
    requires
        nodes_like(a, b),
        0 <= i < a.len(),
    ensures
        a.len() == b.len(),
        lower(a[i].name@) == lower(b[i].name@),
        kind_like(a[i].kind, b[i].kind),
    decreases a.len(),
{
    lemma_like_len(a, b);
    if i < a.len() - 1 {
        lemma_nodes_like(a.drop_last(), b.drop_last(), i);
    }
}

proof fn lemma_like_len(a: Seq<Node>, b: Seq<Node>)
    requires
        nodes_like(a, b),
    ensures
        a.len() == b.len(),
    decreases a.len(),
{
    if a.len() > 0 && b.len() > 0 {
        lemma_like_len(a.drop_last(), b.drop_last());
    }
}

/// What follows for directories, texts and entries.
proof fn lemma_kind_like(a: Kind, b: Kind)
    requires
        kind_like(a, b),
    ensures
        is_dir(a) == is_dir(b),
        text_of(a) == text_of(b),
        nodes_like(entries(a), entries(b)),
    decreases a,
{
    match (a, b) {
        (Kind::Link(Some(x)), Kind::Link(Some(y))) => {
            lemma_kind_like(*x, *y);
        },
        _ => {},
    }
}

pub proof fn lemma_first(nodes: Seq<Node>, pred: spec_fn(Node) -> bool)
    ensures
        match first(nodes, pred) {
            Some(n) => pred(n) && exists|i: int| 0 <= i < nodes.len() && #[trigger] nodes[i] == n,
            None => forall|i: int| 0 <= i < nodes.len() ==> !pred(#[trigger] nodes[i]),
        },
    decreases nodes.len(),
{
    if nodes.len() > 0 && !pred(nodes[0]) {
        let rest = nodes.drop_first();
        lemma_first(rest, pred);
        match first(rest, pred) {
            Some(n) => {
                let i = choose|i: int| 0 <= i < rest.len() && #[trigger] rest[i] == n;
                assert(nodes[i + 1] == n);
            },
            None => {
                assert forall|i: int| 0 <= i < nodes.len() implies !pred(#[trigger] nodes[i]) by {
                    if i > 0 {
                        assert(rest[i - 1] == nodes[i]);
                    }
                }
            },
        }
    }
}

/// Where the entry with a name in any case stands; -1 where there is none.
spec fn place(nodes: Seq<Node>, name: Seq<char>) -> int {
    if exists|i: int| 0 <= i < nodes.len() && lower((#[trigger] nodes[i]).name@) == lower(name) {
        choose|i: int| 0 <= i < nodes.len() && lower((#[trigger] nodes[i]).name@) == lower(name)
    } else {
        -1
    }
}

/// Where names are distinct, a lookup finds the one entry of a name.
proof fn lemma_any_case(nodes: Seq<Node>, name: Seq<char>)
    requires
        distinct(nodes),
    ensures
        match any_case(nodes, name) {
            Some(n) => 0 <= place(nodes, name) < nodes.len() && nodes[place(nodes, name)] == n,
            None => place(nodes, name) == -1,
        },
{
    let p = named(name);
    let q = spelled(name);
    lemma_first(nodes, p);
    lemma_first(nodes, q);
    match any_case(nodes, name) {
        Some(n) => {
            assert(p(n) || q(n));
            let i = choose|i: int| 0 <= i < nodes.len() && #[trigger] nodes[i] == n;
            assert(lower(nodes[i].name@) == lower(name));
            let k = place(nodes, name);
            assert(0 <= k < nodes.len() && lower(nodes[k].name@) == lower(name));
            if k < i {
                assert(lower(nodes[k].name@) != lower(nodes[i].name@));
            } else if i < k {
                assert(lower(nodes[i].name@) != lower(nodes[k].name@));
            }
        },
        None => {
            assert forall|i: int| 0 <= i < nodes.len() implies lower((#[trigger] nodes[i]).name@)
                != lower(name) by {
                assert(!q(nodes[i]));
            }
        },
    }
}

/// Where no two names differ by case alone, a lookup finds the entry of a name
/// in whatever case, and nothing where there is none.
pub proof fn law_lookup_finds(nodes: Seq<Node>, name: Seq<char>)
    requires
        distinct(nodes),
    ensures
        forall|i: int|
            0 <= i < nodes.len() && lower((#[trigger] nodes[i]).name@) == lower(name) ==> any_case(
                nodes,
                name,
            ) == Some(nodes[i]),
        any_case(nodes, name) matches Some(n) ==> exists|i: int|
            0 <= i < nodes.len() && #[trigger] nodes[i] == n && lower(n.name@) == lower(name),
{
    lemma_any_case(nodes, name);
    let k = place(nodes, name);
    assert forall|i: int|
        0 <= i < nodes.len() && lower((#[trigger] nodes[i]).name@) == lower(name) implies any_case(
        nodes,
        name,
    ) == Some(nodes[i]) by {
        assert(0 <= k < nodes.len() && lower(nodes[k].name@) == lower(name));
        if k < i {
            assert(lower(nodes[k].name@) != lower(nodes[i].name@));
        } else if i < k {
            assert(lower(nodes[i].name@) != lower(nodes[k].name@));
        }
    }
    if any_case(nodes, name) is Some {
        assert(0 <= k < nodes.len() && nodes[k] == any_case(nodes, name)->0);
        assert(lower(nodes[k].name@) == lower(name));
    }
}

proof fn lemma_first_at(nodes: Seq<Node>, pred: spec_fn(Node) -> bool, i: int)
    requires
        0 <= i < nodes.len(),
        pred(nodes[i]),
        forall|j: int| 0 <= j < i ==> !pred(#[trigger] nodes[j]),
    ensures
        first(nodes, pred) == Some(nodes[i]),
    decreases i,
{
    if i > 0 {
        let rest = nodes.drop_first();
        assert(!pred(nodes[0]));
        assert forall|j: int| 0 <= j < i - 1 implies !pred(#[trigger] rest[j]) by {
            assert(rest[j] == nodes[j + 1]);
        }
        assert(rest[i - 1] == nodes[i]);
        lemma_first_at(rest, pred, i - 1);
    }
}

/// Whatever names a directory has: the first entry of exactly the name that leads
/// to something is found, wherever it stands; without one, the first of the name
/// in any case.
pub proof fn law_exact_names_go_first(nodes: Seq<Node>, name: Seq<char>, i: int)
    requires
        0 <= i < nodes.len(),
    ensures
        nodes[i].name@ == name && exists_at(nodes[i].kind) && (forall|j: int|
            0 <= j < i ==> (#[trigger] nodes[j]).name@ != name || !exists_at(nodes[j].kind))
            ==> any_case(nodes, name) == Some(nodes[i]),
        lower(nodes[i].name@) == lower(name) && (forall|j: int|
            0 <= j < i ==> lower((#[trigger] nodes[j]).name@) != lower(name)) && (forall|j: int|
            0 <= j < nodes.len() ==> (#[trigger] nodes[j]).name@ != name || !exists_at(
                nodes[j].kind,
            )) ==> any_case(nodes, name) == Some(nodes[i]),
{
    let p = named(name);
    let q = spelled(name);
    if nodes[i].name@ == name && exists_at(nodes[i].kind) && (forall|j: int|
        0 <= j < i ==> (#[trigger] nodes[j]).name@ != name || !exists_at(nodes[j].kind)) {
        assert(p(nodes[i]));
        assert forall|j: int| 0 <= j < i implies !p(#[trigger] nodes[j]) by {}
        lemma_first_at(nodes, p, i);
    }
    if lower(nodes[i].name@) == lower(name) && (forall|j: int|
        0 <= j < i ==> lower((#[trigger] nodes[j]).name@) != lower(name)) && (forall|j: int|
        0 <= j < nodes.len() ==> (#[trigger] nodes[j]).name@ != name || !exists_at(nodes[j].kind)) {
        lemma_first(nodes, p);
        if first(nodes, p) is Some {
            let k = choose|k: int| 0 <= k < nodes.len() && #[trigger] nodes[k] == first(nodes, p)->0;
            assert(p(nodes[k]));
        }
        assert(q(nodes[i]));
        assert forall|j: int| 0 <= j < i implies !q(#[trigger] nodes[j]) by {}
        lemma_first_at(nodes, q, i);
    }
}

/// A lookup in trees that are the same up to case finds corresponding entries.
proof fn lemma_same_lookup(a: Seq<Node>, b: Seq<Node>, name: Seq<char>)
    requires
        nodes_like(a, b),
        distinct(a),
    ensures
        distinct(b),
        match (any_case(a, name), any_case(b, name)) {
            (Some(m), Some(n)) => kind_like(m.kind, n.kind) && exists|i: int|
                0 <= i < a.len() && #[trigger] a[i] == m && b[i] == n,
            (None, None) => true,
            _ => false,
        },
{
    lemma_like_len(a, b);
    assert forall|i: int, j: int| 0 <= i < j < b.len() implies lower((#[trigger] b[i]).name@)
        != lower((#[trigger] b[j]).name@) by {
        lemma_nodes_like(a, b, i);
        lemma_nodes_like(a, b, j);
        assert(lower(a[i].name@) != lower(a[j].name@));
    }
    lemma_any_case(a, name);
    lemma_any_case(b, name);
    let k = place(a, name);
    let l = place(b, name);
    if k >= 0 {
        lemma_nodes_like(a, b, k);
        assert(lower(b[k].name@) == lower(name));
        assert(0 <= l < b.len() && lower(b[l].name@) == lower(name));
        if k < l {
            assert(lower(b[k].name@) != lower(b[l].name@));
        } else if l < k {
            assert(lower(b[l].name@) != lower(b[k].name@));
        }
    } else if l >= 0 {
        assert(0 <= l < b.len() && lower(b[l].name@) == lower(name));
        lemma_nodes_like(a, b, l);
        assert(lower(a[l].name@) == lower(name));
    }
}

/// Windows media and live flavours are told apart in the same way in whatever
/// case the names of a tree arrive, as long as no directory holds two entries
/// whose names differ by case alone.
pub proof fn law_case_does_not_matter(a: Seq<Node>, b: Seq<Node>)
    requires
        nodes_like(a, b),
        clear_names(a),
    ensures
        windows_tree(a) == windows_tree(b),
        linux_flavor(a) == linux_flavor(b),
{
    lemma_same_lookup(a, b, "bootmgr"@);
    lemma_same_lookup(a, b, "sources"@);
    lemma_same_lookup(a, b, ".disk"@);
    lemma_same_lookup(a, b, "casper"@);
    lemma_same_lookup(a, b, "live"@);
    match (any_case(a, "sources"@), any_case(b, "sources"@)) {
        (Some(m), Some(n)) => {
            let i = choose|i: int| 0 <= i < a.len() && #[trigger] a[i] == m && b[i] == n;
            assert(distinct(entries(a[i].kind)));
            lemma_kind_like(m.kind, n.kind);
            lemma_same_lookup(entries(m.kind), entries(n.kind), "install.wim"@);
            lemma_same_lookup(entries(m.kind), entries(n.kind), "install.esd"@);
        },
        _ => {},
    }
    match (any_case(a, ".disk"@), any_case(b, ".disk"@)) {
        (Some(m), Some(n)) => {
            let i = choose|i: int| 0 <= i < a.len() && #[trigger] a[i] == m && b[i] == n;
            assert(distinct(entries(a[i].kind)));
            lemma_kind_like(m.kind, n.kind);
            lemma_same_lookup(entries(m.kind), entries(n.kind), "info"@);
            match (any_case(entries(m.kind), "info"@), any_case(entries(n.kind), "info"@)) {
                (Some(x), Some(y)) => {
                    lemma_kind_like(x.kind, y.kind);
                },
                _ => {},
            }
        },
        _ => {},
    }
    assert(disk_info(a) == disk_info(b));
    match (any_case(a, "casper"@), any_case(b, "casper"@)) {
        (Some(m), Some(n)) => {
            lemma_kind_like(m.kind, n.kind);
        },
        _ => {},
    }
    match (any_case(a, "live"@), any_case(b, "live"@)) {
        (Some(m), Some(n)) => {
            lemma_kind_like(m.kind, n.kind);
        },
        _ => {},
    }
}

// ---- chosen plans -----------------------------------------------------------

/// A plan that was chosen for a Windows image can hold it: under a FAT32 plan
/// every file is small enough or can be split, splitting is planned if and only
/// if a file is too large, and only where it can be done; an image with a file
/// that is too large and cannot be split gets the UEFI:NTFS layout.
pub proof fn law_chosen_plan_copies(
    root: Seq<Node>,
    hybrid: bool,
    image: Seq<char>,
    have_syslinux: bool,
    have_wimlib: bool,
    plan: FlashPlan,
)
    requires
        auto_plan(
            (ManifestModel { hybrid, ..manifest_of(root) }),
            image,
            have_syslinux,
            have_wimlib,
            plan,
        ),
        windows_tree(root),
    ensures
        plan is WinFat32 || plan is WinUefiNtfs,
        plan is WinFat32 ==> forall|i: int|
            0 <= i < files_in(root, seq![]).len() ==> !unsplittable(
                #[trigger] files_in(root, seq![])[i],
                Some(FAT32_MAX_FILE),
                plan->split_wim,
            ),
        plan is WinFat32 ==> (plan->split_wim <==> any_oversized(files_in(root, seq![]))),
        plan is WinFat32 && plan->split_wim ==> have_wimlib,
        any_stuck(files_in(root, seq![])) ==> plan is WinUefiNtfs,
        !any_oversized(files_in(root, seq![])) ==> plan is WinFat32,
{
    let files = files_in(root, seq![]);
    if any_stuck(files) {
        let k = choose|k: int| 0 <= k < files.len() && stuck(#[trigger] files[k]);
        assert(oversized(files[k]));
        assert(any_oversized(files));
    }
    if plan is WinFat32 {
        assert forall|i: int| 0 <= i < files.len() implies !unsplittable(
            #[trigger] files[i],
            Some(FAT32_MAX_FILE),
            plan->split_wim,
        ) by {
            if oversized(files[i]) {
                assert(any_oversized(files));
                assert(!stuck(files[i]));
            }
        }
    }
}

} // verus!
