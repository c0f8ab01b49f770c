//! A directory tree as it was read from a mounted image.

use crate::paths::{join, path_join};
use crate::text::{lower, str_eq, to_lower};
use vstd::prelude::*;

verus! {

/// What an entry of a directory is.
pub enum Kind {
    /// A directory with its entries, in the order in which they were read.
    Dir(Vec<Node>),
    /// A regular file: its length, and its text where it was read and is text.
    File(u64, Option<String>),
    /// A symbolic link, with what it leads to; None for a dangling link.
    Link(Option<Box<Kind>>),
    /// Anything else.
    Other,
}

/// An entry of a directory.
pub struct Node {
    pub name: String,
    pub kind: Kind,
}

/// The entries of a directory, links followed; none of anything else.
pub open spec fn entries(k: Kind) -> Seq<Node>
    decreases k,
{
    match k {
        Kind::Dir(c) => c@,
        Kind::Link(Some(t)) => entries(*t),
        _ => seq![],
    }
}

/// Whether it is a directory, links followed.
pub open spec fn is_dir(k: Kind) -> bool
    decreases k,
{
    match k {
        Kind::Dir(_) => true,
        Kind::Link(Some(t)) => is_dir(*t),
        _ => false,
    }
}

/// Whether it is a regular file, links followed.
pub open spec fn is_file(k: Kind) -> bool
    decreases k,
{
    match k {
        Kind::File(_, _) => true,
        Kind::Link(Some(t)) => is_file(*t),
        _ => false,
    }
}

/// Whether it leads to anything, links followed.
pub open spec fn exists_at(k: Kind) -> bool
    decreases k,
{
    match k {
        Kind::Link(None) => false,
        Kind::Link(Some(t)) => exists_at(*t),
        _ => true,
    }
}

/// The text of a file, links followed.
pub open spec fn text_of(k: Kind) -> Option<Seq<char>>
    decreases k,
{
    match k {
        Kind::File(_, Some(t)) => Some(t@),
        Kind::Link(Some(t)) => text_of(*t),
        _ => None,
    }
}

/// The first entry for which `pred` holds.
pub open spec fn first(nodes: Seq<Node>, pred: spec_fn(Node) -> bool) -> Option<Node>
    decreases nodes.len(),
{
    if nodes.len() == 0 {
        None
    } else if pred(nodes[0]) {
        Some(nodes[0])
    } else {
        first(nodes.drop_first(), pred)
    }
}

/// Has exactly this name and leads to something.
pub open spec fn named(name: Seq<char>) -> spec_fn(Node) -> bool {
    |n: Node| n.name@ == name && exists_at(n.kind)
}

/// Has this name in any case.
pub open spec fn spelled(name: Seq<char>) -> spec_fn(Node) -> bool {
    |n: Node| lower(n.name@) == lower(name)
}

/// The entry with exactly this name that leads to something.
pub open spec fn exact(nodes: Seq<Node>, name: Seq<char>) -> Option<Node> {
    first(nodes, named(name))
}

/// The entry with this name in any case: an exact one that leads to something,
/// else the first.
pub open spec fn any_case(nodes: Seq<Node>, name: Seq<char>) -> Option<Node> {
    match exact(nodes, name) {
        Some(n) => Some(n),
        None => first(nodes, spelled(name)),
    }
}

impl Kind {
    pub fn children(&self) -> (r: Option<&Vec<Node>>)
        ensures
            match r {
                Some(v) => v@ == entries(*self),
                None => entries(*self) == Seq::<Node>::empty(),
            },
        decreases self,
    {
        match self {
            Kind::Dir(c) => Some(c),
            Kind::Link(Some(t)) => t.children(),
            _ => None,
        }
    }

    pub fn leads_to_dir(&self) -> (r: bool)
        ensures
            r == is_dir(*self),
        decreases self,
    {
        match self {
            Kind::Dir(_) => true,
            Kind::Link(Some(t)) => t.leads_to_dir(),
            _ => false,
        }
    }

    pub fn leads_to_file(&self) -> (r: bool)
        ensures
            r == is_file(*self),
        decreases self,
    {
        match self {
            Kind::File(_, _) => true,
            Kind::Link(Some(t)) => t.leads_to_file(),
            _ => false,
        }
    }

    pub fn leads_somewhere(&self) -> (r: bool)
        ensures
            r == exists_at(*self),
        decreases self,
    {
        match self {
            Kind::Link(None) => false,
            Kind::Link(Some(t)) => t.leads_somewhere(),
            _ => true,
        }
    }

    pub fn text(&self) -> (r: Option<&str>)
        ensures
            match r {
                Some(t) => text_of(*self) == Some(t@),
                None => text_of(*self) is None,
            },
        decreases self,
    {
        match self {
            Kind::File(_, Some(t)) => Some(t.as_str()),
            Kind::Link(Some(t)) => t.text(),
            _ => None,
        }
    }
}

/// The entry with exactly this name that leads to something.
pub fn find_exact<'a>(nodes: &'a Vec<Node>, name: &str) -> (r: Option<&'a Node>)
    ensures
        match r {
            Some(n) => exact(nodes@, name@) == Some(*n),
            None => exact(nodes@, name@) is None,
        },
{
    let ghost pred = named(name@);
    let mut i: usize = 0;
    assert(nodes@.skip(0) =~= nodes@);
    while i < nodes.len()
        invariant
            i <= nodes@.len(),
            pred == named(name@),
            first(nodes@, pred) == first(nodes@.skip(i as int), pred),
        decreases nodes@.len() - i,
    {
        let n: &Node = &nodes[i];
        if str_eq(n.name.as_str(), name) && n.kind.leads_somewhere() {
            return Some(n);
        }
        assert(nodes@.skip(i as int).drop_first() =~= nodes@.skip(i + 1));
        i += 1;
    }
    None
}

/// Case-insensitive lookup: trees of old media frequently arrive uppercase.
pub fn ci_lookup<'a>(nodes: &'a Vec<Node>, name: &str) -> (r: Option<&'a Node>)
    ensures
        match r {
            Some(n) => any_case(nodes@, name@) == Some(*n),
            None => any_case(nodes@, name@) is None,
        },
{
    match find_exact(nodes, name) {
        Some(n) => return Some(n),
        None => {},
    }
    let l: String = to_lower(name);
    let ghost pred = spelled(name@);
    let mut i: usize = 0;
    assert(nodes@.skip(0) =~= nodes@);
    while i < nodes.len()
        invariant
            i <= nodes@.len(),
            l@ == lower(name@),
            exact(nodes@, name@) is None,
            pred == spelled(name@),
            first(nodes@, pred) == first(nodes@.skip(i as int), pred),
        decreases nodes@.len() - i,
    {
        let n: &Node = &nodes[i];
        if str_eq(to_lower(n.name.as_str()).as_str(), l.as_str()) {
            return Some(n);
        }
        assert(nodes@.skip(i as int).drop_first() =~= nodes@.skip(i + 1));
        i += 1;
    }
    None
}

// ---- regular files -----------------------------------------------------------

/// A regular file of a tree.
pub struct FileModel {
    /// Path from the root of the tree.
    pub rel: Seq<char>,
    pub name: Seq<char>,
    pub len: int,
}

#[derive(Debug, Clone, PartialEq, Eq)]
pub struct FileEntry {
    pub rel: String,
    pub name: String,
    pub len: u64,
}

impl FileEntry {
    pub open spec fn view(self) -> FileModel {
        FileModel { rel: self.rel@, name: self.name@, len: self.len as int }
    }
}

pub open spec fn file_models(files: Seq<FileEntry>) -> Seq<FileModel> {
    files.map_values(|f: FileEntry| f@)
}

/// The regular files below `nodes`, which stand in `dir`: depth first, in the
/// order of the entries. Links are not followed.
pub open spec fn files_in(nodes: Seq<Node>, dir: Seq<char>) -> Seq<FileModel>
    decreases nodes,
{
    if nodes.len() == 0 {
        seq![]
    } else {
        let n = nodes.last();
        let rel = join(dir, n.name@);
        files_in(nodes.drop_last(), dir) + match n.kind {
            Kind::Dir(c) => files_in(c@, rel),
            Kind::File(len, _) => seq![FileModel { rel, name: n.name@, len: len as int }],
            _ => seq![],
        }
    }
}

/// Appends the regular files below `nodes`.
pub fn list_files(nodes: &Vec<Node>, dir: &str, out: &mut Vec<FileEntry>)
    ensures
        file_models(final(out)@) == file_models(old(out)@) + files_in(nodes@, dir@),
    decreases nodes@,
{
    let ghost start = file_models(out@);
    let mut i: usize = 0;
    assert(nodes@.take(0) =~= seq![]);
    assert(start + files_in(seq![], dir@) =~= start);
    while i < nodes.len()
        invariant
            i <= nodes@.len(),
            file_models(out@) == start + files_in(nodes@.take(i as int), dir@),
        decreases nodes@.len() - i,
    {
        let n: &Node = &nodes[i];
        let rel: String = path_join(dir, n.name.as_str());
        let ghost before = file_models(out@);
        proof {
            assert(nodes@.take(i + 1).drop_last() =~= nodes@.take(i as int));
            assert(nodes@.take(i + 1).last() == *n);
            assert(decreases_to!(nodes@ => nodes@[i as int]));
        }
        match &n.kind {
            Kind::Dir(c) => {
                list_files(c, rel.as_str(), out);
                assert(file_models(out@) =~= start + files_in(nodes@.take(i + 1), dir@));
            },
            Kind::File(len, _) => {
                let ghost o0 = out@;
                let e = FileEntry { rel, name: n.name.as_str().to_owned(), len: *len };
                out.push(e);
                assert(file_models(out@) =~= file_models(o0).push(e@));
                assert(file_models(out@) =~= start + files_in(nodes@.take(i + 1), dir@));
            },
            _ => {
                assert(file_models(out@) =~= start + files_in(nodes@.take(i + 1), dir@));
            },
        }
        i += 1;
    }
    assert(nodes@.take(i as int) =~= nodes@);
}

} // verus!
