//! Unix paths as text: file names, parents, joining.

use crate::text::{from_chars, to_chars};
use vstd::prelude::*;
use vstd::string::*;

verus! {

/// `p` without slashes and `/.` at its end; the root stays.
pub open spec fn trim_tail(p: Seq<char>) -> Seq<char>
    decreases p.len(),
{
    if p.len() > 1 && p.last() == '/' {
        trim_tail(p.drop_last())
    } else if p.len() > 1 && p.last() == '.' && p[p.len() - 2] == '/' {
        trim_tail(p.drop_last())
    } else {
        p
    }
}

/// Where the last component starts: behind the last slash.
pub open spec fn base_start(p: Seq<char>) -> int
    decreases p.len(),
{
    if p.len() == 0 || p.last() == '/' {
        p.len() as int
    } else {
        base_start(p.drop_last())
    }
}

/// The last component of `p` as text.
pub open spec fn base(p: Seq<char>) -> Seq<char> {
    trim_tail(p).skip(base_start(trim_tail(p)))
}

/// Whether `p` ends in a name, neither in `.` or `..` nor in nothing.
pub open spec fn has_name(p: Seq<char>) -> bool {
    base(p) != Seq::<char>::empty() && base(p) != seq!['.'] && base(p) != seq!['.', '.']
}

/// The file name of `p`, where it has one.
pub open spec fn file_name(p: Seq<char>) -> Option<Seq<char>> {
    if has_name(p) {
        Some(base(p))
    } else {
        None
    }
}

/// What stands in front of the last component.
pub open spec fn dir_part(p: Seq<char>) -> Seq<char> {
    trim_tail(trim_tail(p).take(base_start(trim_tail(p))))
}

/// `b` below `a`; an absolute `b` stands for itself.
pub open spec fn join(a: Seq<char>, b: Seq<char>) -> Seq<char> {
    if a.len() == 0 || (b.len() > 0 && b[0] == '/') {
        b
    } else if a.last() == '/' {
        a + b
    } else {
        a.push('/') + b
    }
}

/// `p` with another file name.
pub open spec fn with_file_name(p: Seq<char>, name: Seq<char>) -> Seq<char> {
    if has_name(p) {
        join(dir_part(p), name)
    } else {
        join(p, name)
    }
}

/// Where the extension of a file name starts: its last dot, unless that is
/// its first character.
pub open spec fn last_dot(name: Seq<char>) -> Option<int>
    decreases name.len(),
{
    if name.len() <= 1 {
        None
    } else if name.last() == '.' {
        Some(name.len() - 1)
    } else {
        last_dot(name.drop_last())
    }
}

/// A file name without its extension.
pub open spec fn stem(name: Seq<char>) -> Seq<char> {
    match last_dot(name) {
        Some(k) => name.take(k),
        None => name,
    }
}

/// The length of `v[..n]` without slashes and `/.` at its end.
fn trim_tail_len(v: &Vec<char>, n: usize) -> (k: usize)
    requires
        n <= v@.len(),
    ensures
        k <= n,
        v@.take(k as int) == trim_tail(v@.take(n as int)),
{
    let mut k: usize = n;
    while k > 1 && (v[k - 1] == '/' || (v[k - 1] == '.' && v[k - 2] == '/'))
        invariant
            k <= n <= v@.len(),
            trim_tail(v@.take(k as int)) == trim_tail(v@.take(n as int)),
        decreases k,
    {
        proof {
            let p = v@.take(k as int);
            assert(p.last() == v@[k - 1]);
            assert(p[p.len() - 2] == v@[k - 2]);
            assert(p.drop_last() =~= v@.take(k - 1));
        }
        k -= 1;
    }
    proof {
        let p = v@.take(k as int);
        if k > 1 {
            assert(p.last() == v@[k - 1]);
            assert(p[p.len() - 2] == v@[k - 2]);
        }
    }
    k
}

/// Where the last component of `v[..n]` starts.
fn base_start_of(v: &Vec<char>, n: usize) -> (k: usize)
    requires
        n <= v@.len(),
    ensures
        k <= n,
        k == base_start(v@.take(n as int)),
{
    let mut k: usize = n;
    while k > 0 && v[k - 1] != '/'
        invariant
            k <= n <= v@.len(),
            base_start(v@.take(k as int)) == base_start(v@.take(n as int)),
        decreases k,
    {
        proof {
            let p = v@.take(k as int);
            assert(p.last() == v@[k - 1]);
            assert(p.drop_last() =~= v@.take(k - 1));
        }
        k -= 1;
    }
    proof {
        let p = v@.take(k as int);
        if k > 0 {
            assert(p.last() == v@[k - 1]);
        }
    }
    k
}

/// The file name of `p`, where it has one.
pub fn path_file_name(p: &str) -> (r: Option<String>)
    ensures
        match r {
            Some(name) => file_name(p@) == Some(name@),
            None => file_name(p@) is None,
        },
{
    let v: Vec<char> = to_chars(p);
    assert(v@.take(v@.len() as int) =~= v@);
    let n: usize = trim_tail_len(&v, v.len());
    let k: usize = base_start_of(&v, n);
    let ghost b = base(p@);
    proof {
        assert(b =~= v@.subrange(k as int, n as int));
    }
    if k == n {
        assert(b =~= Seq::<char>::empty());
        return None;
    }
    if n - k == 1 && v[k] == '.' {
        assert(b =~= seq!['.']);
        return None;
    }
    if n - k == 2 && v[k] == '.' && v[k + 1] == '.' {
        assert(b =~= seq!['.', '.']);
        return None;
    }
    proof {
        if b == seq!['.'] {
            assert(b.len() == 1 && b[0] == '.');
        }
        if b == seq!['.', '.'] {
            assert(b.len() == 2 && b[0] == '.' && b[1] == '.');
        }
    }
    Some(from_chars(&v, k, n))
}

/// `b` below `a`; an absolute `b` stands for itself.
pub fn path_join(a: &str, b: &str) -> (r: String)
    ensures
        r@ == join(a@, b@),
{
    let x: Vec<char> = to_chars(a);
    let y: Vec<char> = to_chars(b);
    if x.len() == 0 || (y.len() > 0 && y[0] == '/') {
        b.to_owned()
    } else {
        let mut r: String = a.to_owned();
        if x[x.len() - 1] != '/' {
            r.push('/');
        }
        r.append(b);
        r
    }
}

/// `p` with another file name.
pub fn path_with_file_name(p: &str, name: &str) -> (r: String)
    ensures
        r@ == with_file_name(p@, name@),
{
    match path_file_name(p) {
        Some(_) => {
            path_join(path_dir(p).as_str(), name)
        },
        None => path_join(p, name),
    }
}

/// A file name without its extension.
pub fn path_stem(name: &str) -> (r: String)
    ensures
        r@ == stem(name@),
{
    let v: Vec<char> = to_chars(name);
    let mut k: usize = v.len();
    assert(v@.take(v@.len() as int) =~= v@);
    while k > 1 && v[k - 1] != '.'
        invariant
            k <= v@.len(),
            last_dot(v@.take(k as int)) == last_dot(v@),
        decreases k,
    {
        proof {
            assert(v@.take(k as int).drop_last() =~= v@.take(k - 1));
            assert(v@.take(k as int).last() == v@[k - 1]);
        }
        k -= 1;
    }
    if k > 1 {
        proof {
            assert(v@.take(k as int).last() == v@[k - 1]);
            assert(v@.subrange(0, k - 1) =~= v@.take(k - 1));
        }
        from_chars(&v, 0, k - 1)
    } else {
        name.to_owned()
    }
}

/// What stands in front of the last component.
pub fn path_dir(p: &str) -> (r: String)
    ensures
        r@ == dir_part(p@),
{
    let v: Vec<char> = to_chars(p);
    assert(v@.take(v@.len() as int) =~= v@);
    let n: usize = trim_tail_len(&v, v.len());
    let k: usize = base_start_of(&v, n);
    assert(v@.take(n as int).take(k as int) =~= v@.take(k as int));
    let m: usize = trim_tail_len(&v, k);
    let dir: String = from_chars(&v, 0, m);
    assert(dir@ =~= v@.take(m as int));
    dir
}

/// The pieces of `s` between colons.
pub open spec fn colon_pieces(s: Seq<char>) -> Seq<Seq<char>>
    decreases s.len(),
{
    if s.len() == 0 {
        seq![seq![]]
    } else {
        let front = colon_pieces(s.drop_last());
        if s.last() == ':' {
            front.push(seq![])
        } else {
            front.drop_last().push(front.last().push(s.last()))
        }
    }
}

/// Where a search path may hold `program`.
pub open spec fn search_places(path: Seq<char>, program: Seq<char>) -> Seq<Seq<char>> {
    colon_pieces(path).map_values(|d: Seq<char>| join(d, program))
}

proof fn lemma_colon_pieces(s: Seq<char>)
    ensures
        colon_pieces(s).len() > 0,
    decreases s.len(),
{
    if s.len() > 0 {
        lemma_colon_pieces(s.drop_last());
    }
}

/// Where a search path may hold `program`, in order.
pub fn search_path(path: &str, program: &str) -> (r: Vec<String>)
    ensures
        r@.map_values(|s: String| s@) == search_places(path@, program@),
{
    let v: Vec<char> = to_chars(path);
    let mut dirs: Vec<String> = Vec::new();
    let mut cur: String = String::new();
    let mut i: usize = 0;
    let ghost mut done: Seq<Seq<char>> = seq![];
    proof {
        assert(v@.take(0) =~= seq![]);
        assert(colon_pieces(v@.take(0)) =~= done.push(cur@));
        assert(dirs@.map_values(|s: String| s@) =~= done);
    }
    while i < v.len()
        invariant
            i <= v@.len(),
            done == dirs@.map_values(|s: String| s@),
            colon_pieces(v@.take(i as int)) == done.push(cur@),
        decreases v@.len() - i,
    {
        let c: char = v[i];
        let ghost before = v@.take(i as int);
        let ghost d0 = done;
        let ghost c0 = cur@;
        proof {
            assert(v@.take(i + 1).drop_last() =~= before);
            assert(v@.take(i + 1).last() == c);
            lemma_colon_pieces(before);
            assert(d0.push(c0).drop_last() =~= d0);
        }
        if c == ':' {
            dirs.push(cur);
            cur = String::new();
            proof {
                done = d0.push(c0);
                assert(dirs@.map_values(|s: String| s@) =~= done);
                assert(cur@ =~= seq![]);
            }
        } else {
            cur.push(c);
        }
        i += 1;
    }
    dirs.push(cur);
    proof {
        assert(v@.take(i as int) =~= v@);
        assert(dirs@.map_values(|s: String| s@) =~= colon_pieces(path@));
    }
    let mut r: Vec<String> = Vec::new();
    let mut k: usize = 0;
    let ghost pieces = colon_pieces(path@);
    while k < dirs.len()
        invariant
            k <= dirs@.len(),
            pieces == dirs@.map_values(|s: String| s@),
            r@.map_values(|s: String| s@) == pieces.take(k as int).map_values(
                |d: Seq<char>| join(d, program@),
            ),
        decreases dirs@.len() - k,
    {
        let ghost r0 = r@.map_values(|s: String| s@);
        let p: String = path_join(dirs[k].as_str(), program);
        r.push(p);
        k += 1;
        proof {
            assert(r@.map_values(|s: String| s@) =~= r0.push(p@));
            assert(r@.map_values(|s: String| s@) =~= pieces.take(k as int).map_values(
                |d: Seq<char>| join(d, program@),
            ));
        }
    }
    assert(pieces.take(k as int) =~= pieces);
    r
}

} // verus!
