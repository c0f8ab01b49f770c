//! What holds of paths.

use crate::paths::{
    base, base_start, colon_pieces, dir_part, file_name, join, last_dot, search_places, stem,
    trim_tail, with_file_name,
};
use vstd::prelude::*;

verus! {

/// Whether `name` can stand as a component of a path.
pub open spec fn plain_name(name: Seq<char>) -> bool {
    &&& name.len() > 0
    &&& !name.contains('/')
    &&& name != seq!['.']
    &&& name != seq!['.', '.']
}

/// Whether `dir` is a directory as it is written without anything to drop at its
/// end.
pub open spec fn plain_dir(dir: Seq<char>) -> bool {
    &&& dir.len() > 0
    &&& dir.last() != '/'
    &&& !(dir.len() > 1 && dir.last() == '.' && dir[dir.len() - 2] == '/')
}

proof fn lemma_name_stays(head: Seq<char>, name: Seq<char>)
    requires
        plain_name(name),
        head.len() > 0,
        head.last() == '/',
    ensures
        trim_tail(head + name) == head + name,
        base_start(head + name) == head.len(),
        base(head + name) == name,
{
    let p = head + name;
    assert(p.last() == name[name.len() - 1]);
    assert(name.contains(name[name.len() - 1]));
    if p.last() == '.' && p[p.len() - 2] == '/' {
        if name.len() == 1 {
            assert(name =~= seq!['.']);
        } else {
            assert(p[p.len() - 2] == name[name.len() - 2]);
            assert(name.contains(name[name.len() - 2]));
        }
    }
    assert(trim_tail(p) == p);
    lemma_slash_free_start(head, name);
    assert(p.skip(head.len() as int) =~= name);
}

proof fn lemma_slash_free_start(head: Seq<char>, name: Seq<char>)
    requires
        !name.contains('/'),
        head.len() > 0,
        head.last() == '/',
    ensures
        base_start(head + name) == head.len(),
    decreases name.len(),
{
    let p = head + name;
    if name.len() == 0 {
        assert(p =~= head);
    } else {
        assert(p.last() == name[name.len() - 1]);
        assert(name.contains(name[name.len() - 1]));
        assert(p.drop_last() =~= head + name.drop_last());
        assert forall|i: int| 0 <= i < name.drop_last().len() implies name.drop_last()[i]
            != '/' by {
            assert(name.contains(name[i]));
        }
        lemma_slash_free_start(head, name.drop_last());
    }
}

/// A path made of a directory and a name comes apart into the two, and joining
/// the two makes it again.
#[verifier::rlimit(40)]
pub proof fn law_path_comes_apart(dir: Seq<char>, name: Seq<char>)
    requires
        plain_dir(dir),
        plain_name(name),
    ensures
        join(dir, name) == dir + seq!['/'] + name,
        file_name(dir + seq!['/'] + name) == Some(name),
        dir_part(dir + seq!['/'] + name) == dir,
        file_name(dir + seq!['/'] + name + seq!['/']) == Some(name),
        dir_part(dir + seq!['/'] + name + seq!['/']) == dir,
{
    let head = dir + seq!['/'];
    let p = head + name;
    assert(name.contains(name[0]));
    assert(dir.push('/') + name =~= p);
    lemma_name_stays(head, name);
    assert(p.take(head.len() as int) =~= head);
    assert(head.last() == '/');
    assert(head.drop_last() =~= dir);
    assert(trim_tail(dir) == dir);
    assert(trim_tail(head) == trim_tail(dir));
    assert(dir_part(p) == dir);
    let q = p + seq!['/'];
    assert(q.last() == '/');
    assert(q.drop_last() =~= p);
    assert(trim_tail(q) == trim_tail(p));
    assert(base(q) == name);
}

/// A path that ends in nothing, in `.` at its start or in `..` has no file name.
pub proof fn law_no_file_name(dir: Seq<char>)
    requires
        plain_dir(dir),
    ensures
        file_name(Seq::<char>::empty()) is None,
        file_name(seq!['/']) is None,
        file_name(seq!['.']) is None,
        file_name(seq!['.', '.']) is None,
        file_name(dir + seq!['/', '.', '.']) is None,
{
    reveal_with_fuel(base_start, 4);
    let e = Seq::<char>::empty();
    assert(e.skip(0) =~= e);
    assert(seq!['/'].skip(1) =~= e);
    assert(seq!['.'].drop_last() =~= e);
    assert(seq!['.'].skip(0) =~= seq!['.']);
    assert(seq!['.', '.'].drop_last() =~= seq!['.']);
    assert(seq!['.', '.'].skip(0) =~= seq!['.', '.']);
    let head = dir + seq!['/'];
    let up = seq!['.', '.'];
    let p = dir + seq!['/', '.', '.'];
    assert(p =~= head + up);
    assert(trim_tail(p) == p);
    assert(!up.contains('/'));
    assert(head.last() == '/');
    lemma_slash_free_start(head, up);
    assert(p.skip(head.len() as int) =~= up);
}

/// Joining: an absolute path stands for itself, whatever it is joined to; a
/// relative one comes behind the other, with one slash between them.
pub proof fn law_join(a: Seq<char>, b: Seq<char>)
    ensures
        b.len() > 0 && b[0] == '/' ==> join(a, b) == b,
        a.len() == 0 ==> join(a, b) == b,
        a.len() > 0 && (b.len() == 0 || b[0] != '/') ==> {
            let n = if a.last() == '/' {
                a.len() as int
            } else {
                a.len() as int + 1
            };
            &&& join(a, b).len() == n + b.len()
            &&& join(a, b).take(a.len() as int) == a
            &&& join(a, b)[n - 1] == '/'
            &&& join(a, b).skip(n) == b
        },
{
    if a.len() > 0 && (b.len() == 0 || b[0] != '/') {
        let j = join(a, b);
        let n = if a.last() == '/' {
            a.len() as int
        } else {
            a.len() as int + 1
        };
        assert(j.take(a.len() as int) =~= a);
        assert(j.skip(n) =~= b);
    }
}

/// Giving a file another name keeps its directory.
pub proof fn law_renamed_beside(dir: Seq<char>, old_name: Seq<char>, new_name: Seq<char>)
    requires
        plain_dir(dir),
        plain_name(old_name),
        plain_name(new_name),
    ensures
        with_file_name(dir + seq!['/'] + old_name, new_name) == dir + seq!['/'] + new_name,
{
    law_path_comes_apart(dir, old_name);
    law_path_comes_apart(dir, new_name);
}

/// The stem of a name is what stands in front of its last dot; a name without a
/// dot, or with one at its start alone, is its own stem.
pub proof fn law_stem(front: Seq<char>, ext: Seq<char>)
    requires
        !ext.contains('.'),
    ensures
        front.len() > 0 ==> stem(front + seq!['.'] + ext) == front,
        stem(seq!['.'] + ext) == seq!['.'] + ext,
        stem(ext) == ext,
{
    let name = front + seq!['.'] + ext;
    lemma_last_dot(front, ext);
    if front.len() > 0 {
        assert(name.take(front.len() as int) =~= front);
    }
    lemma_last_dot(seq![], ext);
    assert(Seq::<char>::empty() + seq!['.'] + ext =~= seq!['.'] + ext);
    lemma_no_dot(ext);
}

proof fn lemma_last_dot(front: Seq<char>, ext: Seq<char>)
    requires
        !ext.contains('.'),
    ensures
        last_dot(front + seq!['.'] + ext) == if front.len() > 0 {
            Some(front.len() as int)
        } else {
            None::<int>
        },
    decreases ext.len(),
{
    let name = front + seq!['.'] + ext;
    if ext.len() == 0 {
        assert(name.last() == '.');
    } else {
        assert(name.last() == ext[ext.len() - 1]);
        assert(ext.contains(ext[ext.len() - 1]));
        assert(name.drop_last() =~= front + seq!['.'] + ext.drop_last());
        assert forall|i: int| 0 <= i < ext.drop_last().len() implies ext.drop_last()[i] != '.' by {
            assert(ext.contains(ext[i]));
        }
        lemma_last_dot(front, ext.drop_last());
    }
}

proof fn lemma_no_dot(name: Seq<char>)
    requires
        !name.contains('.'),
    ensures
        last_dot(name) is None,
    decreases name.len(),
{
    if name.len() > 1 {
        assert(name.contains(name[name.len() - 1]));
        assert forall|i: int| 0 <= i < name.drop_last().len() implies name.drop_last()[i]
            != '.' by {
            assert(name.contains(name[i]));
        }
        lemma_no_dot(name.drop_last());
    }
}

// ---- search paths ------------------------------------------------------------------

/// Texts with colons between them.
pub open spec fn with_colons(parts: Seq<Seq<char>>) -> Seq<char>
    decreases parts.len(),
{
    if parts.len() == 0 {
        seq![]
    } else if parts.len() == 1 {
        parts[0]
    } else {
        with_colons(parts.drop_last()) + seq![':'] + parts.last()
    }
}

/// A search path is its directories with colons between them: none holds a
/// colon, and put together they are the path again. The program is looked for in
/// each of them, in order.
pub proof fn law_search_places(path: Seq<char>, program: Seq<char>)
    ensures
        ({
            let dirs = colon_pieces(path);
            let places = search_places(path, program);
            &&& with_colons(dirs) == path
            &&& forall|i: int| 0 <= i < dirs.len() ==> !(#[trigger] dirs[i]).contains(':')
            &&& dirs.len() > 0
            &&& places.len() == dirs.len()
            &&& forall|i: int|
                0 <= i < dirs.len() ==> #[trigger] places[i] == join(dirs[i], program)
        }),
{
    lemma_pieces(path);
}

#[verifier::rlimit(40)]
proof fn lemma_pieces(s: Seq<char>)
    ensures
        with_colons(colon_pieces(s)) == s,
        colon_pieces(s).len() > 0,
        forall|i: int|
            0 <= i < colon_pieces(s).len() ==> !(#[trigger] colon_pieces(s)[i]).contains(':'),
    decreases s.len(),
{
    if s.len() == 0 {
        assert(with_colons(colon_pieces(s)) =~= s);
    } else {
        lemma_pieces(s.drop_last());
        let front = colon_pieces(s.drop_last());
        let all = colon_pieces(s);
        let k = front.len() - 1;
        assert(s =~= s.drop_last().push(s.last()));
        if s.last() == ':' {
            assert(all.drop_last() =~= front);
            assert(with_colons(all) =~= s);
            assert forall|i: int| 0 <= i < all.len() implies !(#[trigger] all[i]).contains(':') by {
                if i < front.len() {
                    assert(all[i] == front[i]);
                }
            }
        } else {
            let last = front.last().push(s.last());
            assert(!front[k].contains(':'));
            assert(front.last() == front[k]);
            assert(all.drop_last() =~= front.drop_last());
            assert(all.last() == last);
            if front.len() == 1 {
                assert(with_colons(all) =~= s);
            } else {
                assert(with_colons(all) =~= s);
            }
            assert forall|i: int| 0 <= i < all.len() implies !(#[trigger] all[i]).contains(':') by {
                if i < k {
                    assert(all[i] == front[i]);
                } else if all[i].contains(':') {
                    let j = choose|j: int| 0 <= j < last.len() && last[j] == ':';
                    assert(front[k][j] == ':');
                }
            }
        }
    }
}

} // verus!
