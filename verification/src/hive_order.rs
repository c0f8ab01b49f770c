//! The order of subkeys: in a hive the subkeys of a key are listed in ascending
//! order of their names.

use crate::hive_key::{
    key_cells, key_fits, keys_cells, longest_child_name, max, KeyModel,
};
use crate::hive_read::{key_count, keys_count};
use crate::text::{lemma_bytes_lt_total, text_lt};
use vstd::prelude::*;
use vstd::utf8::{encode_utf8, encode_utf8_decode_utf8};

verus! {

/// The first child after which a key named `name` belongs, from the end:
/// behind every child whose name is not greater.
pub open spec fn child_slot(children: Seq<KeyModel>, name: Seq<char>) -> int
    decreases children.len(),
{
    if children.len() > 0 && text_lt(name, children.last().name) {
        child_slot(children.drop_last(), name)
    } else {
        children.len() as int
    }
}

/// `children` with `key` in its place by name.
pub open spec fn insert_child(children: Seq<KeyModel>, key: KeyModel) -> Seq<KeyModel> {
    children.insert(child_slot(children, key.name), key)
}

/// Names in ascending order.
pub open spec fn names_sorted(children: Seq<KeyModel>) -> bool {
    forall|i: int, j: int|
        0 <= i < j < children.len() ==> !text_lt(
            (#[trigger] children[j]).name,
            (#[trigger] children[i]).name,
        )
}

proof fn lemma_child_slot(children: Seq<KeyModel>, name: Seq<char>)
    requires
        names_sorted(children),
    ensures
        0 <= child_slot(children, name) <= children.len(),
        forall|i: int|
            child_slot(children, name) <= i < children.len() ==> text_lt(
                name,
                (#[trigger] children[i]).name,
            ),
        child_slot(children, name) > 0 ==> !text_lt(
            name,
            children[child_slot(children, name) - 1].name,
        ),
    decreases children.len(),
{
    if children.len() > 0 && text_lt(name, children.last().name) {
        let front = children.drop_last();
        assert forall|i: int, j: int| 0 <= i < j < front.len() implies !text_lt(
            (#[trigger] front[j]).name,
            (#[trigger] front[i]).name,
        ) by {
            assert(front[i] == children[i] && front[j] == children[j]);
        }
        lemma_child_slot(front, name);
        assert forall|i: int| child_slot(front, name) <= i < children.len() implies text_lt(
            name,
            (#[trigger] children[i]).name,
        ) by {
            if i < front.len() {
                assert(front[i] == children[i]);
            }
        }
        if child_slot(front, name) > 0 {
            assert(front[child_slot(front, name) - 1] == children[child_slot(front, name) - 1]);
        }
    }
}

/// Inserting a subkey keeps the subkeys in ascending order.
pub proof fn law_subkeys_stay_sorted(children: Seq<KeyModel>, key: KeyModel)
    requires
        names_sorted(children),
    ensures
        names_sorted(insert_child(children, key)),
{
    lemma_child_slot(children, key.name);
    let p = child_slot(children, key.name);
    let all = insert_child(children, key);
    assert forall|i: int, j: int| 0 <= i < j < all.len() implies !text_lt(
        (#[trigger] all[j]).name,
        (#[trigger] all[i]).name,
    ) by {
        if j == p {
            let last = children[p - 1];
            if i < p - 1 {
                assert(all[i] == children[i]);
                crate::text::lemma_bytes_le_trans(
                    encode_utf8(children[i].name),
                    encode_utf8(last.name),
                    encode_utf8(key.name),
                );
            }
        } else if i == p {
            assert(all[j] == children[j - 1]);
            crate::text::lemma_bytes_lt_asym(
                encode_utf8(key.name),
                encode_utf8(children[j - 1].name),
            );
        } else {
            let i0 = if i < p { i } else { i - 1 };
            let j0 = if j < p { j } else { j - 1 };
            assert(all[i] == children[i0] && all[j] == children[j0]);
        }
    }
}

/// `key` with the subkeys of every key of the subtree in ascending order.
pub open spec fn ordered(key: KeyModel) -> KeyModel
    decreases key,
{
    KeyModel { name: key.name, values: key.values, children: ordered_all(key.children) }
}

/// Subkeys in ascending order of their names, each with its subtree; those of
/// one name stay as they were.
pub open spec fn ordered_all(children: Seq<KeyModel>) -> Seq<KeyModel>
    decreases children,
{
    if children.len() == 0 {
        seq![]
    } else {
        insert_child(ordered_all(children.drop_last()), ordered(children.last()))
    }
}

pub proof fn lemma_slot_bounds(children: Seq<KeyModel>, name: Seq<char>)
    ensures
        0 <= child_slot(children, name) <= children.len(),
    decreases children.len(),
{
    if children.len() > 0 {
        lemma_slot_bounds(children.drop_last(), name);
    }
}

/// What an insertion does to counts and the longest name.
proof fn lemma_insert(children: Seq<KeyModel>, p: int, key: KeyModel)
    requires
        0 <= p <= children.len(),
    ensures
        keys_cells(children.insert(p, key)) == keys_cells(children) + key_cells(key),
        keys_count(children.insert(p, key)) == keys_count(children) + key_count(key),
        longest_child_name(children.insert(p, key)) == max(
            longest_child_name(children),
            encode_utf8(key.name).len() as int,
        ),
    decreases children.len(),
{
    let all = children.insert(p, key);
    if p == children.len() {
        assert(all.drop_last() =~= children);
    } else {
        lemma_insert(children.drop_last(), p, key);
        assert(all.drop_last() =~= children.drop_last().insert(p, key));
        assert(all.last() == children.last());
    }
}

/// What ordering keeps of subkeys.
pub proof fn lemma_ordered_all(children: Seq<KeyModel>)
    ensures
        ordered_all(children).len() == children.len(),
        keys_cells(ordered_all(children)) == keys_cells(children),
        keys_count(ordered_all(children)) == keys_count(children),
        longest_child_name(ordered_all(children)) == longest_child_name(children),
        (forall|i: int| 0 <= i < children.len() ==> key_fits(#[trigger] children[i])) ==> (forall|
            i: int,
        |
            0 <= i < children.len() ==> key_fits(#[trigger] ordered_all(children)[i])),
    decreases children,
{
    if children.len() > 0 {
        let front = children.drop_last();
        let last = children[children.len() - 1];
        assert(children.last() == last);
        lemma_ordered_all(front);
        lemma_ordered_fits(last);
        let done = ordered_all(front);
        let p = child_slot(done, last.name);
        lemma_slot_bounds(done, last.name);
        lemma_insert(done, p, ordered(last));
        let all = ordered_all(children);
        if forall|i: int| 0 <= i < children.len() ==> key_fits(#[trigger] children[i]) {
            assert forall|i: int| 0 <= i < front.len() implies key_fits(#[trigger] front[i]) by {
                assert(front[i] == children[i]);
            }
            assert(key_fits(last));
            assert forall|i: int| 0 <= i < children.len() implies key_fits(#[trigger] all[i]) by {
                if i < p {
                    assert(all[i] == done[i]);
                } else if i > p {
                    assert(all[i] == done[i - 1]);
                }
            }
        }
    }
}

/// What ordering keeps of a key.
pub proof fn lemma_ordered_fits(key: KeyModel)
    ensures
        key_fits(key) ==> key_fits(ordered(key)),
        key_cells(ordered(key)) == key_cells(key),
        key_count(ordered(key)) == key_count(key),
    decreases key,
{
    lemma_ordered_all(key.children);
}

/// Whether the subkeys of every key of a subtree are in ascending order.
pub open spec fn tree_sorted(key: KeyModel) -> bool
    decreases key,
{
    &&& names_sorted(key.children)
    &&& forall|i: int| 0 <= i < key.children.len() ==> tree_sorted(#[trigger] key.children[i])
}

proof fn lemma_ordered_sorted(children: Seq<KeyModel>)
    ensures
        names_sorted(ordered_all(children)),
        forall|i: int|
            0 <= i < ordered_all(children).len() ==> tree_sorted(
                #[trigger] ordered_all(children)[i],
            ),
    decreases children,
{
    if children.len() > 0 {
        let front = children.drop_last();
        let last = children[children.len() - 1];
        assert(children.last() == last);
        lemma_ordered_sorted(front);
        law_ordered_is_sorted(last);
        let done = ordered_all(front);
        let p = child_slot(done, last.name);
        lemma_slot_bounds(done, last.name);
        law_subkeys_stay_sorted(done, ordered(last));
        let all = ordered_all(children);
        assert forall|i: int| 0 <= i < all.len() implies tree_sorted(#[trigger] all[i]) by {
            if i < p {
                assert(all[i] == done[i]);
            } else if i > p {
                assert(all[i] == done[i - 1]);
            }
        }
    }
}

/// Whatever order the subkeys of a tree are in, they are in ascending order
/// behind `ordered`, at every level.
pub proof fn law_ordered_is_sorted(key: KeyModel)
    ensures
        tree_sorted(ordered(key)),
    decreases key,
{
    lemma_ordered_sorted(key.children);
}

/// Ordering keeps the subkeys of a key: each of them is there once, itself
/// ordered.
pub proof fn law_ordered_keeps_subkeys(children: Seq<KeyModel>)
    ensures
        ordered_all(children).to_multiset() == children.map_values(
            |k: KeyModel| ordered(k),
        ).to_multiset(),
    decreases children.len(),
{
    broadcast use vstd::seq_lib::group_to_multiset_ensures;
    let f = |k: KeyModel| ordered(k);
    if children.len() == 0 {
        assert(ordered_all(children) =~= children.map_values(f));
    } else {
        let front = children.drop_last();
        let last = children.last();
        law_ordered_keeps_subkeys(front);
        let done = ordered_all(front);
        let p = child_slot(done, last.name);
        lemma_slot_bounds(done, last.name);
        lemma_insert_multiset(done, p, ordered(last));
        assert(children.map_values(f) =~= front.map_values(f).push(ordered(last)));
        assert(front.map_values(f).push(ordered(last)).to_multiset() =~= front.map_values(
            f,
        ).to_multiset().insert(ordered(last)));
    }
}

proof fn lemma_insert_multiset(s: Seq<KeyModel>, p: int, key: KeyModel)
    requires
        0 <= p <= s.len(),
    ensures
        s.insert(p, key).to_multiset() == s.to_multiset().insert(key),
{
    vstd::seq_lib::to_multiset_insert(s, p, key);
}

/// No two subkeys of a key have one name, at every level.
pub open spec fn names_distinct(key: KeyModel) -> bool
    decreases key,
{
    &&& forall|i: int, j: int|
        0 <= i < j < key.children.len() ==> (#[trigger] key.children[i]).name != (
        #[trigger] key.children[j]).name
    &&& forall|i: int| 0 <= i < key.children.len() ==> names_distinct(#[trigger] key.children[i])
}

/// Subkeys in strictly ascending order, at every level.
pub open spec fn tree_ascending(key: KeyModel) -> bool
    decreases key,
{
    &&& forall|i: int, j: int|
        0 <= i < j < key.children.len() ==> text_lt(
            (#[trigger] key.children[i]).name,
            (#[trigger] key.children[j]).name,
        )
    &&& forall|i: int| 0 <= i < key.children.len() ==> tree_ascending(#[trigger] key.children[i])
}

/// Different texts are before one another in one direction.
proof fn lemma_text_lt_total(a: Seq<char>, b: Seq<char>)
    requires
        a != b,
    ensures
        text_lt(a, b) || text_lt(b, a),
{
    lemma_bytes_lt_total(encode_utf8(a), encode_utf8(b));
    if encode_utf8(a) == encode_utf8(b) {
        encode_utf8_decode_utf8(a);
        encode_utf8_decode_utf8(b);
    }
}

/// Each ordered subkey stems from one of the subkeys, different ones from
/// different ones.
proof fn lemma_ordered_distinct(children: Seq<KeyModel>)
    requires
        forall|i: int, j: int|
            0 <= i < j < children.len() ==> (#[trigger] children[i]).name != (
            #[trigger] children[j]).name,
        forall|i: int| 0 <= i < children.len() ==> names_distinct(#[trigger] children[i]),
    ensures
        forall|i: int, j: int|
            0 <= i < j < ordered_all(children).len() ==> (#[trigger] ordered_all(children)[i]).name
                != (#[trigger] ordered_all(children)[j]).name,
        forall|i: int|
            0 <= i < ordered_all(children).len() ==> tree_ascending(
                #[trigger] ordered_all(children)[i],
            ),
        forall|i: int|
            0 <= i < ordered_all(children).len() ==> exists|k: int|
                0 <= k < children.len() && (#[trigger] ordered_all(children)[i]).name == (
                #[trigger] children[k]).name,
    decreases children,
{
    if children.len() > 0 {
        let front = children.drop_last();
        let last = children[children.len() - 1];
        assert(children.last() == last);
        assert forall|i: int, j: int| 0 <= i < j < front.len() implies (#[trigger] front[i]).name
            != (#[trigger] front[j]).name by {
            assert(front[i] == children[i] && front[j] == children[j]);
        }
        assert forall|i: int| 0 <= i < front.len() implies names_distinct(#[trigger] front[i]) by {
            assert(front[i] == children[i]);
        }
        lemma_ordered_distinct(front);
        law_ordered_is_ascending(last);
        let done = ordered_all(front);
        let p = child_slot(done, last.name);
        lemma_slot_bounds(done, last.name);
        let all = ordered_all(children);
        assert(all == done.insert(p, ordered(last)));
        assert forall|i: int| 0 <= i < done.len() implies (#[trigger] done[i]).name
            != last.name by {
            let k = choose|k: int|
                0 <= k < front.len() && done[i].name == (#[trigger] front[k]).name;
            assert(front[k] == children[k]);
        }
        assert forall|i: int, j: int| 0 <= i < j < all.len() implies (#[trigger] all[i]).name != (
        #[trigger] all[j]).name by {
            let i0 = if i < p { i } else { i - 1 };
            let j0 = if j < p { j } else { j - 1 };
            if i != p {
                assert(all[i] == done[i0]);
            }
            if j != p {
                assert(all[j] == done[j0]);
            }
        }
        assert forall|i: int| 0 <= i < all.len() implies tree_ascending(#[trigger] all[i]) by {
            if i < p {
                assert(all[i] == done[i]);
            } else if i > p {
                assert(all[i] == done[i - 1]);
            }
        }
        assert forall|i: int| 0 <= i < all.len() implies exists|k: int|
            0 <= k < children.len() && (#[trigger] all[i]).name == (
            #[trigger] children[k]).name by {
            if i == p {
                assert(all[i].name == children[children.len() - 1].name);
            } else {
                let i0 = if i < p { i } else { i - 1 };
                assert(all[i] == done[i0]);
                let k = choose|k: int|
                    0 <= k < front.len() && done[i0].name == (#[trigger] front[k]).name;
                assert(all[i].name == children[k].name);
            }
        }
    }
}

/// Where no two subkeys of a key have one name, the subkeys are in strictly
/// ascending order behind `ordered`, at every level.
pub proof fn law_ordered_is_ascending(key: KeyModel)
    requires
        names_distinct(key),
    ensures
        tree_ascending(ordered(key)),
    decreases key,
{
    lemma_ordered_distinct(key.children);
    lemma_ordered_sorted(key.children);
    let all = ordered_all(key.children);
    assert forall|i: int, j: int| 0 <= i < j < all.len() implies text_lt(
        (#[trigger] all[i]).name,
        (#[trigger] all[j]).name,
    ) by {
        assert(!text_lt(all[j].name, all[i].name));
        lemma_text_lt_total(all[i].name, all[j].name);
    }
}

} // verus!
