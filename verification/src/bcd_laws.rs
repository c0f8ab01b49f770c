//! What holds of every boot store.

use crate::bcd::{
    bcd_tree, boot_manager, gpt_blob, is_hex, lemma_trees_fit, os_loader, store_root, valid_guid,
    vhd_blob, vhdx_tree, PartitionRef, BOOTMGR_GUID,
};
use crate::bytes::utf16;
use crate::hive_key::{KeyModel, ValModel};
use crate::hive_order::{law_ordered_is_ascending, names_distinct, ordered, tree_ascending};
use crate::hive_read::{
    bins_of, holds_key, holds_security, key_count, law_store_reads_back, root_of, security_of,
};
use crate::hive_store::store_file;
use crate::hive_time::{in_stamp, law_only_time_stamps_differ, nodes_of};
use crate::text::{lower, lower_char};
use vstd::prelude::*;

verus! {

/// What a reader of a store finds: from the root cell, every key of `tree`
/// with its values and, in ascending order, its subkeys, and the security record
/// that all keys share.
pub open spec fn store_holds(file: Seq<u8>, tree: KeyModel) -> bool {
    &&& holds_key(bins_of(file), security_of(file), root_of(file), ordered(tree), true)
    &&& holds_security(bins_of(file), security_of(file), key_count(tree) as int)
}

/// A store for an installed Windows reads back as the tree that it was made
/// from.
pub proof fn law_bcd_reads_back(
    entry: Seq<char>,
    description: Seq<char>,
    esp: PartitionRef,
    win: PartitionRef,
    timeout: int,
    filetime: int,
)
    requires
        valid_guid(entry),
        utf16(description).len() <= 2029,
    ensures
        store_holds(
            store_file(bcd_tree(entry, description, esp, win, timeout), filetime),
            bcd_tree(entry, description, esp, win, timeout),
        ),
{
    lemma_trees_fit(entry, description, esp, win, seq![], timeout);
    law_store_reads_back(bcd_tree(entry, description, esp, win, timeout), filetime);
}

/// A store for Windows on a virtual disk reads back as the tree that it was
/// made from.
pub proof fn law_bcd_vhdx_reads_back(
    entry: Seq<char>,
    description: Seq<char>,
    esp: PartitionRef,
    win: PartitionRef,
    path: Seq<char>,
    timeout: int,
    filetime: int,
)
    requires
        valid_guid(entry),
        utf16(description).len() <= 2029,
        utf16(path).len() <= 1934,
    ensures
        store_holds(
            store_file(vhdx_tree(entry, description, esp, win, path, timeout), filetime),
            vhdx_tree(entry, description, esp, win, path, timeout),
        ),
{
    lemma_trees_fit(entry, description, esp, win, path, timeout);
    law_store_reads_back(vhdx_tree(entry, description, esp, win, path, timeout), filetime);
}

// ---- the order of subkeys ------------------------------------------------------

proof fn lemma_manager_distinct(entry: Seq<char>, esp: Seq<u8>, timeout: int)
    ensures
        names_distinct(boot_manager(entry, esp, timeout)),
{
    reveal_strlit("description");
    reveal_strlit("elements");
    reveal_strlit("11000001");
    reveal_strlit("12000004");
    reveal_strlit("24000001");
    reveal_strlit("25000004");
    let m = boot_manager(entry, esp, timeout);
    let e = m.children[1];
    assert("description"@[0] != "elements"@[0]);
    assert("11000001"@[1] != "12000004"@[1]);
    assert("11000001"@[0] != "24000001"@[0]);
    assert("11000001"@[0] != "25000004"@[0]);
    assert("12000004"@[0] != "24000001"@[0]);
    assert("12000004"@[0] != "25000004"@[0]);
    assert("24000001"@[1] != "25000004"@[1]);
    assert forall|i: int| 0 <= i < e.children.len() implies names_distinct(
        #[trigger] e.children[i],
    ) by {
        lemma_leaf_distinct(e.children[i]);
    }
    assert(names_distinct(e));
    lemma_leaf_distinct(m.children[0]);
}

proof fn lemma_leaf_distinct(key: KeyModel)
    requires
        key.children.len() == 0,
    ensures
        names_distinct(key),
{
}

proof fn lemma_loader_distinct(
    entry: Seq<char>,
    description: Seq<char>,
    device: Seq<u8>,
    osdevice: Seq<u8>,
)
    ensures
        names_distinct(os_loader(entry, description, device, osdevice)),
{
    reveal_strlit("description");
    reveal_strlit("elements");
    reveal_strlit("11000001");
    reveal_strlit("12000002");
    reveal_strlit("12000004");
    reveal_strlit("21000001");
    reveal_strlit("22000002");
    let m = os_loader(entry, description, device, osdevice);
    let e = m.children[1];
    assert("description"@[0] != "elements"@[0]);
    assert("11000001"@[1] != "12000002"@[1]);
    assert("11000001"@[1] != "12000004"@[1]);
    assert("11000001"@[0] != "21000001"@[0]);
    assert("11000001"@[0] != "22000002"@[0]);
    assert("12000002"@[7] != "12000004"@[7]);
    assert("12000002"@[0] != "21000001"@[0]);
    assert("12000002"@[0] != "22000002"@[0]);
    assert("12000004"@[0] != "21000001"@[0]);
    assert("12000004"@[0] != "22000002"@[0]);
    assert("21000001"@[1] != "22000002"@[1]);
    assert forall|i: int| 0 <= i < e.children.len() implies names_distinct(
        #[trigger] e.children[i],
    ) by {
        lemma_leaf_distinct(e.children[i]);
    }
    assert(names_distinct(e));
    lemma_leaf_distinct(m.children[0]);
}

proof fn lemma_root_distinct(manager: KeyModel, loader: KeyModel)
    requires
        manager.name != loader.name,
        names_distinct(manager),
        names_distinct(loader),
    ensures
        names_distinct(store_root(manager, loader)),
{
    reveal_strlit("description");
    reveal_strlit("objects");
    assert("description"@[0] != "objects"@[0]);
    let r = store_root(manager, loader);
    assert(names_distinct(r.children[1]));
    lemma_leaf_distinct(r.children[0]);
}

/// In a store for an entry other than the boot manager itself, the subkeys of
/// every key are listed in strictly ascending order.
pub proof fn law_bcd_ascending(
    entry: Seq<char>,
    description: Seq<char>,
    esp: PartitionRef,
    win: PartitionRef,
    path: Seq<char>,
    timeout: int,
)
    requires
        lower(entry) != BOOTMGR_GUID@,
    ensures
        tree_ascending(ordered(bcd_tree(entry, description, esp, win, timeout))),
        tree_ascending(ordered(vhdx_tree(entry, description, esp, win, path, timeout))),
{
    let m = boot_manager(entry, gpt_blob(esp), timeout);
    lemma_manager_distinct(entry, gpt_blob(esp), timeout);
    lemma_loader_distinct(entry, description, gpt_blob(win), gpt_blob(win));
    lemma_root_distinct(m, os_loader(entry, description, gpt_blob(win), gpt_blob(win)));
    let d = vhd_blob(path, win.disk_guid@, win.partition_guid@, false);
    let o = vhd_blob(path, win.disk_guid@, win.partition_guid@, true);
    lemma_loader_distinct(entry, description, d, o);
    lemma_root_distinct(m, os_loader(entry, description, d, o));
    law_ordered_is_ascending(bcd_tree(entry, description, esp, win, timeout));
    law_ordered_is_ascending(vhdx_tree(entry, description, esp, win, path, timeout));
}

// ---- the case of the entry --------------------------------------------------------

proof fn lemma_lower_guid(entry: Seq<char>)
    requires
        valid_guid(entry),
    ensures
        valid_guid(lower(entry)),
        lower(lower(entry)) == lower(entry),
{
    let l = lower(entry);
    assert forall|i: int| 0 <= i < l.len() implies #[trigger] lower(l)[i] == l[i] by {
        assert(l[i] == lower_char(entry[i]));
    }
    assert(lower(l) =~= l);
    assert forall|i: int| 1 <= i < 37 implies if i == 9 || i == 14 || i == 19 || i == 24 {
        #[trigger] l[i] == '-'
    } else {
        is_hex(l[i])
    } by {
        assert(l[i] == lower_char(entry[i]));
        assert(if i == 9 || i == 14 || i == 19 || i == 24 {
            entry[i] == '-'
        } else {
            is_hex(entry[i])
        });
    }
}

/// Whether two files differ at most in the time stamps of a store for `tree`
/// and in the checksum.
pub open spec fn differ_in_time(f: Seq<u8>, g: Seq<u8>, nodes: Seq<int>) -> bool {
    &&& f.len() == g.len()
    &&& forall|i: int|
        0 <= i < f.len() && !(12 <= i < 20) && !(0x1FC <= i < 0x200) && !in_stamp(
            nodes,
            i - 4096,
        ) ==> #[trigger] f[i] == g[i]
}

/// The case of an entry GUID does not matter: its object and the display order
/// have it in lower case, so that the stores for a GUID and for its lower case
/// hold one tree and differ at most in time stamps and checksum.
pub proof fn law_guid_case_does_not_matter(
    entry: Seq<char>,
    description: Seq<char>,
    esp: PartitionRef,
    win: PartitionRef,
    path: Seq<char>,
    timeout: int,
    s: int,
    t: int,
)
    requires
        valid_guid(entry),
    ensures
        valid_guid(lower(entry)),
        ({
            let a = bcd_tree(entry, description, esp, win, timeout);
            let b = bcd_tree(lower(entry), description, esp, win, timeout);
            &&& a == b
            &&& a.children[1].children[1].name == lower(entry)
            &&& a.children[1].children[0].children[1].children[2].values == seq![
                ("Element"@, ValModel::MultiSz(seq![lower(entry)])),
            ]
            &&& differ_in_time(store_file(a, s), store_file(b, t), nodes_of(a, s))
        }),
        ({
            let a = vhdx_tree(entry, description, esp, win, path, timeout);
            let b = vhdx_tree(lower(entry), description, esp, win, path, timeout);
            a == b && differ_in_time(store_file(a, s), store_file(b, t), nodes_of(a, s))
        }),
{
    lemma_lower_guid(entry);
    law_only_time_stamps_differ(bcd_tree(entry, description, esp, win, timeout), s, t);
    law_only_time_stamps_differ(vhdx_tree(entry, description, esp, win, path, timeout), s, t);
}

} // verus!
