//! What the inode table holds after each change, record by record.
use vstd::prelude::*;

use crate::calls::Outcome;
use crate::inode_table::{lists, looked_up, released, InodeData, InodeTable};
use crate::model::{
    add_alias, anchored_in, counted_down, find_key, forget, lemma_add_alias_wf, lemma_find_key,
    lemma_needed_congruent, lemma_prune_keeps_parent,
    lemma_prune_of_tidy, lemma_prune_sustains, lemma_prune_tidy, lemma_prune_wf,
    lemma_remove_alias_frame, lemma_remove_alias_wf, lemma_remove_value, needed, prune,
    records_wf, remove_alias, retain, strip_alias, tidy, Record,
};
use crate::laws::law_rename_moves_source;
use crate::removal::{removal_settled, removal_touches, Removal};
use crate::rename::{move_alias, rename_settled, rename_touches, Rename, Target};
use crate::types::{Entry, Host, InodeAltKey, NamespaceAlias};

verus! {

/// A record of the table is what its fields say, alias by alias.
pub proof fn law_record_is_its_fields(data: InodeData)
    ensures
        data@.key == data.key,
        data@.lookups == data.lookups,
        data@.unlinked == data.unlinked,
        data@.aliases.len() == data.aliases@.len(),
        forall|k: int|
            0 <= k < data.aliases@.len() ==> (#[trigger] data@.aliases[k]).parent
                == data.aliases@[k].parent && data@.aliases[k].name == data.aliases@[k].name@,
{
}

/// An inode is reopened through the oldest of its aliases, and through none if it has none.
pub proof fn law_anchor_is_the_oldest_alias(data: &InodeData, parent: u64, name: &[u8], fd: i32)
    requires
        call_ensures(InodeData::anchor_parent, (data,), parent),
        call_ensures(InodeData::anchor_name, (data,), name),
        call_ensures(InodeData::unlinked_fd, (data,), fd),
    ensures
        data.aliases@.len() > 0 ==> parent == data.aliases@[0].parent && name@
            == data.aliases@[0].name@,
        data.aliases@.len() == 0 ==> parent == 0 && name@.len() == 0,
        data.unlinked matches Some(kept) ==> fd == kept,
        data.unlinked is None ==> fd == -1,
{
}

/// The inode of a file is a record of that file; and a file without an inode has no record.
pub proof fn law_inode_of_a_file(records: Map<u64, Record>, key: InodeAltKey, i: u64)
    ensures
        find_key(records, key) == Some(i) ==> records.contains_key(i) && records[i].key == key,
        find_key(records, key) is None && records.contains_key(i) ==> records[i].key != key,
        records_wf(records) && records.contains_key(i) && records[i].key == key ==> find_key(
            records,
            key,
        ) == Some(i),
{
    if records_wf(records) && records.contains_key(i) && records[i].key == key {
        lemma_find_key(records, i);
    }
}

/// Whether some alias of `record` lies in the directory `parent`.
proof fn lemma_lies_in(record: Record, parent: u64)
    ensures
        anchored_in(record, parent) <==> exists|e: Entry| #[trigger]
            record.aliases.contains(e) && e.parent == parent,
{
    if anchored_in(record, parent) {
        let k = choose|k: int|
            0 <= k < record.aliases.len() && (#[trigger] record.aliases[k]).parent == parent;
        assert(record.aliases.contains(record.aliases[k]));
    }
    if exists|e: Entry| #[trigger] record.aliases.contains(e) && e.parent == parent {
        let e = choose|e: Entry| #[trigger] record.aliases.contains(e) && e.parent == parent;
        let k = choose|k: int| 0 <= k < record.aliases.len() && record.aliases[k] == e;
        assert(record.aliases[k].parent == parent);
    }
}

/// In a valid table no two records are of one file, no record lists an alias twice, and every
/// record but the root is referred to by the guest or has the alias of another record, or one
/// of its own, in it.
pub proof fn law_valid_records(records: Map<u64, Record>, i: u64, j: u64)
    requires
        records_wf(records),
        records.contains_key(i),
        records.contains_key(j),
    ensures
        records[i].key == records[j].key ==> i == j,
        records[i].aliases.no_duplicates(),
        i != 1 && records[i].lookups == 0 ==> exists|child: u64, e: Entry|
            records.contains_key(child) && #[trigger] records[child].aliases.contains(e)
                && e.parent == i,
{
    assert(records.dom().contains(i));
    assert(needed(records, records.dom(), i));
    if i != 1 && records[i].lookups == 0 {
        let child = choose|child: u64| #[trigger]
            records.dom().contains(child) && anchored_in(records[child], i);
        lemma_lies_in(records[child], i);
        let e = choose|e: Entry| #[trigger] records[child].aliases.contains(e) && e.parent == i;
        assert(records.contains_key(child) && records[child].aliases.contains(e));
    }
}

/// A lookup of a file that has a record adds one to its references. One of a file that has none
/// makes a record with one. Where aliases are tracked the entry is the last of the aliases,
/// unless it was one already; elsewhere there is no new alias. Nothing else changes.
pub proof fn law_lookup(
    records: Map<u64, Record>,
    fresh: u64,
    host: Host,
    entry: Entry,
    key: InodeAltKey,
)
    requires
        records_wf(records),
        !records.contains_key(fresh),
        find_key(records, key) matches Some(i) ==> records[i].lookups < u64::MAX,
    ensures
        ({
            let after = looked_up(records, fresh, host.tracks_aliases(), entry, key);
            let tracks = host is Linux || host == (Host::MacOs { anchor: true });
            let inode = match find_key(records, key) {
                Some(i) => i,
                None => fresh,
            };
            &&& after.dom() == records.dom().insert(inode)
            &&& forall|i: u64| #[trigger]
                after.contains_key(i) && i != inode ==> after[i] == records[i]
            &&& after[inode].key == key
            &&& find_key(records, key) is Some ==> {
                &&& after[inode].lookups == records[inode].lookups + 1
                &&& after[inode].unlinked == records[inode].unlinked
                &&& tracks && !records[inode].aliases.contains(entry) ==> after[inode].aliases
                    == records[inode].aliases.push(entry)
                &&& !tracks || records[inode].aliases.contains(entry) ==> after[inode].aliases
                    == records[inode].aliases
            }
            &&& find_key(records, key) is None ==> {
                &&& after[inode].lookups == 1
                &&& after[inode].unlinked is None
                &&& tracks ==> after[inode].aliases == seq![entry]
                &&& !tracks ==> after[inode].aliases == Seq::<Entry>::empty()
            }
        }),
{
    let after = looked_up(records, fresh, host.tracks_aliases(), entry, key);
    let inode = match find_key(records, key) {
        Some(i) => i,
        None => fresh,
    };
    law_inode_of_a_file(records, key, inode);
    assert(after.dom() =~= records.dom().insert(inode));
    if find_key(records, key) is None && host.tracks_aliases() {
        assert(!Seq::<Entry>::empty().contains(entry));
        assert(after[inode].aliases =~= seq![entry]);
    }
}

/// To give up fewer references than there are leaves the rest of them, and changes nothing
/// else.
pub proof fn law_forget_counts(records: Map<u64, Record>, inode: u64, count: u64)
    requires
        records_wf(records),
        records.contains_key(inode),
        count < records[inode].lookups,
    ensures
        ({
            let after = forget(records, inode, count);
            &&& after.dom() == records.dom()
            &&& after[inode].lookups == records[inode].lookups - count
            &&& after[inode].key == records[inode].key
            &&& after[inode].aliases == records[inode].aliases
            &&& after[inode].unlinked == records[inode].unlinked
            &&& forall|i: u64| #[trigger]
                after.contains_key(i) && i != inode ==> after[i] == records[i]
        }),
{
    let counted = counted_down(records, inode, count);
    lemma_recount_tidy(records, inode, counted[inode]);
    lemma_prune_of_tidy(counted);
    assert(counted.dom() =~= records.dom());
}

/// Records stay needed when one of them has another number of references, but some.
proof fn lemma_recount_tidy(records: Map<u64, Record>, inode: u64, record: Record)
    requires
        tidy(records),
        records.contains_key(inode),
        record.lookups > 0,
        record.aliases == records[inode].aliases,
    ensures
        tidy(records.insert(inode, record)),
{
    let after = records.insert(inode, record);
    assert forall|i: u64| #[trigger] after.dom().contains(i) implies after.contains_key(i)
        && needed(after, after.dom(), i) by {
        if i != inode {
            assert(records.dom().contains(i));
            assert(needed(records, records.dom(), i));
            if i != 1 && records[i].lookups == 0 {
                let child = choose|child: u64| #[trigger]
                    records.dom().contains(child) && anchored_in(records[child], i);
                assert(after[child].aliases == records[child].aliases);
                assert(after.dom().contains(child) && anchored_in(after[child], i));
            }
        }
    }
}

/// To give up all references, or more, leaves none. The record goes unless it is the root or
/// something in the table is found through it; no other record changes; and no other goes that
/// is the root, is referred to, or has something in the table found through it.
pub proof fn law_forget_all(records: Map<u64, Record>, inode: u64, count: u64)
    requires
        records_wf(records),
        records.contains_key(inode),
        count >= records[inode].lookups,
    ensures
        ({
            let after = forget(records, inode, count);
            &&& records_wf(after)
            &&& forall|i: u64| #[trigger]
                after.contains_key(i) ==> {
                    &&& records.contains_key(i)
                    &&& after[i].lookups == if i == inode {
                        0
                    } else {
                        records[i].lookups
                    }
                    &&& after[i].key == records[i].key
                    &&& after[i].aliases == records[i].aliases
                    &&& after[i].unlinked == records[i].unlinked
                }
            &&& forall|i: u64| #[trigger]
                records.contains_key(i) && (i == 1 || (i != inode && records[i].lookups > 0))
                    ==> after.contains_key(i)
            &&& forall|child: u64, e: Entry|
                after.contains_key(child) && #[trigger] after[child].aliases.contains(e)
                    && records.contains_key(e.parent) ==> after.contains_key(e.parent)
            &&& after.contains_key(inode) && inode != 1 ==> exists|child: u64, e: Entry|
                after.contains_key(child) && #[trigger] after[child].aliases.contains(e)
                    && e.parent == inode
        }),
{
    let counted = counted_down(records, inode, count);
    let after = forget(records, inode, count);
    lemma_prune_sustains(counted);
    assert forall|a: u64, b: u64|
        #![trigger counted[a].key, counted[b].key]
        counted.contains_key(a) && counted.contains_key(b) && counted[a].key == counted[b].key
            implies a == b by {
        assert(records[a].key == records[b].key);
    }
    lemma_prune_wf(counted);
    assert forall|i: u64| #[trigger]
        records.contains_key(i) && (i == 1 || (i != inode && records[i].lookups > 0))
            implies after.contains_key(i) by {
        lemma_prune_keeps_self(counted, i);
    }
    assert forall|child: u64, e: Entry|
        after.contains_key(child) && #[trigger] after[child].aliases.contains(e)
            && records.contains_key(e.parent) implies after.contains_key(e.parent) by {
        lemma_lies_in(counted[child], e.parent);
        lemma_prune_keeps_parent(counted, child, e.parent);
    }
    if after.contains_key(inode) {
        law_valid_records(after, inode, inode);
    }
}

/// The root, and what the guest refers to, outlast pruning.
proof fn lemma_prune_keeps_self(records: Map<u64, Record>, i: u64)
    requires
        records.contains_key(i),
        i == 1 || records[i].lookups > 0,
    ensures
        prune(records).contains_key(i),
{
    let live = Set::empty().insert(i);
    assert(crate::model::self_sustaining(records, live));
    crate::model::lemma_prune_keeps(records, live);
    assert(live.contains(i));
}

/// To give up `m` references and then `n` is to give up `m + n`.
pub proof fn law_forget_adds_up(records: Map<u64, Record>, inode: u64, m: u64, n: u64)
    requires
        records_wf(records),
        m + n <= u64::MAX,
    ensures
        forget(forget(records, inode, m), inode, n) == forget(records, inode, (m + n) as u64),
{
    if records.contains_key(inode) {
        let once = forget(records, inode, m);
        let counted = counted_down(records, inode, m);
        if m < records[inode].lookups {
            law_forget_counts(records, inode, m);
            assert(once =~= counted);
            assert(counted_down(once, inode, n) =~= counted_down(
                records,
                inode,
                (m + n) as u64,
            ));
        } else {
            assert(counted =~= counted_down(records, inode, (m + n) as u64));
            lemma_prune_tidy(counted);
            if once.contains_key(inode) {
                assert(counted_down(once, inode, n) =~= once);
                lemma_prune_of_tidy(once);
            }
        }
    }
}

/// To give up one reference undoes a lookup that found a file known already, under an entry
/// that it is known by.
pub proof fn law_forget_undoes_lookup(
    records: Map<u64, Record>,
    fresh: u64,
    host: Host,
    entry: Entry,
    key: InodeAltKey,
    inode: u64,
)
    requires
        records_wf(records),
        !records.contains_key(fresh),
        find_key(records, key) == Some(inode),
        0 < records[inode].lookups < u64::MAX,
        records[inode].aliases.contains(entry) || host == (Host::MacOs { anchor: false }),
    ensures
        forget(looked_up(records, fresh, host.tracks_aliases(), entry, key), inode, 1) == records,
{
    let once = looked_up(records, fresh, host.tracks_aliases(), entry, key);
    law_inode_of_a_file(records, key, inode);
    law_lookup(records, fresh, host, entry, key);
    assert(once =~= records.insert(inode, once[inode]));
    lemma_recount_tidy(records, inode, once[inode]);
    assert forall|a: u64, b: u64|
        #![trigger once[a].key, once[b].key]
        once.contains_key(a) && once.contains_key(b) && once[a].key == once[b].key implies a
        == b by {
        assert(records[a].key == records[b].key);
    }
    assert(records_wf(once));
    law_forget_counts(once, inode, 1);
    assert(forget(once, inode, 1) =~= records);
}

/// To give up references to an inode that has no record changes nothing.
pub proof fn law_forget_unknown(records: Map<u64, Record>, inode: u64, count: u64)
    requires
        !records.contains_key(inode),
    ensures
        forget(records, inode, count) == records,
{
}

/// A new alias is the last of the inode's aliases, unless it was one already; nothing else
/// changes.
pub proof fn law_added_alias(records: Map<u64, Record>, inode: u64, entry: Entry)
    ensures
        ({
            let after = add_alias(records, inode, entry);
            &&& after.dom() == records.dom()
            &&& forall|i: u64| #[trigger]
                after.contains_key(i) && i != inode ==> after[i] == records[i]
            &&& records.contains_key(inode) ==> {
                &&& after[inode].key == records[inode].key
                &&& after[inode].lookups == records[inode].lookups
                &&& after[inode].unlinked == records[inode].unlinked
                &&& records[inode].aliases.contains(entry) ==> after[inode].aliases
                    == records[inode].aliases
                &&& !records[inode].aliases.contains(entry) ==> after[inode].aliases
                    == records[inode].aliases.push(entry)
            }
        }),
{
    assert(add_alias(records, inode, entry).dom() =~= records.dom());
}

/// A removed alias is gone from the inode's aliases, the others staying in their order. No
/// other record changes. None goes that is the root, is referred to by the guest, or has
/// something in the table found through it; and none stays that is none of these.
pub proof fn law_removed_alias(records: Map<u64, Record>, inode: u64, entry: Entry)
    requires
        records_wf(records),
    ensures
        ({
            let after = remove_alias(records, inode, entry);
            &&& records_wf(after)
            &&& !records.contains_key(inode) ==> after == records
            &&& forall|i: u64| #[trigger]
                after.contains_key(i) ==> {
                    &&& records.contains_key(i)
                    &&& after[i].key == records[i].key
                    &&& after[i].lookups == records[i].lookups
                    &&& after[i].unlinked == records[i].unlinked
                    &&& after[i].aliases == if i == inode {
                        records[i].aliases.remove_value(entry)
                    } else {
                        records[i].aliases
                    }
                }
            &&& forall|i: u64| #[trigger]
                records.contains_key(i) && (i == 1 || records[i].lookups > 0)
                    ==> after.contains_key(i)
            &&& forall|child: u64, e: Entry|
                after.contains_key(child) && #[trigger] after[child].aliases.contains(e)
                    && records.contains_key(e.parent) ==> after.contains_key(e.parent)
        }),
{
    let after = remove_alias(records, inode, entry);
    let stripped = strip_alias(records, inode, entry);
    lemma_remove_alias_wf(records, inode, entry);
    lemma_remove_alias_frame(records, inode, entry);
    assert forall|i: u64| #[trigger]
        records.contains_key(i) && (i == 1 || records[i].lookups > 0) implies after.contains_key(
        i,
    ) by {
        if records.contains_key(inode) {
            lemma_prune_keeps_self(stripped, i);
        }
    }
    assert forall|child: u64, e: Entry|
        after.contains_key(child) && #[trigger] after[child].aliases.contains(e)
            && records.contains_key(e.parent) implies after.contains_key(e.parent) by {
        if records.contains_key(inode) {
            lemma_lies_in(stripped[child], e.parent);
            lemma_prune_keeps_parent(stripped, child, e.parent);
        }
    }
}

/// A descriptor kept for an inode takes the place of the one that it held; nothing else changes.
pub proof fn law_kept_descriptor(records: Map<u64, Record>, inode: u64, fd: Option<i32>)
    requires
        records.contains_key(inode),
    ensures
        ({
            let after = retain(records, inode, fd);
            &&& after.dom() == records.dom()
            &&& forall|i: u64| #[trigger]
                after.contains_key(i) && i != inode ==> after[i] == records[i]
            &&& after[inode].unlinked == fd
            &&& after[inode].key == records[inode].key
            &&& after[inode].lookups == records[inode].lookups
            &&& after[inode].aliases == records[inode].aliases
        }),
{
    assert(retain(records, inode, fd).dom() =~= records.dom());
}

/// Where aliases are tracked, the table after a removal: the file's record lists every alias
/// but the removed entry, in the order that they had, and holds the operation's descriptor if
/// none is left and there is one. No record has another file or other references, and no other
/// record changes. The descriptor that is not held, or the one that it displaced, is left to be
/// closed. No record goes that is the root, is referred to by the guest, or has something in
/// the table found through it.
pub proof fn law_tracked_removal_table(
    records: Map<u64, Record>,
    host: Host,
    entry: Entry,
    key: InodeAltKey,
    fd: Option<i32>,
)
    requires
        records_wf(records),
        host is Linux || host == (Host::MacOs { anchor: true }),
    ensures
        ({
            let (after, close) = removal_settled(records, host, entry, key, fd);
            &&& records_wf(after)
            &&& forall|i: u64| #[trigger]
                after.contains_key(i) ==> {
                    let left = records[i].aliases.remove_value(entry);
                    let of_file = records[i].key == key;
                    &&& records.contains_key(i)
                    &&& after[i].key == records[i].key
                    &&& after[i].lookups == records[i].lookups
                    &&& after[i].aliases == if of_file {
                        left
                    } else {
                        records[i].aliases
                    }
                    &&& after[i].unlinked == if of_file && fd is Some && left.len() == 0 {
                        fd
                    } else {
                        records[i].unlinked
                    }
                }
            &&& forall|i: u64| #[trigger]
                records.contains_key(i) && records[i].key == key ==> close == if fd is Some
                    && after.contains_key(i) && records[i].aliases.remove_value(entry).len() == 0 {
                    records[i].unlinked
                } else {
                    fd
                }
            &&& (forall|i: u64| #[trigger] records.contains_key(i) ==> records[i].key != key)
                ==> after == records && close == fd
            &&& forall|i: u64| #[trigger]
                records.contains_key(i) && (i == 1 || records[i].lookups > 0)
                    ==> after.contains_key(i)
            &&& forall|child: u64, e: Entry|
                after.contains_key(child) && #[trigger] after[child].aliases.contains(e)
                    && records.contains_key(e.parent) ==> after.contains_key(e.parent)
        }),
{
    let (after, close) = removal_settled(records, host, entry, key, fd);
    match find_key(records, key) {
        Some(inode) => {
            law_inode_of_a_file(records, key, inode);
            lemma_released_table(records, inode, entry, fd);
            assert forall|i: u64| #[trigger] records.contains_key(i) && records[i].key == key
                implies i == inode by {
                law_inode_of_a_file(records, key, i);
            }
        },
        None => {
            assert forall|i: u64| #[trigger] records.contains_key(i) implies records[i].key
                != key by {
                law_inode_of_a_file(records, key, i);
            }
        },
    }
}

proof fn lemma_released_table(
    records: Map<u64, Record>,
    inode: u64,
    entry: Entry,
    fd: Option<i32>,
)
    requires
        records_wf(records),
        records.contains_key(inode),
    ensures
        ({
            let (after, close) = crate::removal::released_entry(records, inode, entry, fd);
            let left = records[inode].aliases.remove_value(entry);
            &&& records_wf(after)
            &&& forall|i: u64| #[trigger]
                after.contains_key(i) ==> {
                    &&& records.contains_key(i)
                    &&& after[i].key == records[i].key
                    &&& after[i].lookups == records[i].lookups
                    &&& after[i].aliases == if i == inode {
                        left
                    } else {
                        records[i].aliases
                    }
                    &&& after[i].unlinked == if i == inode && fd is Some && left.len() == 0 {
                        fd
                    } else {
                        records[i].unlinked
                    }
                }
            &&& close == if fd is Some && after.contains_key(inode) && left.len() == 0 {
                records[inode].unlinked
            } else {
                fd
            }
            &&& forall|i: u64| #[trigger]
                records.contains_key(i) && (i == 1 || records[i].lookups > 0)
                    ==> after.contains_key(i)
            &&& forall|child: u64, e: Entry|
                after.contains_key(child) && #[trigger] after[child].aliases.contains(e)
                    && records.contains_key(e.parent) ==> after.contains_key(e.parent)
        }),
{
    let middle = remove_alias(records, inode, entry);
    let (after, close) = crate::removal::released_entry(records, inode, entry, fd);
    law_removed_alias(records, inode, entry);
    assert(after.dom() =~= middle.dom());
    assert forall|i: u64| #[trigger] after.contains_key(i) implies middle.contains_key(i)
        && after[i].aliases == middle[i].aliases && after[i].key == middle[i].key
        && after[i].lookups == middle[i].lookups by {
        assert(middle.dom().contains(i));
    }
    assert forall|i: u64| #[trigger] middle.contains_key(i) implies after.contains_key(i) by {
        assert(after.dom().contains(i));
    }
    lemma_same_shape(middle, after);
    assert forall|child: u64, e: Entry|
        after.contains_key(child) && #[trigger] after[child].aliases.contains(e)
            && records.contains_key(e.parent) implies after.contains_key(e.parent) by {
        assert(middle[child].aliases.contains(e));
    }
}

/// Validity does not rest on the descriptors.
proof fn lemma_same_shape(a: Map<u64, Record>, b: Map<u64, Record>)
    requires
        records_wf(a),
        a.dom() == b.dom(),
        forall|i: u64| #[trigger]
            b.contains_key(i) ==> a[i].key == b[i].key && a[i].lookups == b[i].lookups
                && a[i].aliases == b[i].aliases,
    ensures
        records_wf(b),
{
    assert forall|i: u64| #[trigger] b.dom().contains(i) implies b.contains_key(i) && needed(
        b,
        b.dom(),
        i,
    ) by {
        assert(a.dom().contains(i));
        assert forall|j: u64| #[trigger] b.dom().contains(j) implies a[j].lookups == b[j].lookups
            && a[j].aliases == b[j].aliases by {
            assert(b.contains_key(j));
        }
        lemma_needed_congruent(a, b, b.dom(), i);
    }
    assert forall|i: u64, j: u64|
        #![trigger b[i].key, b[j].key]
        b.contains_key(i) && b.contains_key(j) && b[i].key == b[j].key implies i == j by {
        assert(a.dom().contains(i) && a.dom().contains(j));
        assert(a[i].key == a[j].key);
    }
    assert forall|i: u64| #[trigger] b.contains_key(i) implies b[i].aliases.no_duplicates() by {
        assert(a.dom().contains(i));
    }
}

/// Where aliases are not tracked, the table after a removal: the file's record holds the
/// operation's descriptor, and the one that it held is left to be closed. Without such a record
/// the operation's own is. Nothing else changes.
pub proof fn law_untracked_removal_table(
    records: Map<u64, Record>,
    entry: Entry,
    key: InodeAltKey,
    fd: i32,
)
    requires
        records_wf(records),
    ensures
        ({
            let host = Host::MacOs { anchor: false };
            let (after, close) = removal_settled(records, host, entry, key, Some(fd));
            &&& after.dom() == records.dom()
            &&& forall|i: u64| #[trigger]
                after.contains_key(i) ==> {
                    &&& after[i].key == records[i].key
                    &&& after[i].lookups == records[i].lookups
                    &&& after[i].aliases == records[i].aliases
                    &&& after[i].unlinked == if records[i].key == key {
                        Some(fd)
                    } else {
                        records[i].unlinked
                    }
                }
            &&& forall|i: u64| #[trigger]
                records.contains_key(i) && records[i].key == key ==> close == records[i].unlinked
            &&& (forall|i: u64| #[trigger] records.contains_key(i) ==> records[i].key != key)
                ==> close == Some(fd)
        }),
{
    let host = Host::MacOs { anchor: false };
    let (after, close) = removal_settled(records, host, entry, key, Some(fd));
    match find_key(records, key) {
        Some(inode) => {
            law_inode_of_a_file(records, key, inode);
            law_kept_descriptor(records, inode, Some(fd));
            assert forall|i: u64| #[trigger] records.contains_key(i) && records[i].key == key
                implies i == inode by {
                law_inode_of_a_file(records, key, i);
            }
            assert forall|i: u64| #[trigger] after.contains_key(i) implies records.contains_key(
                i,
            ) by {
                assert(after.dom().contains(i));
            }
        },
        None => {
            assert forall|i: u64| #[trigger] records.contains_key(i) implies records[i].key
                != key by {
                law_inode_of_a_file(records, key, i);
            }
        },
    }
}

/// The aliases `s` once `gone` is taken off and `new` added, in the order of the host.
spec fn realiased(host: Host, s: Seq<Entry>, gone: Entry, new: Entry) -> Seq<Entry> {
    if host == (Host::MacOs { anchor: true }) {
        let both = if s.contains(new) {
            s
        } else {
            s.push(new)
        };
        both.remove_value(gone)
    } else {
        let rest = s.remove_value(gone);
        if rest.contains(new) {
            rest
        } else {
            rest.push(new)
        }
    }
}

proof fn lemma_moved_table(
    records: Map<u64, Record>,
    host: Host,
    inode: u64,
    from: Entry,
    to: Entry,
)
    requires
        records_wf(records),
        records.contains_key(inode),
    ensures
        ({
            let after = move_alias(records, host, inode, from, to);
            &&& records_wf(after)
            &&& forall|i: u64| #[trigger]
                after.contains_key(i) ==> {
                    &&& records.contains_key(i)
                    &&& after[i].key == records[i].key
                    &&& after[i].lookups == records[i].lookups
                    &&& after[i].unlinked == records[i].unlinked
                    &&& after[i].aliases == if i == inode {
                        realiased(host, records[i].aliases, from, to)
                    } else {
                        records[i].aliases
                    }
                }
            &&& forall|i: u64| #[trigger]
                records.contains_key(i) && (i == 1 || records[i].lookups > 0)
                    ==> after.contains_key(i)
            &&& from != to ==> forall|child: u64, e: Entry|
                after.contains_key(child) && #[trigger] after[child].aliases.contains(e)
                    && records[child].aliases.contains(e) && records.contains_key(e.parent)
                    ==> after.contains_key(e.parent)
        }),
{
    let after = move_alias(records, host, inode, from, to);
    if host.anchored() {
        let both = add_alias(records, inode, to);
        law_added_alias(records, inode, to);
        lemma_add_alias_wf(records, inode, to);
        law_removed_alias(both, inode, from);
        assert forall|i: u64| #[trigger] records.contains_key(i) == both.contains_key(i) by {
            assert(records.dom().contains(i) == both.dom().contains(i));
        }
        assert forall|i: u64| #[trigger] after.contains_key(i) implies records.contains_key(i) by {
            assert(both.contains_key(i));
            assert(both.dom().contains(i));
        }
    } else {
        let neither = remove_alias(records, inode, from);
        law_removed_alias(records, inode, from);
        law_added_alias(neither, inode, to);
        lemma_add_alias_wf(neither, inode, to);
        lemma_remove_value(records[inode].aliases, from);
        assert forall|i: u64| #[trigger] after.contains_key(i) == neither.contains_key(i) by {
            assert(after.dom().contains(i) == neither.dom().contains(i));
        }
        assert forall|i: u64| #[trigger] after.contains_key(i) implies neither.contains_key(i)
            && records.contains_key(i) by {
            assert(neither.dom().contains(i));
        }
        if from != to {
            assert forall|child: u64, e: Entry|
                after.contains_key(child) && #[trigger] after[child].aliases.contains(e)
                    && records[child].aliases.contains(e) && records.contains_key(e.parent)
                    implies after.contains_key(e.parent) by {
                assert(neither.contains_key(child));
                if child == inode && e == from {
                    if neither[inode].aliases.contains(to) {
                        assert(neither[inode].aliases.contains(e));
                    } else {
                        lemma_pushed(neither[inode].aliases, to, e);
                    }
                }
                assert(neither[child].aliases.contains(e));
                assert(neither.contains_key(e.parent));
            }
        }
    }
}

proof fn lemma_pushed(s: Seq<Entry>, last: Entry, e: Entry)
    requires
        s.push(last).contains(e),
    ensures
        s.contains(e) || e == last,
{
    let k = choose|k: int| 0 <= k < s.push(last).len() && s.push(last)[k] == e;
    if k < s.len() {
        assert(s[k] == e);
    }
}

/// Everything that a rename does to the table, the aliases that a move leaves taken from
/// `realiased`.
proof fn lemma_rename_table(
    records: Map<u64, Record>,
    host: Host,
    exchange: bool,
    from: Entry,
    to: Entry,
    source: InodeAltKey,
    target: Option<Target>,
)
    requires
        records_wf(records),
        !(target is Some && target->0.key == source && (exchange || host == (Host::MacOs {
            anchor: true,
        }))),
    ensures
        ({
            let (after, close) = rename_settled(records, host, exchange, from, to, source, target);
            let fd = if target is Some {
                target->0.fd
            } else {
                None
            };
            &&& records_wf(after)
            &&& forall|i: u64| #[trigger]
                after.contains_key(i) ==> {
                    let s = records[i].aliases;
                    let is_source = records[i].key == source;
                    let is_target = target is Some && records[i].key == target->0.key
                        && !is_source;
                    &&& records.contains_key(i)
                    &&& after[i].key == records[i].key
                    &&& after[i].lookups == records[i].lookups
                    &&& after[i].aliases == if is_source {
                        realiased(host, s, from, to)
                    } else if is_target && exchange {
                        realiased(host, s, to, from)
                    } else if is_target {
                        s.remove_value(to)
                    } else {
                        s
                    }
                    &&& after[i].unlinked == if is_target && !exchange && fd is Some
                        && s.remove_value(to).len() == 0 {
                        fd
                    } else {
                        records[i].unlinked
                    }
                }
            &&& (exchange || target is None || target->0.key == source) ==> close == fd
            &&& !exchange && target is Some && target->0.key != source ==> {
                &&& forall|i: u64| #[trigger]
                    records.contains_key(i) && records[i].key == target->0.key ==> close == if fd
                        is Some && after.contains_key(i) && records[i].aliases.remove_value(
                        to,
                    ).len() == 0 {
                        records[i].unlinked
                    } else {
                        fd
                    }
                &&& (forall|i: u64| #[trigger]
                    records.contains_key(i) ==> records[i].key != target->0.key) ==> close == fd
            }
            &&& forall|i: u64| #[trigger]
                records.contains_key(i) && (i == 1 || records[i].lookups > 0)
                    ==> after.contains_key(i)
            &&& from != to ==> forall|child: u64, e: Entry|
                after.contains_key(child) && #[trigger] after[child].aliases.contains(e)
                    && records[child].aliases.contains(e) && records.contains_key(e.parent)
                    ==> after.contains_key(e.parent)
        }),
{
    let (after, close) = rename_settled(records, host, exchange, from, to, source, target);
    let holder = find_key(records, source);
    let moved = match holder {
        Some(inode) => move_alias(records, host, inode, from, to),
        None => records,
    };
    assert forall|i: u64| #[trigger] records.contains_key(i) && records[i].key == source implies
        holder == Some(i) by {
        law_inode_of_a_file(records, source, i);
    }
    if let Some(inode) = holder {
        law_inode_of_a_file(records, source, inode);
        lemma_moved_table(records, host, inode, from, to);
    }
    if let Some(t) = target {
        let found = find_key(moved, t.key);
        assert forall|i: u64| #[trigger] moved.contains_key(i) && moved[i].key == t.key implies
            found == Some(i) by {
            law_inode_of_a_file(moved, t.key, i);
        }
        if let Some(other) = found {
            law_inode_of_a_file(moved, t.key, other);
            assert(records.contains_key(other) && records[other].key == t.key);
            assert forall|i: u64| #[trigger] records.contains_key(i) && records[i].key == t.key
                implies i == other by {
                law_valid_records(records, i, other);
            }
            if holder != Some(other) {
                assert(records[other].key != source);
                if exchange {
                    lemma_moved_table(moved, host, other, to, from);
                } else {
                    lemma_released_table(moved, other, to, t.fd);
                }
                assert forall|i: u64| #[trigger]
                    records.contains_key(i) && (i == 1 || records[i].lookups > 0)
                        implies after.contains_key(i) by {
                    assert(moved.contains_key(i));
                }
                if from != to {
                    assert forall|child: u64, e: Entry|
                        after.contains_key(child) && #[trigger] after[child].aliases.contains(e)
                            && records[child].aliases.contains(e) && records.contains_key(e.parent)
                            implies after.contains_key(e.parent) by {
                        assert(moved.contains_key(child));
                        assert(moved[child].aliases.contains(e));
                        assert(moved.contains_key(e.parent));
                    }
                }
            }
        } else {
            assert forall|i: u64| #[trigger] moved.contains_key(i) implies moved[i].key
                != t.key by {
                law_inode_of_a_file(moved, t.key, i);
            }
        }
    }
}

/// On Linux, the table after a rename. The source lists its aliases without the old entry, in
/// their order, and the new entry last if it is not among them. In an exchange the target lists
/// its own without the new entry, and the old one last; otherwise without the new entry, and
/// holds its descriptor if none is left and there is one. What is not held, or was displaced,
/// is left to be closed. No record has another file or other references, no other record
/// changes, and none goes that is the root, is referred to by the guest, or has something found
/// through it under an alias that it had before. An exchange of two entries of one file changes
/// nothing.
pub proof fn law_linux_rename_table(
    records: Map<u64, Record>,
    exchange: bool,
    from: Entry,
    to: Entry,
    source: InodeAltKey,
    target: Option<Target>,
)
    requires
        records_wf(records),
    ensures
        ({
            let host = Host::Linux;
            let (after, close) = rename_settled(records, host, exchange, from, to, source, target);
            let fd = if target is Some {
                target->0.fd
            } else {
                None
            };
            let same = target is Some && target->0.key == source;
            &&& same && exchange ==> after == records && close == fd
            &&& !(same && exchange) ==> {
                &&& records_wf(after)
                &&& forall|i: u64| #[trigger]
                    after.contains_key(i) ==> {
                        let s = records[i].aliases;
                        let is_source = records[i].key == source;
                        let is_target = target is Some && records[i].key == target->0.key
                            && !is_source;
                        &&& records.contains_key(i)
                        &&& after[i].key == records[i].key
                        &&& after[i].lookups == records[i].lookups
                        &&& is_source ==> after[i].aliases == if s.remove_value(from).contains(
                            to,
                        ) {
                            s.remove_value(from)
                        } else {
                            s.remove_value(from).push(to)
                        }
                        &&& is_target && exchange ==> after[i].aliases == if s.remove_value(
                            to,
                        ).contains(from) {
                            s.remove_value(to)
                        } else {
                            s.remove_value(to).push(from)
                        }
                        &&& is_target && !exchange ==> after[i].aliases == s.remove_value(to)
                        &&& !is_source && !is_target ==> after[i].aliases == s
                        &&& after[i].unlinked == if is_target && !exchange && fd is Some
                            && s.remove_value(to).len() == 0 {
                            fd
                        } else {
                            records[i].unlinked
                        }
                    }
                &&& (exchange || target is None || same) ==> close == fd
                &&& !exchange && target is Some && !same ==> {
                    &&& forall|i: u64| #[trigger]
                        records.contains_key(i) && records[i].key == target->0.key ==> close
                            == if fd is Some && after.contains_key(i)
                            && records[i].aliases.remove_value(to).len() == 0 {
                            records[i].unlinked
                        } else {
                            fd
                        }
                    &&& (forall|i: u64| #[trigger]
                        records.contains_key(i) ==> records[i].key != target->0.key) ==> close
                        == fd
                }
                &&& forall|i: u64| #[trigger]
                    records.contains_key(i) && (i == 1 || records[i].lookups > 0)
                        ==> after.contains_key(i)
                &&& from != to ==> forall|child: u64, e: Entry|
                    after.contains_key(child) && #[trigger] after[child].aliases.contains(e)
                        && records[child].aliases.contains(e) && records.contains_key(e.parent)
                        ==> after.contains_key(e.parent)
            }
        }),
{
    if !(target is Some && target->0.key == source && exchange) {
        lemma_rename_table(records, Host::Linux, exchange, from, to, source, target);
    }
}

/// In anchor mode, the table after a rename. The source lists its aliases, in their order, and
/// the new entry last if it was not among them, without the old one; in an exchange the target
/// does so the other way round, and otherwise lists its own without the new entry, and holds
/// its descriptor if none is left and there is one. What is not held, or was displaced, is left
/// to be closed. No record has another file or other references, no other record changes, and
/// none goes that is the root, is referred to by the guest, or has something found through it
/// under an alias that it had before. Where both entries are of one file nothing changes.
pub proof fn law_anchored_rename_table(
    records: Map<u64, Record>,
    exchange: bool,
    from: Entry,
    to: Entry,
    source: InodeAltKey,
    target: Option<Target>,
)
    requires
        records_wf(records),
    ensures
        ({
            let host = Host::MacOs { anchor: true };
            let (after, close) = rename_settled(records, host, exchange, from, to, source, target);
            let fd = if target is Some {
                target->0.fd
            } else {
                None
            };
            let same = target is Some && target->0.key == source;
            &&& same ==> after == records && close == fd
            &&& !same ==> {
                &&& records_wf(after)
                &&& forall|i: u64| #[trigger]
                    after.contains_key(i) ==> {
                        let s = records[i].aliases;
                        let is_source = records[i].key == source;
                        let is_target = target is Some && records[i].key == target->0.key;
                        &&& records.contains_key(i)
                        &&& after[i].key == records[i].key
                        &&& after[i].lookups == records[i].lookups
                        &&& is_source ==> after[i].aliases == if s.contains(to) {
                            s.remove_value(from)
                        } else {
                            s.push(to).remove_value(from)
                        }
                        &&& is_target && exchange ==> after[i].aliases == if s.contains(from) {
                            s.remove_value(to)
                        } else {
                            s.push(from).remove_value(to)
                        }
                        &&& is_target && !exchange ==> after[i].aliases == s.remove_value(to)
                        &&& !is_source && !is_target ==> after[i].aliases == s
                        &&& after[i].unlinked == if is_target && !exchange && fd is Some
                            && s.remove_value(to).len() == 0 {
                            fd
                        } else {
                            records[i].unlinked
                        }
                    }
                &&& (exchange || target is None) ==> close == fd
                &&& !exchange && target is Some ==> {
                    &&& forall|i: u64| #[trigger]
                        records.contains_key(i) && records[i].key == target->0.key ==> close
                            == if fd is Some && after.contains_key(i)
                            && records[i].aliases.remove_value(to).len() == 0 {
                            records[i].unlinked
                        } else {
                            fd
                        }
                    &&& (forall|i: u64| #[trigger]
                        records.contains_key(i) ==> records[i].key != target->0.key) ==> close
                        == fd
                }
                &&& forall|i: u64| #[trigger]
                    records.contains_key(i) && (i == 1 || records[i].lookups > 0)
                        ==> after.contains_key(i)
                &&& from != to ==> forall|child: u64, e: Entry|
                    after.contains_key(child) && #[trigger] after[child].aliases.contains(e)
                        && records[child].aliases.contains(e) && records.contains_key(e.parent)
                        ==> after.contains_key(e.parent)
            }
        }),
{
    let host = Host::MacOs { anchor: true };
    if !(target is Some && target->0.key == source) {
        lemma_rename_table(records, host, exchange, from, to, source, target);
    }
}

/// A rename back undoes a rename: a file that the guest refers to has the aliases that it began
/// with.
pub proof fn law_rename_back(
    records: Map<u64, Record>,
    host: Host,
    from: Entry,
    to: Entry,
    source: InodeAltKey,
    inode: u64,
)
    requires
        records_wf(records),
        records.contains_key(inode),
        records[inode].key == source,
        records[inode].lookups > 0,
        records[inode].aliases.contains(from),
        !records[inode].aliases.contains(to),
    ensures
        ({
            let once = rename_settled(records, host, false, from, to, source, None).0;
            let twice = rename_settled(once, host, false, to, from, source, None).0;
            &&& once.contains_key(inode) && twice.contains_key(inode)
            &&& !once[inode].aliases.contains(from) && once[inode].aliases.contains(to)
            &&& twice[inode].aliases.to_set() == records[inode].aliases.to_set()
            &&& twice[inode].lookups == records[inode].lookups
            &&& twice[inode].unlinked == records[inode].unlinked
        }),
{
    let once = rename_settled(records, host, false, from, to, source, None).0;
    let twice = rename_settled(once, host, false, to, from, source, None).0;
    law_inode_of_a_file(records, source, inode);
    lemma_rename_table(records, host, false, from, to, source, None);
    law_rename_moves_source(records, host, false, from, to, source, None, inode);
    law_inode_of_a_file(once, source, inode);
    law_rename_moves_source(once, host, false, to, from, source, None, inode);
    assert(once[inode].aliases.to_set().contains(to));
    assert(!once[inode].aliases.to_set().contains(from));
    assert(twice[inode].aliases.to_set() =~= records[inode].aliases.to_set());
}

/// What is handed out: every record that the table had and has no more, once, of the same file,
/// with the descriptor that it held and no references, and with its aliases unless it is one of
/// `changed`; and nothing else.
pub proof fn law_handed_out(
    gone: Seq<InodeData>,
    before: Map<u64, Record>,
    after: Map<u64, Record>,
    changed: Set<u64>,
)
    requires
        released(gone, before, after, changed),
    ensures
        forall|j: int, k: int|
            0 <= j < k < gone.len() ==> (#[trigger] gone[j]).inode != (#[trigger] gone[k]).inode,
        forall|k: int|
            0 <= k < gone.len() ==> {
                let i = (#[trigger] gone[k]).inode;
                &&& before.contains_key(i) && !after.contains_key(i)
                &&& gone[k].key == before[i].key
                &&& gone[k].unlinked == before[i].unlinked
                &&& gone[k].lookups == 0
                &&& !changed.contains(i) ==> gone[k]@.aliases == before[i].aliases
            },
        forall|i: u64| #[trigger]
            before.contains_key(i) && !after.contains_key(i) ==> exists|k: int|
                0 <= k < gone.len() && (#[trigger] gone[k]).inode == i,
{
    assert forall|k: int| 0 <= k < gone.len() implies lists(gone, (#[trigger] gone[k]).inode) by {}
    assert forall|i: u64| #[trigger] before.contains_key(i) && !after.contains_key(i) implies
        exists|k: int| 0 <= k < gone.len() && (#[trigger] gone[k]).inode == i by {
        assert(lists(gone, i));
    }
}

/// A removal leaves the table as [`law_tracked_removal_table`] and
/// [`law_untracked_removal_table`] say, for its own host, entry, file and descriptor, and hands
/// out what the table dropped.
pub proof fn law_removal_settles(removal: Removal, table: &mut InodeTable, outcome: Outcome)
    requires
        old(table).wf(),
        removal.stage is Settle,
        call_ensures(Removal::settle, (removal, table), outcome),
    ensures
        final(table).wf(),
        (final(table)@, outcome.close) == removal_settled(
            old(table)@,
            removal.host,
            removal.entry@,
            removal.stage->Settle_key,
            removal.stage->Settle_fd,
        ),
        exists|changed: Set<u64>| #[trigger]
            released(outcome.gone@, old(table)@, final(table)@, changed) && forall|i: u64|
                #[trigger] changed.contains(i) ==> old(table)@[i].key == removal.stage->Settle_key,
{
    let key = removal.stage->Settle_key;
    let changed = removal_touches(old(table)@, key);
    assert forall|i: u64| #[trigger] changed.contains(i) implies old(table)@[i].key == key by {
        law_inode_of_a_file(old(table)@, key, i);
    }
    assert(released(outcome.gone@, old(table)@, final(table)@, changed));
}

/// A rename leaves the table as [`law_linux_rename_table`] and [`law_anchored_rename_table`]
/// say, for its own host, entries, files and descriptor, an exchange exactly if the guest asks
/// for one, and hands out what the table dropped.
pub proof fn law_rename_settles(rename: Rename, table: &mut InodeTable, outcome: Outcome)
    requires
        old(table).wf(),
        rename.stage is Settle,
        call_ensures(Rename::settle, (rename, table), outcome),
    ensures
        final(table).wf(),
        (final(table)@, outcome.close) == rename_settled(
            old(table)@,
            rename.host,
            rename.flags & 2 != 0,
            rename.from@,
            rename.to@,
            rename.stage->Settle_source,
            rename.stage->Settle_target,
        ),
        exists|changed: Set<u64>| #[trigger]
            released(outcome.gone@, old(table)@, final(table)@, changed) && forall|i: u64|
                #[trigger] changed.contains(i) ==> {
                    ||| old(table)@[i].key == rename.stage->Settle_source
                    ||| rename.stage->Settle_target matches Some(target) && old(table)@[i].key
                        == target.key
                },
{
    let source = rename.stage->Settle_source;
    let target = rename.stage->Settle_target;
    let changed = rename_touches(old(table)@, source, target);
    assert forall|i: u64| #[trigger] changed.contains(i) implies old(table)@[i].key == source || (
    target is Some && old(table)@[i].key == target->0.key) by {
        law_inode_of_a_file(old(table)@, source, i);
        if target is Some {
            law_inode_of_a_file(old(table)@, target->0.key, i);
        }
    }
    assert(released(outcome.gone@, old(table)@, final(table)@, changed));
}

/// Records are found by their number and by their file, exactly those that there are.
pub proof fn law_table_finds(
    table: &InodeTable,
    inode: u64,
    key: InodeAltKey,
    numbered: Option<&InodeData>,
    filed: Option<&InodeData>,
)
    requires
        table.wf(),
        call_ensures(InodeTable::get, (table, inode), numbered),
        call_ensures(InodeTable::get_alt, (table, key), filed),
    ensures
        numbered is Some <==> table@.contains_key(inode),
        numbered matches Some(data) ==> data.inode == inode && data@ == table@[inode],
        filed matches Some(data) ==> {
            &&& table@.contains_key(data.inode)
            &&& data@ == table@[data.inode]
            &&& data.key == key
        },
        filed is None ==> forall|i: u64| #[trigger]
            table@.contains_key(i) ==> table@[i].key != key,
{
    if filed is None {
        assert forall|i: u64| #[trigger] table@.contains_key(i) implies table@[i].key != key by {
            law_inode_of_a_file(table@, key, i);
        }
    } else {
        law_inode_of_a_file(table@, key, filed->0.inode);
    }
}

/// A new table knows the root directory as inode 1, with one reference, and nothing else.
pub proof fn law_new_table(key: InodeAltKey, table: InodeTable)
    requires
        call_ensures(InodeTable::new, (key,), table),
    ensures
        table.wf(),
        forall|i: u64| #[trigger] table@.contains_key(i) <==> i == 1,
        table@[1].key == key,
        table@[1].lookups == 1,
        table@[1].aliases.len() == 0,
        table@[1].unlinked is None,
{
}

/// A lookup changes the table as [`law_lookup`] says, and tells the inode; unless there is no
/// number left for it, or for its references, and then it changes nothing.
pub proof fn law_table_looks_up(
    table: &mut InodeTable,
    host: Host,
    entry: NamespaceAlias,
    key: InodeAltKey,
    inode: Option<u64>,
)
    requires
        old(table).wf(),
        call_ensures(InodeTable::record_lookup, (table, host, entry, key), inode),
    ensures
        final(table).wf(),
        inode matches Some(i) ==> {
            &&& final(table)@.contains_key(i)
            &&& final(table)@[i].key == key
            &&& final(table)@ == looked_up(
                old(table)@,
                old(table).fresh(),
                host.tracks_aliases(),
                entry@,
                key,
            )
        },
        inode is None ==> final(table)@ == old(table)@,
        inode matches Some(i) ==> find_key(old(table)@, key) is None ==> !old(
            table,
        )@.contains_key(i) && old(table).fresh() <= i,
        forall|i: u64| #[trigger] final(table)@.contains_key(i) ==> i < final(table).fresh(),
        old(table).fresh() <= final(table).fresh(),
        inode is None <==> match find_key(old(table)@, key) {
            Some(i) => old(table)@[i].lookups == u64::MAX,
            None => old(table).fresh() == u64::MAX,
        },
{
    let before = old(table)@;
    old(table).lemma_wf();
    final(table).lemma_wf();
    if inode is Some {
        law_inode_of_a_file(before, key, inode->0);
        law_lookup(before, old(table).fresh(), host, entry@, key);
    }
}

/// The references of an inode are given up, and what is dropped is handed out.
pub proof fn law_table_forgets(
    table: &mut InodeTable,
    inode: u64,
    count: u64,
    gone: Vec<InodeData>,
)
    requires
        old(table).wf(),
        call_ensures(InodeTable::forget, (table, inode, count), gone),
    ensures
        final(table).wf(),
        final(table)@ == forget(old(table)@, inode, count),
        final(table).fresh() == old(table).fresh(),
        released(gone@, old(table)@, final(table)@, Set::empty()),
{
}

/// An alias is added.
pub proof fn law_table_registers(table: &mut InodeTable, inode: u64, entry: NamespaceAlias)
    requires
        old(table).wf(),
        call_ensures(InodeTable::register_alias, (table, inode, entry), ()),
    ensures
        final(table).wf(),
        final(table)@ == add_alias(old(table)@, inode, entry@),
{
}

/// An alias is removed; the answer is whether the inode has none left; what is dropped is
/// handed out.
pub proof fn law_table_unregisters(
    table: &mut InodeTable,
    inode: u64,
    entry: &NamespaceAlias,
    removed: (bool, Vec<InodeData>),
)
    requires
        old(table).wf(),
        call_ensures(InodeTable::remove_alias, (table, inode, entry), removed),
    ensures
        final(table).wf(),
        final(table)@ == remove_alias(old(table)@, inode, entry@),
        removed.0 <==> old(table)@.contains_key(inode) && old(
            table,
        )@[inode].aliases.remove_value(entry@).len() == 0,
        released(removed.1@, old(table)@, final(table)@, Set::empty().insert(inode)),
{
}

/// A descriptor is kept for an inode that there is, and the one that it held is handed back;
/// for one that there is not, it is handed back itself.
pub proof fn law_table_keeps_descriptor(
    table: &mut InodeTable,
    inode: u64,
    fd: i32,
    unkept: Option<i32>,
)
    requires
        old(table).wf(),
        call_ensures(InodeTable::store_unlinked_fd, (table, inode, fd), unkept),
    ensures
        final(table).wf(),
        old(table)@.contains_key(inode) ==> {
            &&& final(table)@ == retain(old(table)@, inode, Some(fd))
            &&& unkept == old(table)@[inode].unlinked
        },
        !old(table)@.contains_key(inode) ==> final(table)@ == old(table)@ && unkept == Some(fd),
{
}

} // verus!
