//! The inode table as mathematics: which records there are, and which of them are still
//! needed.
use vstd::prelude::*;

use crate::types::{Entry, InodeAltKey, ROOT_INODE};

verus! {

/// What the table knows of one inode.
#[verifier::ext_equal]
pub struct Record {
    /// The file on the host.
    pub key: InodeAltKey,
    /// How many references the guest holds.
    pub lookups: u64,
    /// The entries under which the inode is known, oldest first.
    pub aliases: Seq<Entry>,
    /// The descriptor that keeps the file readable after its last entry went away.
    pub unlinked: Option<i32>,
}

/// Whether some alias of `record` lies in the directory `parent`.
pub open spec fn anchored_in(record: Record, parent: u64) -> bool {
    exists|k: int| 0 <= k < record.aliases.len() && (#[trigger] record.aliases[k]).parent == parent
}

/// Whether `inode` has to stay while the records of `live` are there: it is the root, the
/// guest refers to it, or the alias of a live record lies in it.
pub open spec fn needed(records: Map<u64, Record>, live: Set<u64>, inode: u64) -> bool {
    ||| inode == ROOT_INODE
    ||| records[inode].lookups > 0
    ||| exists|child: u64| #[trigger] live.contains(child) && anchored_in(records[child], inode)
}

/// A set of records each of which is needed while the others of the set are there.
pub open spec fn self_sustaining(records: Map<u64, Record>, live: Set<u64>) -> bool {
    forall|inode: u64| #[trigger]
        live.contains(inode) ==> records.contains_key(inode) && needed(records, live, inode)
}

/// Whether `inode` belongs to some set of records that sustains itself.
pub open spec fn survives(records: Map<u64, Record>, inode: u64) -> bool {
    exists|live: Set<u64>| #[trigger] self_sustaining(records, live) && live.contains(inode)
}

/// The largest part of `records` that sustains itself: what is left once every record that
/// nothing needs any more has been dropped.
pub open spec fn prune(records: Map<u64, Record>) -> Map<u64, Record> {
    Map::new(|inode: u64| survives(records, inode), |inode: u64| records[inode])
}

/// Every record is needed.
pub open spec fn tidy(records: Map<u64, Record>) -> bool {
    self_sustaining(records, records.dom())
}

/// No two records are of the same file.
pub open spec fn keys_unique(records: Map<u64, Record>) -> bool {
    forall|i: u64, j: u64|
        #![trigger records[i].key, records[j].key]
        records.contains_key(i) && records.contains_key(j) && records[i].key == records[j].key
            ==> i == j
}

/// No record lists an alias twice.
pub open spec fn aliases_unique(records: Map<u64, Record>) -> bool {
    forall|i: u64| #[trigger] records.contains_key(i) ==> records[i].aliases.no_duplicates()
}

/// What holds of the table's records between operations.
pub open spec fn records_wf(records: Map<u64, Record>) -> bool {
    &&& keys_unique(records)
    &&& aliases_unique(records)
    &&& tidy(records)
}

/// The inode whose file is `key`, if there is one.
pub open spec fn find_key(records: Map<u64, Record>, key: InodeAltKey) -> Option<u64> {
    if exists|i: u64| #[trigger] records.contains_key(i) && records[i].key == key {
        Some(choose|i: u64| #[trigger] records.contains_key(i) && records[i].key == key)
    } else {
        None
    }
}

/// `records` with `entry` taken off the aliases of `inode`, nothing else changed.
pub open spec fn strip_alias(records: Map<u64, Record>, inode: u64, entry: Entry) -> Map<
    u64,
    Record,
> {
    let record = records[inode];
    records.insert(inode, Record { aliases: record.aliases.remove_value(entry), ..record })
}

/// The records after `entry` stopped naming `inode`: the alias is gone, and with it every
/// record that was kept for its sake alone.
pub open spec fn remove_alias(records: Map<u64, Record>, inode: u64, entry: Entry) -> Map<
    u64,
    Record,
> {
    if records.contains_key(inode) {
        prune(strip_alias(records, inode, entry))
    } else {
        records
    }
}

/// Whether `inode` has no alias left once `entry` is taken off.
pub open spec fn detaches(records: Map<u64, Record>, inode: u64, entry: Entry) -> bool {
    &&& records.contains_key(inode)
    &&& records[inode].aliases.remove_value(entry).len() == 0
}

/// The records after `entry` began to name `inode`.
pub open spec fn add_alias(records: Map<u64, Record>, inode: u64, entry: Entry) -> Map<
    u64,
    Record,
> {
    let record = records[inode];
    if records.contains_key(inode) && !record.aliases.contains(entry) {
        records.insert(inode, Record { aliases: record.aliases.push(entry), ..record })
    } else {
        records
    }
}

/// The records with the descriptor that `inode` holds replaced by `unlinked`.
pub open spec fn retain(
    records: Map<u64, Record>,
    inode: u64,
    unlinked: Option<i32>,
) -> Map<u64, Record> {
    records.insert(inode, Record { unlinked, ..records[inode] })
}

/// The records with `count` references to `inode` given up, nothing dropped.
pub open spec fn counted_down(records: Map<u64, Record>, inode: u64, count: u64) -> Map<
    u64,
    Record,
> {
    let record = records[inode];
    let lookups = if count < record.lookups {
        (record.lookups - count) as u64
    } else {
        0
    };
    records.insert(inode, Record { lookups, ..record })
}

/// The records after the guest gave up `count` references to `inode`.
pub open spec fn forget(records: Map<u64, Record>, inode: u64, count: u64) -> Map<u64, Record> {
    if records.contains_key(inode) {
        prune(counted_down(records, inode, count))
    } else {
        records
    }
}

/// A larger live set needs no less.
pub proof fn lemma_needed_monotone(
    records: Map<u64, Record>,
    small: Set<u64>,
    large: Set<u64>,
    inode: u64,
)
    requires
        small.subset_of(large),
        needed(records, small, inode),
    ensures
        needed(records, large, inode),
{
    if inode != ROOT_INODE && records[inode].lookups == 0 {
        let child = choose|child: u64| #[trigger]
            small.contains(child) && anchored_in(records[child], inode);
        assert(large.contains(child));
    }
}

/// What is left after pruning is part of the records and sustains itself.
pub proof fn lemma_prune_sustains(records: Map<u64, Record>)
    ensures
        prune(records).dom().subset_of(records.dom()),
        self_sustaining(records, prune(records).dom()),
{
    let kept = prune(records).dom();
    assert forall|inode: u64| #[trigger] kept.contains(inode) implies records.contains_key(inode)
        && needed(records, kept, inode) by {
        let live = choose|live: Set<u64>| #[trigger]
            self_sustaining(records, live) && live.contains(inode);
        assert forall|i: u64| live.contains(i) implies kept.contains(i) by {
            assert(survives(records, i));
        }
        lemma_needed_monotone(records, live, kept, inode);
    }
}

/// Whatever sustains itself outlasts pruning.
pub proof fn lemma_prune_keeps(records: Map<u64, Record>, live: Set<u64>)
    requires
        self_sustaining(records, live),
    ensures
        live.subset_of(prune(records).dom()),
{
    assert forall|i: u64| live.contains(i) implies prune(records).contains_key(i) by {
        assert(survives(records, i));
    }
}

/// Needs depend on nothing but the references and aliases of the records involved.
pub proof fn lemma_needed_congruent(
    a: Map<u64, Record>,
    b: Map<u64, Record>,
    live: Set<u64>,
    inode: u64,
)
    requires
        live.contains(inode),
        forall|i: u64| #[trigger]
            live.contains(i) ==> a[i].lookups == b[i].lookups && a[i].aliases == b[i].aliases,
        needed(a, live, inode),
    ensures
        needed(b, live, inode),
{
    if inode != ROOT_INODE && a[inode].lookups == 0 {
        let child = choose|child: u64| #[trigger]
            live.contains(child) && anchored_in(a[child], inode);
        assert(anchored_in(b[child], inode)) by {
            let k = choose|k: int|
                0 <= k < a[child].aliases.len() && (#[trigger] a[child].aliases[k]).parent
                    == inode;
            assert(b[child].aliases[k].parent == inode);
        }
    }
}

/// Pruning leaves nothing behind that is not needed.
pub proof fn lemma_prune_tidy(records: Map<u64, Record>)
    ensures
        tidy(prune(records)),
{
    lemma_prune_sustains(records);
    let pruned = prune(records);
    assert forall|i: u64| #[trigger] pruned.dom().contains(i) implies pruned.contains_key(i)
        && needed(pruned, pruned.dom(), i) by {
        lemma_needed_congruent(records, pruned, pruned.dom(), i);
    }
}

/// Pruning tidy records drops nothing.
pub proof fn lemma_prune_of_tidy(records: Map<u64, Record>)
    requires
        tidy(records),
    ensures
        prune(records) == records,
{
    lemma_prune_sustains(records);
    lemma_prune_keeps(records, records.dom());
    assert(prune(records) =~= records);
}

/// Pruning keeps what is known of the records that it leaves, and so their uniqueness.
pub proof fn lemma_prune_wf(records: Map<u64, Record>)
    requires
        keys_unique(records),
        aliases_unique(records),
    ensures
        records_wf(prune(records)),
{
    lemma_prune_sustains(records);
    lemma_prune_tidy(records);
}

/// Taking a value off a sequence without repetitions leaves the others, each once.
pub proof fn lemma_remove_value(s: Seq<Entry>, entry: Entry)
    requires
        s.no_duplicates(),
    ensures
        s.remove_value(entry).no_duplicates(),
        forall|e: Entry| #[trigger]
            s.remove_value(entry).contains(e) <==> s.contains(e) && e != entry,
        !s.contains(entry) ==> s.remove_value(entry) == s,
        s.contains(entry) ==> s.remove_value(entry).len() == s.len() - 1,
{
    s.index_of_first_ensures(entry);
    let rest = s.remove_value(entry);
    if s.contains(entry) {
        let at = s.index_of_first(entry).unwrap();
        assert(rest == s.remove(at));
        assert forall|e: Entry| #[trigger] rest.contains(e) <==> s.contains(e) && e != entry by {
            if rest.contains(e) {
                let k = choose|k: int| 0 <= k < rest.len() && rest[k] == e;
                if k < at {
                    assert(s[k] == e);
                } else {
                    assert(s[k + 1] == e);
                }
            }
            if s.contains(e) && e != entry {
                let k = choose|k: int| 0 <= k < s.len() && s[k] == e;
                if k < at {
                    assert(rest[k] == e);
                } else {
                    assert(rest[k - 1] == e);
                }
            }
        }
    }
}

/// Removing an alias drops records, changes the aliases of one, and nothing else.
pub proof fn lemma_remove_alias_frame(records: Map<u64, Record>, inode: u64, entry: Entry)
    ensures
        remove_alias(records, inode, entry).dom().subset_of(records.dom()),
        forall|i: u64|
            #![trigger remove_alias(records, inode, entry)[i]]
            #![trigger remove_alias(records, inode, entry).contains_key(i)]
            remove_alias(records, inode, entry).contains_key(i) ==> {
                let before = records[i];
                let after = remove_alias(records, inode, entry)[i];
                &&& records.contains_key(i)
                &&& i != inode ==> after == before
                &&& i == inode ==> after == (Record {
                    aliases: before.aliases.remove_value(entry),
                    ..before
                })
            },
{
    if records.contains_key(inode) {
        lemma_prune_sustains(strip_alias(records, inode, entry));
        assert(strip_alias(records, inode, entry).dom() =~= records.dom());
    }
}

/// A record's file leads back to it.
pub proof fn lemma_find_key(records: Map<u64, Record>, inode: u64)
    requires
        keys_unique(records),
        records.contains_key(inode),
    ensures
        find_key(records, records[inode].key) == Some(inode),
{
    let key = records[inode].key;
    let i = choose|i: u64| #[trigger] records.contains_key(i) && records[i].key == key;
    assert(records[i].key == records[inode].key);
}

/// One alias more leaves every record needed.
pub proof fn lemma_add_alias_wf(records: Map<u64, Record>, inode: u64, entry: Entry)
    requires
        records_wf(records),
    ensures
        records_wf(add_alias(records, inode, entry)),
        add_alias(records, inode, entry).dom() == records.dom(),
{
    let after = add_alias(records, inode, entry);
    assert(after.dom() =~= records.dom());
    assert forall|i: u64| #[trigger] after.dom().contains(i) implies after.contains_key(i)
        && needed(after, after.dom(), i) by {
        assert(needed(records, records.dom(), i));
        if i != ROOT_INODE && records[i].lookups == 0 {
            let child = choose|child: u64| #[trigger]
                records.dom().contains(child) && anchored_in(records[child], i);
            let k = choose|k: int|
                0 <= k < records[child].aliases.len() && (#[trigger]
                records[child].aliases[k]).parent == i;
            assert(after[child].aliases[k].parent == i);
            assert(after.dom().contains(child) && anchored_in(after[child], i));
        }
    }
}

/// One alias less, and the records kept for it alone, leave every record needed.
pub proof fn lemma_remove_alias_wf(records: Map<u64, Record>, inode: u64, entry: Entry)
    requires
        records_wf(records),
    ensures
        records_wf(remove_alias(records, inode, entry)),
{
    if records.contains_key(inode) {
        let stripped = strip_alias(records, inode, entry);
        lemma_remove_value(records[inode].aliases, entry);
        assert(stripped[inode].key == records[inode].key);
        lemma_prune_wf(stripped);
    }
}

/// A record that the guest refers to outlasts pruning.
pub proof fn lemma_prune_keeps_referenced(records: Map<u64, Record>, inode: u64)
    requires
        records.contains_key(inode),
        records[inode].lookups > 0 || inode == ROOT_INODE,
    ensures
        prune(records).contains_key(inode),
{
    let live = Set::empty().insert(inode);
    assert(self_sustaining(records, live));
    lemma_prune_keeps(records, live);
    assert(live.contains(inode));
}

/// The directory of a record that outlasts pruning outlasts it too.
pub proof fn lemma_prune_keeps_parent(records: Map<u64, Record>, child: u64, parent: u64)
    requires
        prune(records).contains_key(child),
        records.contains_key(parent),
        anchored_in(records[child], parent),
    ensures
        prune(records).contains_key(parent),
{
    lemma_prune_sustains(records);
    let kept = prune(records).dom();
    let live = kept.insert(parent);
    assert forall|i: u64| #[trigger] live.contains(i) implies records.contains_key(i) && needed(
        records,
        live,
        i,
    ) by {
        if i == parent {
            assert(live.contains(child) && anchored_in(records[child], parent));
        } else {
            assert(kept.contains(i));
            lemma_needed_monotone(records, kept, live, i);
        }
    }
    lemma_prune_keeps(records, live);
    assert(live.contains(parent));
}

} // verus!
