//! The inode table: the files that the guest knows, the directory entries under which it
//! knows them, and the records that are kept because others are found through them.
use vstd::prelude::*;

use crate::model::{
    add_alias, aliases_unique, anchored_in, detaches, find_key, forget, keys_unique,
    lemma_add_alias_wf, lemma_find_key, lemma_needed_congruent, lemma_prune_keeps,
    lemma_prune_of_tidy, lemma_prune_sustains, lemma_remove_value, needed, prune, records_wf,
    remove_alias, retain, self_sustaining, strip_alias, tidy, Record,
};
use crate::types::{Entry, Host, InodeAltKey, NamespaceAlias, ROOT_INODE};

verus! {

/// The entries named by a list of aliases.
pub open spec fn entries(aliases: Seq<NamespaceAlias>) -> Seq<Entry> {
    aliases.map_values(|alias: NamespaceAlias| alias@)
}

/// One inode of the table.
#[derive(Debug)]
pub struct InodeData {
    pub inode: u64,
    pub key: InodeAltKey,
    pub lookups: u64,
    pub aliases: Vec<NamespaceAlias>,
    pub unlinked: Option<i32>,
}

impl View for InodeData {
    type V = Record;

    open spec fn view(&self) -> Record {
        Record {
            key: self.key,
            lookups: self.lookups,
            aliases: entries(self.aliases@),
            unlinked: self.unlinked,
        }
    }
}

impl InodeData {
    /// The directory through which the inode is reopened, or 0 where it has no alias.
    pub fn anchor_parent(&self) -> (parent: u64)
        ensures
            parent == if self@.aliases.len() > 0 {
                self@.aliases[0].parent
            } else {
                0
            },
    {
        if self.aliases.len() > 0 {
            self.aliases[0].parent
        } else {
            0
        }
    }

    /// The name through which the inode is reopened, empty where it has no alias.
    pub fn anchor_name(&self) -> (name: &[u8])
        ensures
            name@ == if self@.aliases.len() > 0 {
                self@.aliases[0].name
            } else {
                Seq::empty()
            },
    {
        if self.aliases.len() > 0 {
            self.aliases[0].name.as_slice()
        } else {
            &[]
        }
    }

    /// The descriptor kept for the inode after its last entry went away, or -1.
    pub fn unlinked_fd(&self) -> (fd: i32)
        ensures
            fd == if self@.unlinked is Some {
                self@.unlinked->0 as int
            } else {
                -1
            },
    {
        match self.unlinked {
            Some(fd) => fd,
            None => -1,
        }
    }

    /// Where `entry` stands among the aliases.
    fn alias_position(&self, entry: &NamespaceAlias) -> (at: Option<usize>)
        ensures
            match at {
                Some(k) => k < self.aliases@.len() && self@.aliases[k as int] == entry@,
                None => !self@.aliases.contains(entry@),
            },
    {
        for k in 0..self.aliases.len()
            invariant
                forall|j: int| 0 <= j < k ==> self@.aliases[j] != entry@,
        {
            if self.aliases[k].same(entry) {
                return Some(k);
            }
        }
        None
    }

    /// Whether some alias lies in the directory `parent`.
    fn lies_in(&self, parent: u64) -> (b: bool)
        ensures
            b == anchored_in(self@, parent),
    {
        for k in 0..self.aliases.len()
            invariant
                forall|j: int| 0 <= j < k ==> (#[trigger] self@.aliases[j]).parent != parent,
        {
            if self.aliases[k].parent == parent {
                assert(self@.aliases[k as int].parent == parent);
                return true;
            }
        }
        false
    }
}

/// Whether a list of records holds one of `inode`.
pub open spec fn lists(data: Seq<InodeData>, inode: u64) -> bool {
    exists|k: int| 0 <= k < data.len() && (#[trigger] data[k]).inode == inode
}

/// No inode stands twice in the list.
pub open spec fn distinct(data: Seq<InodeData>) -> bool {
    forall|j: int, k: int|
        0 <= j < k < data.len() ==> (#[trigger] data[j]).inode != (#[trigger] data[k]).inode
}

/// A list of records as a map from inode numbers.
pub open spec fn by_inode(data: Seq<InodeData>) -> Map<u64, Record> {
    Map::new(
        |inode: u64| lists(data, inode),
        |inode: u64|
            data[choose|k: int| 0 <= k < data.len() && (#[trigger] data[k]).inode == inode]@,
    )
}

/// `data` is the record `before` as it is handed out: of the same file, with the descriptor
/// that it held, without references, and, unless they were changed on the way, with the
/// aliases that it had.
pub open spec fn handed_out(data: InodeData, before: Record, aliases_changed: bool) -> bool {
    &&& data.key == before.key
    &&& data.unlinked == before.unlinked
    &&& data.lookups == 0
    &&& !aliases_changed ==> data@.aliases == before.aliases
}

/// `gone` are the records that `before` has and `after` lacks, each once. Of those in
/// `changed` the aliases may be others than before.
pub open spec fn released(
    gone: Seq<InodeData>,
    before: Map<u64, Record>,
    after: Map<u64, Record>,
    changed: Set<u64>,
) -> bool {
    &&& distinct(gone)
    &&& forall|inode: u64| #[trigger]
        lists(gone, inode) <==> before.contains_key(inode) && !after.contains_key(inode)
    &&& forall|k: int|
        0 <= k < gone.len() ==> handed_out(
            #[trigger] gone[k],
            before[gone[k].inode],
            changed.contains(gone[k].inode),
        )
}

proof fn lemma_by_inode_at(data: Seq<InodeData>, k: int)
    requires
        distinct(data),
        0 <= k < data.len(),
    ensures
        by_inode(data).contains_key(data[k].inode),
        by_inode(data)[data[k].inode] == data[k]@,
{
    let inode = data[k].inode;
    let j = choose|j: int| 0 <= j < data.len() && (#[trigger] data[j]).inode == inode;
    assert(j == k);
}

proof fn lemma_by_inode_update(data: Seq<InodeData>, k: int, new: InodeData)
    requires
        distinct(data),
        0 <= k < data.len(),
        new.inode == data[k].inode,
    ensures
        distinct(data.update(k, new)),
        by_inode(data.update(k, new)) == by_inode(data).insert(new.inode, new@),
{
    let after = data.update(k, new);
    assert(distinct(after)) by {
        assert forall|i: int, j: int| 0 <= i < j < after.len() implies (#[trigger]
        after[i]).inode != (#[trigger] after[j]).inode by {
            assert(data[i].inode != data[j].inode);
        }
    }
    assert forall|inode: u64| lists(after, inode) == lists(data, inode) by {
        if lists(data, inode) {
            let j = choose|j: int| 0 <= j < data.len() && (#[trigger] data[j]).inode == inode;
            assert(after[j].inode == inode);
        }
        if lists(after, inode) {
            let j = choose|j: int| 0 <= j < after.len() && (#[trigger] after[j]).inode == inode;
            assert(data[j].inode == inode);
        }
    }
    lemma_by_inode_at(data, k);
    lemma_by_inode_at(after, k);
    assert forall|inode: u64| #[trigger] by_inode(after).contains_key(inode) implies by_inode(
        after,
    )[inode] == by_inode(data).insert(new.inode, new@)[inode] by {
        let j = choose|j: int| 0 <= j < after.len() && (#[trigger] after[j]).inode == inode;
        lemma_by_inode_at(after, j);
        lemma_by_inode_at(data, j);
    }
    assert(by_inode(after) =~= by_inode(data).insert(new.inode, new@));
}

proof fn lemma_by_inode_push(data: Seq<InodeData>, new: InodeData)
    requires
        distinct(data),
        !lists(data, new.inode),
    ensures
        distinct(data.push(new)),
        by_inode(data.push(new)) == by_inode(data).insert(new.inode, new@),
{
    let after = data.push(new);
    assert(distinct(after)) by {
        assert forall|i: int, j: int| 0 <= i < j < after.len() implies (#[trigger]
        after[i]).inode != (#[trigger] after[j]).inode by {
            assert(data[i].inode != new.inode);
        }
    }
    assert forall|inode: u64|
        lists(after, inode) == (lists(data, inode) || inode == new.inode) by {
        if lists(data, inode) {
            let j = choose|j: int| 0 <= j < data.len() && (#[trigger] data[j]).inode == inode;
            assert(after[j].inode == inode);
        }
        if lists(after, inode) && inode != new.inode {
            let j = choose|j: int| 0 <= j < after.len() && (#[trigger] after[j]).inode == inode;
            assert(data[j].inode == inode);
        }
        assert(after[data.len() as int].inode == new.inode);
    }
    assert forall|inode: u64| #[trigger] by_inode(after).contains_key(inode) implies by_inode(
        after,
    )[inode] == by_inode(data).insert(new.inode, new@)[inode] by {
        let j = choose|j: int| 0 <= j < after.len() && (#[trigger] after[j]).inode == inode;
        lemma_by_inode_at(after, j);
        if j < data.len() {
            lemma_by_inode_at(data, j);
            assert(data[j].inode != new.inode);
        }
    }
    assert(by_inode(after) =~= by_inode(data).insert(new.inode, new@));
}

proof fn lemma_by_inode_remove(data: Seq<InodeData>, k: int)
    requires
        distinct(data),
        0 <= k < data.len(),
    ensures
        distinct(data.remove(k)),
        by_inode(data.remove(k)) == by_inode(data).remove(data[k].inode),
{
    let after = data.remove(k);
    let origin = |j: int|
        if j < k {
            j
        } else {
            j + 1
        };
    assert(forall|j: int| 0 <= j < after.len() ==> (#[trigger] after[j]) == data[origin(j)]);
    assert(distinct(after));
    assert forall|inode: u64|
        lists(after, inode) == (lists(data, inode) && inode != data[k].inode) by {
        if lists(data, inode) && inode != data[k].inode {
            let j = choose|j: int| 0 <= j < data.len() && (#[trigger] data[j]).inode == inode;
            if j < k {
                assert(after[j].inode == inode);
            } else {
                assert(after[j - 1].inode == inode);
            }
        }
        if lists(after, inode) {
            let j = choose|j: int| 0 <= j < after.len() && (#[trigger] after[j]).inode == inode;
            assert(data[origin(j)].inode == inode);
        }
    }
    assert forall|inode: u64| #[trigger] by_inode(after).contains_key(inode) implies by_inode(
        after,
    )[inode] == by_inode(data).remove(data[k].inode)[inode] by {
        let j = choose|j: int| 0 <= j < after.len() && (#[trigger] after[j]).inode == inode;
        lemma_by_inode_at(after, j);
        lemma_by_inode_at(data, origin(j));
    }
    assert(by_inode(after) =~= by_inode(data).remove(data[k].inode));
}

/// The records after the guest looked `entry` up and found the file `key`: the file's record
/// has one reference more, or there is a new record, numbered `fresh`, with one. Where the
/// host tracks aliases the entry is one of the record's aliases.
pub open spec fn looked_up(
    records: Map<u64, Record>,
    fresh: u64,
    tracks: bool,
    entry: Entry,
    key: InodeAltKey,
) -> Map<u64, Record> {
    let (inode, counted) = match find_key(records, key) {
        Some(i) => {
            let record = records[i];
            (i, records.insert(i, Record { lookups: (record.lookups + 1) as u64, ..record }))
        },
        None => (
            fresh,
            records.insert(
                fresh,
                Record { key, lookups: 1, aliases: Seq::empty(), unlinked: None },
            ),
        ),
    };
    if tracks {
        add_alias(counted, inode, entry)
    } else {
        counted
    }
}

/// The inode table.
#[derive(Debug)]
pub struct InodeTable {
    records: Vec<InodeData>,
    next_inode: u64,
}

impl View for InodeTable {
    type V = Map<u64, Record>;

    closed spec fn view(&self) -> Map<u64, Record> {
        by_inode(self.records@)
    }
}

impl InodeTable {
    /// The number that the next new record gets.
    pub closed spec fn fresh(&self) -> u64 {
        self.next_inode
    }

    /// The records are listed once each, and numbers are not given out twice.
    closed spec fn base(&self) -> bool {
        &&& distinct(self.records@)
        &&& keys_unique(self@)
        &&& aliases_unique(self@)
        &&& self@.contains_key(ROOT_INODE)
        &&& forall|inode: u64| #[trigger] self@.contains_key(inode) ==> inode < self.next_inode
    }

    /// What holds of a table between operations.
    pub closed spec fn wf(&self) -> bool {
        &&& self.base()
        &&& tidy(self@)
    }

    /// What a table's validity says of its records.
    pub proof fn lemma_wf(&self)
        requires
            self.wf(),
        ensures
            records_wf(self@),
            self@.contains_key(ROOT_INODE),
            forall|inode: u64| #[trigger] self@.contains_key(inode) ==> inode < self.fresh(),
    {
    }

    /// A table that knows the root directory and nothing else.
    pub fn new(root: InodeAltKey) -> (table: Self)
        ensures
            table.wf(),
            table.fresh() == ROOT_INODE + 1,
            table@ == Map::<u64, Record>::empty().insert(
                ROOT_INODE,
                (Record { key: root, lookups: 1, aliases: Seq::empty(), unlinked: None }),
            ),
    {
        let mut records: Vec<InodeData> = Vec::new();
        let data = InodeData {
            inode: ROOT_INODE,
            key: root,
            lookups: 1,
            aliases: Vec::new(),
            unlinked: None,
        };
        assert(data@.aliases =~= Seq::empty());
        proof {
            assert(by_inode(records@) =~= Map::<u64, Record>::empty());
            lemma_by_inode_push(records@, data);
        }
        records.push(data);
        InodeTable { records, next_inode: ROOT_INODE + 1 }
    }

    /// Where the record of `inode` stands.
    fn position(&self, inode: u64) -> (at: Option<usize>)
        requires
            self.base(),
        ensures
            match at {
                Some(k) => {
                    &&& k < self.records@.len()
                    &&& self.records@[k as int].inode == inode
                    &&& self@.contains_key(inode)
                    &&& self@[inode] == self.records@[k as int]@
                },
                None => !self@.contains_key(inode),
            },
    {
        for k in 0..self.records.len()
            invariant
                self.base(),
                forall|j: int| 0 <= j < k ==> (#[trigger] self.records@[j]).inode != inode,
        {
            if self.records[k].inode == inode {
                proof {
                    lemma_by_inode_at(self.records@, k as int);
                }
                return Some(k);
            }
        }
        None
    }

    /// The record of `inode`.
    pub fn get(&self, inode: u64) -> (found: Option<&InodeData>)
        requires
            self.wf(),
        ensures
            match found {
                Some(data) => {
                    &&& self@.contains_key(inode)
                    &&& data.inode == inode
                    &&& data@ == self@[inode]
                },
                None => !self@.contains_key(inode),
            },
    {
        match self.position(inode) {
            Some(k) => Some(&self.records[k]),
            None => None,
        }
    }

    /// The record of the file `key`.
    pub fn get_alt(&self, key: InodeAltKey) -> (found: Option<&InodeData>)
        requires
            self.wf(),
        ensures
            match found {
                Some(data) => {
                    &&& find_key(self@, key) == Some(data.inode)
                    &&& self@.contains_key(data.inode)
                    &&& data@ == self@[data.inode]
                },
                None => find_key(self@, key) is None,
            },
    {
        for k in 0..self.records.len()
            invariant
                self.wf(),
                forall|j: int| 0 <= j < k ==> (#[trigger] self.records@[j]).key != key,
        {
            if self.records[k].key == key {
                proof {
                    lemma_by_inode_at(self.records@, k as int);
                    lemma_find_key(self@, self.records@[k as int].inode);
                }
                return Some(&self.records[k]);
            }
        }
        proof {
            assert forall|i: u64| #[trigger] self@.contains_key(i) implies self@[i].key != key by {
                let j = choose|j: int|
                    0 <= j < self.records@.len() && (#[trigger] self.records@[j]).inode == i;
                lemma_by_inode_at(self.records@, j);
            }
        }
        None
    }

    /// Records that `entry` names `inode`.
    pub fn register_alias(&mut self, inode: u64, entry: NamespaceAlias)
        requires
            old(self).wf(),
        ensures
            final(self).wf(),
            final(self).fresh() == old(self).fresh(),
            final(self)@ == add_alias(old(self)@, inode, entry@),
    {
        if let Some(k) = self.position(inode) {
            if self.records[k].alias_position(&entry).is_none() {
                let ghost before = self.records@;
                let ghost record = self.records@[k as int]@;
                self.records[k].aliases.push(entry);
                proof {
                    let after = self.records@[k as int];
                    assert(after@.aliases =~= record.aliases.push(entry@));
                    lemma_by_inode_update(before, k as int, after);
                    assert(self.records@ =~= before.update(k as int, after));
                    lemma_add_alias_wf(by_inode(before), inode, entry@);
                }
            }
        }
    }

    /// Whether the record of `inode` has to stay.
    fn is_needed(&self, inode: u64, lookups: u64) -> (b: bool)
        requires
            self.base(),
            self@.contains_key(inode),
            lookups == self@[inode].lookups,
        ensures
            b == needed(self@, self@.dom(), inode),
    {
        if inode == ROOT_INODE || lookups > 0 {
            return true;
        }
        for k in 0..self.records.len()
            invariant
                self.base(),
                forall|j: int| 0 <= j < k ==> !anchored_in((#[trigger] self.records@[j])@, inode),
        {
            if self.records[k].lies_in(inode) {
                proof {
                    lemma_by_inode_at(self.records@, k as int);
                    assert(self@.dom().contains(self.records@[k as int].inode));
                }
                return true;
            }
        }
        proof {
            assert forall|child: u64| #[trigger] self@.dom().contains(child) implies !anchored_in(
                self@[child],
                inode,
            ) by {
                let j = choose|j: int|
                    0 <= j < self.records@.len() && (#[trigger] self.records@[j]).inode == child;
                lemma_by_inode_at(self.records@, j);
            }
        }
        false
    }

    /// Drops every record that is not needed, given a list of those that may not be, and
    /// hands the dropped records out.
    fn collect(&mut self, candidates: Vec<u64>) -> (gone: Vec<InodeData>)
        requires
            old(self).base(),
            forall|i: u64| #[trigger]
                old(self)@.contains_key(i) ==> needed(old(self)@, old(self)@.dom(), i)
                    || candidates@.contains(i),
        ensures
            final(self).wf(),
            final(self).fresh() == old(self).fresh(),
            final(self)@ == prune(old(self)@),
            released(gone@, old(self)@, final(self)@, Set::empty()),
    {
        let ghost start = self@;
        let mut work: Vec<u64> = candidates;
        let mut gone: Vec<InodeData> = Vec::new();
        while work.len() > 0
            invariant
                self.base(),
                self.fresh() == old(self).fresh(),
                forall|i: u64| #[trigger]
                    self@.contains_key(i) ==> start.contains_key(i) && self@[i] == start[i],
                forall|i: u64| #[trigger]
                    self@.contains_key(i) ==> needed(self@, self@.dom(), i) || work@.contains(i),
                forall|live: Set<u64>| #[trigger]
                    self_sustaining(start, live) ==> live.subset_of(self@.dom()),
                released(gone@, start, self@, Set::empty()),
            decreases self.records@.len(), work@.len(),
        {
            let ghost waiting = work@;
            let inode: u64 = work.pop().unwrap();
            assert(forall|i: u64| waiting.contains(i) ==> i == inode || work@.contains(i)) by {
                assert forall|i: u64| waiting.contains(i) implies i == inode || work@.contains(
                    i,
                ) by {
                    let k = choose|k: int| 0 <= k < waiting.len() && waiting[k] == i;
                    if k < work@.len() {
                        assert(work@[k] == i);
                    }
                }
            }
            if let Some(k) = self.position(inode) {
                let lookups: u64 = self.records[k].lookups;
                if !self.is_needed(inode, lookups) {
                    let ghost before = self.records@;
                    let ghost rest = work@;
                    let data = self.records.remove(k);
                    for j in 0..data.aliases.len()
                        invariant
                            forall|i: u64| #[trigger] rest.contains(i) ==> work@.contains(i),
                            forall|l: int|
                                0 <= l < j ==> work@.contains(
                                    (#[trigger] data@.aliases[l]).parent,
                                ),
                    {
                        let ghost pending = work@;
                        work.push(data.aliases[j].parent);
                        proof {
                            assert(work@[pending.len() as int] == data@.aliases[j as int].parent);
                            assert forall|i: u64| pending.contains(i) implies work@.contains(
                                i,
                            ) by {
                                let at = choose|at: int|
                                    0 <= at < pending.len() && pending[at] == i;
                                assert(work@[at] == i);
                            }
                        }
                    }
                    proof {
                        lemma_by_inode_remove(before, k as int);
                        let m = by_inode(before);
                        assert(self@ == m.remove(inode));
                        lemma_drop_unneeded(start, m, inode);
                        assert forall|i: u64| #[trigger] self@.contains_key(i) implies needed(
                            self@,
                            self@.dom(),
                            i,
                        ) || work@.contains(i) by {
                            if needed(m, m.dom(), i) && !needed(self@, self@.dom(), i) {
                                let child = choose|child: u64| #[trigger]
                                    m.dom().contains(child) && anchored_in(m[child], i);
                                if child != inode {
                                    assert(self@.dom().contains(child) && anchored_in(
                                        self@[child],
                                        i,
                                    ));
                                }
                                let l = choose|l: int|
                                    0 <= l < data@.aliases.len() && (#[trigger]
                                    data@.aliases[l]).parent == i;
                                assert(work@.contains(data@.aliases[l].parent));
                            }
                        }
                        assert(data@ == start[inode]);
                        lemma_released_push(gone@, start, m, data);
                    }
                    gone.push(data);
                }
            }
        }
        proof {
            let kept = self@;
            assert forall|i: u64| #[trigger] kept.dom().contains(i) implies start.contains_key(i)
                && needed(start, kept.dom(), i) by {
                assert(kept.contains_key(i));
                lemma_needed_congruent(kept, start, kept.dom(), i);
            }
            lemma_prune_keeps(start, kept.dom());
            lemma_prune_sustains(start);
            assert(self@ =~= prune(start));
        }
        gone
    }

    /// Records that `entry` no longer names `inode`, and drops the records that were kept
    /// for it alone. Says whether the inode has no alias left, and hands the dropped records
    /// out.
    pub fn remove_alias(&mut self, inode: u64, entry: &NamespaceAlias) -> (removed: (
        bool,
        Vec<InodeData>,
    ))
        requires
            old(self).wf(),
        ensures
            final(self).wf(),
            final(self).fresh() == old(self).fresh(),
            final(self)@ == remove_alias(old(self)@, inode, entry@),
            removed.0 == detaches(old(self)@, inode, entry@),
            released(removed.1@, old(self)@, final(self)@, Set::empty().insert(inode)),
    {
        let k: usize = match self.position(inode) {
            Some(k) => k,
            None => {
                return (false, Vec::new());
            },
        };
        let ghost before = self.records@;
        let ghost records = self@;
        let ghost aliases = self.records@[k as int]@.aliases;
        let at: usize = match self.records[k].alias_position(entry) {
            Some(at) => at,
            None => {
                proof {
                    lemma_remove_value(aliases, entry@);
                    assert(strip_alias(records, inode, entry@) =~= records);
                    lemma_prune_of_tidy(records);
                }
                return (self.records[k].aliases.len() == 0, Vec::new());
            },
        };
        self.records[k].aliases.remove(at);
        let detached: bool = self.records[k].aliases.len() == 0;
        proof {
            let after = self.records@[k as int];
            aliases.index_of_first_ensures(entry@);
            let first = aliases.index_of_first(entry@).unwrap();
            assert(first == at);
            assert(after@.aliases =~= aliases.remove_value(entry@));
            lemma_remove_value(aliases, entry@);
            lemma_by_inode_update(before, k as int, after);
            assert(self.records@ =~= before.update(k as int, after));
            assert(self@ =~= strip_alias(records, inode, entry@));
            lemma_strip_candidates(records, inode, entry@);
        }
        let ghost stripped = self@;
        let mut candidates: Vec<u64> = Vec::new();
        candidates.push(entry.parent);
        assert(candidates@[0] == entry@.parent);
        let gone = self.collect(candidates);
        proof {
            assert(stripped.dom() =~= records.dom());
            lemma_released_from(
                gone@,
                records,
                stripped,
                self@,
                Set::empty().insert(inode),
            );
        }
        (detached, gone)
    }

    /// Keeps `fd` open for `inode`. Hands back the descriptor that is not kept: the one that
    /// it displaced, or `fd` itself where there is no such inode.
    pub fn store_unlinked_fd(&mut self, inode: u64, fd: i32) -> (unkept: Option<i32>)
        requires
            old(self).wf(),
        ensures
            final(self).wf(),
            final(self).fresh() == old(self).fresh(),
            old(self)@.contains_key(inode) ==> {
                &&& final(self)@ == retain(old(self)@, inode, Some(fd))
                &&& unkept == old(self)@[inode].unlinked
            },
            !old(self)@.contains_key(inode) ==> {
                &&& final(self)@ == old(self)@
                &&& unkept == Some(fd)
            },
    {
        let k: usize = match self.position(inode) {
            Some(k) => k,
            None => {
                return Some(fd);
            },
        };
        let ghost before = self.records@;
        let ghost records = self@;
        let unkept: Option<i32> = self.records[k].unlinked;
        self.records[k].unlinked = Some(fd);
        proof {
            let after = self.records@[k as int];
            lemma_by_inode_update(before, k as int, after);
            assert(self.records@ =~= before.update(k as int, after));
            assert(self@ =~= retain(records, inode, Some(fd)));
            assert(self@.dom() =~= records.dom());
            lemma_same_needs(records, self@);
        }
        unkept
    }

    /// Counts a lookup of `entry` that found the file `key`, and says which inode it is.
    /// `None` where the numbers or the inode's references are exhausted.
    pub fn record_lookup(
        &mut self,
        host: Host,
        entry: NamespaceAlias,
        key: InodeAltKey,
    ) -> (inode: Option<u64>)
        requires
            old(self).wf(),
        ensures
            final(self).wf(),
            match find_key(old(self)@, key) {
                Some(i) => {
                    &&& inode == if old(self)@[i].lookups < u64::MAX {
                        Some(i)
                    } else {
                        None
                    }
                    &&& final(self).fresh() == old(self).fresh()
                },
                None => {
                    &&& inode == if old(self).fresh() < u64::MAX {
                        Some(old(self).fresh())
                    } else {
                        None
                    }
                    &&& inode is Some ==> final(self).fresh() == old(self).fresh() + 1
                },
            },
            match inode {
                Some(i) => final(self)@ == looked_up(
                    old(self)@,
                    old(self).fresh(),
                    host.tracks_aliases(),
                    entry@,
                    key,
                ),
                None => final(self)@ == old(self)@ && final(self).fresh() == old(self).fresh(),
            },
    {
        let ghost records = self@;
        let ghost before = self.records@;
        let known: Option<u64> = match self.get_alt(key) {
            Some(data) => Some(data.inode),
            None => None,
        };
        let inode: u64 = match known {
            Some(inode) => {
                let k: usize = match self.position(inode) {
                    Some(k) => k,
                    None => {
                        return None;
                    },
                };
                if self.records[k].lookups == u64::MAX {
                    return None;
                }
                self.records[k].lookups = self.records[k].lookups + 1;
                proof {
                    let after = self.records@[k as int];
                    lemma_by_inode_update(before, k as int, after);
                    assert(self.records@ =~= before.update(k as int, after));
                    assert(after@.aliases =~= before[k as int]@.aliases);
                    lemma_counted(records, inode, after@);
                }
                inode
            },
            None => {
                if self.next_inode == u64::MAX {
                    return None;
                }
                let inode: u64 = self.next_inode;
                let data = InodeData {
                    inode,
                    key,
                    lookups: 1,
                    aliases: Vec::new(),
                    unlinked: None,
                };
                proof {
                    assert(data@.aliases =~= Seq::empty());
                    assert(!self@.contains_key(inode));
                    lemma_by_inode_push(before, data);
                    lemma_counted(records, inode, data@);
                    assert forall|i: u64| #[trigger] records.contains_key(i) implies records[i].key
                        != key by {}
                }
                self.records.push(data);
                self.next_inode = self.next_inode + 1;
                inode
            },
        };
        let tracks: bool = match host {
            Host::Linux => true,
            Host::MacOs { anchor } => anchor,
        };
        if tracks {
            self.register_alias(inode, entry);
        }
        Some(inode)
    }

    /// The guest gives up `count` references to `inode`. The record goes once nothing needs
    /// it, and with it those that were kept for it alone; they are handed out.
    pub fn forget(&mut self, inode: u64, count: u64) -> (gone: Vec<InodeData>)
        requires
            old(self).wf(),
        ensures
            final(self).wf(),
            final(self).fresh() == old(self).fresh(),
            final(self)@ == forget(old(self)@, inode, count),
            released(gone@, old(self)@, final(self)@, Set::empty()),
    {
        let k: usize = match self.position(inode) {
            Some(k) => k,
            None => {
                return Vec::new();
            },
        };
        let ghost before = self.records@;
        let ghost records = self@;
        let lookups: u64 = self.records[k].lookups;
        self.records[k].lookups = if count < lookups {
            lookups - count
        } else {
            0
        };
        let ghost counted = self@;
        proof {
            let after = self.records@[k as int];
            lemma_by_inode_update(before, k as int, after);
            assert(self.records@ =~= before.update(k as int, after));
            assert(after@.aliases =~= before[k as int]@.aliases);
            lemma_recounted(records, inode, after@);
            assert(self@ == records.insert(inode, after@));
            assert(after@.key == records[inode].key);
        }
        let mut candidates: Vec<u64> = Vec::new();
        candidates.push(inode);
        assert(candidates@[0] == inode);
        let gone = self.collect(candidates);
        proof {
            assert(counted.dom() =~= records.dom());
            lemma_released_from(gone@, records, counted, self@, Set::empty());
        }
        gone
    }
}

/// A record that is not needed belongs to no set that sustains itself.
proof fn lemma_drop_unneeded(start: Map<u64, Record>, left: Map<u64, Record>, inode: u64)
    requires
        forall|i: u64| #[trigger]
            left.contains_key(i) ==> start.contains_key(i) && left[i] == start[i],
        forall|live: Set<u64>| #[trigger]
            self_sustaining(start, live) ==> live.subset_of(left.dom()),
        left.contains_key(inode),
        !needed(left, left.dom(), inode),
    ensures
        forall|live: Set<u64>| #[trigger]
            self_sustaining(start, live) ==> live.subset_of(left.remove(inode).dom()),
{
    assert forall|live: Set<u64>| #[trigger] self_sustaining(start, live) implies live.subset_of(
        left.remove(inode).dom(),
    ) by {
        assert(live.subset_of(left.dom()));
        if live.contains(inode) {
            assert(needed(start, live, inode));
            assert(start[inode] == left[inode]);
            let child = choose|child: u64| #[trigger]
                live.contains(child) && anchored_in(start[child], inode);
            assert(left.contains_key(child));
            assert(left.dom().contains(child) && anchored_in(left[child], inode));
        }
    }
}

/// One record more is handed out.
proof fn lemma_released_push(
    gone: Seq<InodeData>,
    start: Map<u64, Record>,
    left: Map<u64, Record>,
    data: InodeData,
)
    requires
        released(gone, start, left, Set::empty()),
        start.contains_key(data.inode),
        left.contains_key(data.inode),
        data@ == start[data.inode],
        data.lookups == 0,
    ensures
        released(gone.push(data), start, left.remove(data.inode), Set::empty()),
{
    let more = gone.push(data);
    assert(!lists(gone, data.inode));
    assert(distinct(more)) by {
        assert forall|i: int, j: int| 0 <= i < j < more.len() implies (#[trigger] more[i]).inode
            != (#[trigger] more[j]).inode by {
            assert(gone[i].inode != data.inode);
        }
    }
    assert forall|inode: u64| #[trigger] lists(more, inode) <==> start.contains_key(inode)
        && !left.remove(data.inode).contains_key(inode) by {
        if lists(gone, inode) {
            let j = choose|j: int| 0 <= j < gone.len() && (#[trigger] gone[j]).inode == inode;
            assert(more[j].inode == inode);
        }
        if lists(more, inode) && inode != data.inode {
            let j = choose|j: int| 0 <= j < more.len() && (#[trigger] more[j]).inode == inode;
            assert(gone[j].inode == inode);
        }
        assert(more[gone.len() as int].inode == data.inode);
    }
    assert forall|k: int| 0 <= k < more.len() implies handed_out(
        #[trigger] more[k],
        start[more[k].inode],
        Set::<u64>::empty().contains(more[k].inode),
    ) by {
        assert(data@.key == data.key && data@.unlinked == data.unlinked);
        if k < gone.len() {
            assert(gone[k] == more[k]);
        }
    }
}

/// Taking an alias off leaves only its directory in doubt.
proof fn lemma_strip_candidates(records: Map<u64, Record>, inode: u64, entry: Entry)
    requires
        records_wf(records),
        records.contains_key(inode),
    ensures
        forall|i: u64| #[trigger]
            records.contains_key(i) ==> i == entry.parent || needed(
                strip_alias(records, inode, entry),
                records.dom(),
                i,
            ),
{
    let after = strip_alias(records, inode, entry);
    lemma_remove_value(records[inode].aliases, entry);
    assert forall|i: u64| #[trigger] records.contains_key(i) && i != entry.parent implies needed(
        after,
        records.dom(),
        i,
    ) by {
        assert(records.dom().contains(i));
        assert(needed(records, records.dom(), i));
        if i != ROOT_INODE && records[i].lookups == 0 {
            let child = choose|child: u64| #[trigger]
                records.dom().contains(child) && anchored_in(records[child], i);
            let k = choose|k: int|
                0 <= k < records[child].aliases.len() && (#[trigger]
                records[child].aliases[k]).parent == i;
            let kept = records[child].aliases[k];
            assert(records[child].aliases.contains(kept));
            assert(after[child].aliases.contains(kept));
            let l = choose|l: int|
                0 <= l < after[child].aliases.len() && after[child].aliases[l] == kept;
            assert(after[child].aliases[l].parent == i);
            assert(records.dom().contains(child) && anchored_in(after[child], i));
        }
    }
}

/// Records handed out after a change that kept the file and the descriptor of each, and the
/// aliases of all but some.
proof fn lemma_released_from(
    gone: Seq<InodeData>,
    before: Map<u64, Record>,
    between: Map<u64, Record>,
    after: Map<u64, Record>,
    changed: Set<u64>,
)
    requires
        released(gone, between, after, Set::empty()),
        between.dom() == before.dom(),
        alike(before, between, changed),
    ensures
        released(gone, before, after, changed),
{
    assert forall|inode: u64| #[trigger] lists(gone, inode) <==> before.contains_key(inode)
        && !after.contains_key(inode) by {
        assert(between.dom().contains(inode) == before.dom().contains(inode));
    }
    assert forall|k: int| 0 <= k < gone.len() implies handed_out(
        #[trigger] gone[k],
        before[gone[k].inode],
        changed.contains(gone[k].inode),
    ) by {
        assert(lists(gone, gone[k].inode));
        assert(between.contains_key(gone[k].inode));
    }
}

/// Records with the same references and aliases need each other in the same way.
proof fn lemma_same_needs(a: Map<u64, Record>, b: Map<u64, Record>)
    requires
        tidy(a),
        a.dom() == b.dom(),
        forall|i: u64| #[trigger]
            a.contains_key(i) ==> a[i].lookups == b[i].lookups && a[i].aliases == b[i].aliases,
    ensures
        tidy(b),
{
    assert forall|i: u64| #[trigger] b.dom().contains(i) implies b.contains_key(i) && needed(
        b,
        b.dom(),
        i,
    ) by {
        assert(a.dom().contains(i));
        assert forall|j: u64| #[trigger] b.dom().contains(j) implies a[j].lookups == b[j].lookups
            && a[j].aliases == b[j].aliases by {
            assert(a.contains_key(j));
        }
        lemma_needed_congruent(a, b, b.dom(), i);
    }
}

/// A record that is new, or has one reference more, is needed, and so are the others.
proof fn lemma_counted(records: Map<u64, Record>, inode: u64, record: Record)
    requires
        tidy(records),
        record.lookups > 0,
        records.contains_key(inode) ==> record.aliases == records[inode].aliases,
    ensures
        tidy(records.insert(inode, record)),
{
    let after = records.insert(inode, record);
    assert forall|i: u64| #[trigger] after.dom().contains(i) implies after.contains_key(i)
        && needed(after, after.dom(), i) by {
        if i != inode {
            assert(records.dom().contains(i));
            assert(needed(records, records.dom(), i));
            if i != ROOT_INODE && records[i].lookups == 0 {
                let child = choose|child: u64| #[trigger]
                    records.dom().contains(child) && anchored_in(records[child], i);
                assert(after.dom().contains(child) && anchored_in(after[child], i));
            }
        }
    }
}

/// A change of one record's references leaves only that record in doubt.
proof fn lemma_recounted(records: Map<u64, Record>, inode: u64, record: Record)
    requires
        tidy(records),
        records.contains_key(inode),
        record.aliases == records[inode].aliases,
    ensures
        forall|i: u64| #[trigger]
            records.contains_key(i) ==> i == inode || needed(
                records.insert(inode, record),
                records.insert(inode, record).dom(),
                i,
            ),
{
    let after = records.insert(inode, record);
    assert forall|i: u64| #[trigger] records.contains_key(i) && i != inode implies needed(
        after,
        after.dom(),
        i,
    ) by {
        assert(records.dom().contains(i));
        assert(needed(records, records.dom(), i));
        if i != ROOT_INODE && records[i].lookups == 0 {
            let child = choose|child: u64| #[trigger]
                records.dom().contains(child) && anchored_in(records[child], i);
            assert(after.dom().contains(child) && anchored_in(after[child], i));
        }
    }
}

/// What holds with the aliases of some changed holds with those of more.
pub(crate) proof fn lemma_released_wider(
    gone: Seq<InodeData>,
    before: Map<u64, Record>,
    after: Map<u64, Record>,
    changed: Set<u64>,
    wider: Set<u64>,
)
    requires
        released(gone, before, after, changed),
        changed.subset_of(wider),
    ensures
        released(gone, before, after, wider),
{
}

/// Every record of `after` is one of `before`, of the same file and with the same descriptor,
/// and with the same aliases unless it is one of `changed`.
pub open spec fn alike(
    before: Map<u64, Record>,
    after: Map<u64, Record>,
    changed: Set<u64>,
) -> bool {
    forall|i: u64| #[trigger]
        after.contains_key(i) ==> {
            &&& before.contains_key(i)
            &&& after[i].key == before[i].key
            &&& after[i].unlinked == before[i].unlinked
            &&& !changed.contains(i) ==> after[i].aliases == before[i].aliases
        }
}

/// What two changes in turn hand out, taken together.
pub(crate) proof fn lemma_released_chain(
    first: Seq<InodeData>,
    second: Seq<InodeData>,
    before: Map<u64, Record>,
    between: Map<u64, Record>,
    after: Map<u64, Record>,
    changed: Set<u64>,
)
    requires
        released(first, before, between, changed),
        released(second, between, after, changed),
        alike(before, between, changed),
        after.dom().subset_of(between.dom()),
    ensures
        released(first + second, before, after, changed),
{
    let both = first + second;
    assert forall|i: int, j: int| 0 <= i < j < both.len() implies (#[trigger] both[i]).inode != (
    #[trigger] both[j]).inode by {
        if i < first.len() && j >= first.len() {
            assert(lists(first, first[i].inode));
            assert(second[j - first.len()] == both[j]);
            assert(lists(second, second[j - first.len()].inode));
        } else if i >= first.len() {
            assert(second[i - first.len()].inode != second[j - first.len()].inode);
        }
    }
    assert forall|inode: u64| #[trigger] lists(both, inode) <==> before.contains_key(inode)
        && !after.contains_key(inode) by {
        assert(between.contains_key(inode) ==> before.contains_key(inode));
        assert(after.contains_key(inode) ==> between.contains_key(inode)) by {
            assert(after.dom().contains(inode) ==> between.dom().contains(inode));
        }
        if lists(first, inode) {
            let k = choose|k: int| 0 <= k < first.len() && (#[trigger] first[k]).inode == inode;
            assert(both[k].inode == inode);
        }
        if lists(second, inode) {
            let k = choose|k: int| 0 <= k < second.len() && (#[trigger] second[k]).inode == inode;
            assert(both[first.len() + k].inode == inode);
        }
        if lists(both, inode) {
            let k = choose|k: int| 0 <= k < both.len() && (#[trigger] both[k]).inode == inode;
            if k < first.len() {
                assert(first[k].inode == inode);
            } else {
                assert(second[k - first.len()].inode == inode);
            }
            assert(lists(first, inode) || lists(second, inode));
        }
    }
    assert forall|k: int| 0 <= k < both.len() implies handed_out(
        #[trigger] both[k],
        before[both[k].inode],
        changed.contains(both[k].inode),
    ) by {
        if k < first.len() {
            assert(first[k] == both[k]);
        } else {
            assert(second[k - first.len()] == both[k]);
            assert(lists(second, both[k].inode));
            assert(between.contains_key(both[k].inode));
        }
    }
}

} // verus!
