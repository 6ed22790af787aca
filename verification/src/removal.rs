//! Removing a directory entry: `unlink` and `rmdir`.
//!
//! Before the entry goes, the operation learns which file it names, and where it can it opens
//! the file, so that the data outlives the name for as long as the guest has the inode. After
//! the host has removed the entry, the table drops the alias, and an inode without any alias
//! left takes the descriptor over.
use vstd::prelude::*;

use crate::calls::{
    errno_after, read_errno_after, Call, OpenFlags, Outcome, Reply, Step,
};
use crate::inode_table::{released, InodeData, InodeTable};
use crate::model::{detaches, find_key, remove_alias, retain, Record};
use crate::operation::{closes, opens, optional, Operation};
use crate::types::{copy_bytes, Entry, Errno, Host, InodeAltKey, NamespaceAlias};

verus! {

/// What is removed.
#[derive(Debug, Clone, Copy, PartialEq, Eq, Structural)]
pub enum EntryKind {
    File,
    Directory,
}

/// How far a removal has come.
#[allow(inconsistent_fields)]
#[derive(Debug, Clone, Copy)]
pub enum RemovalStage {
    /// The parent directory is to be opened.
    OpenParent,
    /// The entry is to be identified (anchor mode).
    IdentifyEntry { dir: i32 },
    /// The entry is to be opened.
    Probe { dir: i32, key: Option<InodeAltKey> },
    /// The opened entry is to be identified (Linux).
    IdentifyProbe { dir: i32, fd: i32 },
    /// The entry is to be removed.
    Remove { dir: i32, fd: Option<i32>, key: Option<InodeAltKey> },
    /// The host refused; the descriptor is to be closed before the error is read (directories
    /// on Linux).
    Refused { fd: i32, errno: i32 },
    /// It is removed; which file was opened is to be found out (macOS).
    Verify { fd: i32, key: Option<InodeAltKey> },
    /// It is removed; the descriptor is of another file and is to be closed.
    Discard { fd: i32, key: Option<InodeAltKey> },
    /// The table is to follow.
    Settle { fd: Option<i32>, key: InodeAltKey },
    /// It is over.
    Finished { result: Result<(), Errno>, close: Option<i32> },
}

/// How the entry is opened before it is removed.
pub open spec fn probe_flags(host: Host, kind: EntryKind) -> OpenFlags {
    OpenFlags {
        path: host is Linux,
        directory: kind is Directory,
        nonblock: false,
        nofollow: true,
        cloexec: true,
    }
}

/// What a removal of `entry` is waiting for.
pub open spec fn removal_step(
    host: Host,
    kind: EntryKind,
    entry: Entry,
    stage: RemovalStage,
) -> Step<Seq<u8>> {
    match stage {
        RemovalStage::OpenParent => Step::Call(Call::OpenInode { inode: entry.parent }),
        RemovalStage::IdentifyEntry { dir } => Step::Call(
            Call::IdentifyAt { dir, name: entry.name },
        ),
        RemovalStage::Probe { dir, key } => Step::Call(
            Call::OpenAt { dir, name: entry.name, flags: probe_flags(host, kind) },
        ),
        RemovalStage::IdentifyProbe { dir, fd } => Step::Call(Call::Identify { fd }),
        RemovalStage::Remove { dir, fd, key } => Step::Call(
            Call::UnlinkAt { dir, name: entry.name, remove_dir: kind is Directory },
        ),
        RemovalStage::Refused { fd, errno } => Step::Call(Call::Close { fd }),
        RemovalStage::Verify { fd, key } => Step::Call(Call::Identify { fd }),
        RemovalStage::Discard { fd, key } => Step::Call(Call::Close { fd }),
        RemovalStage::Settle { fd, key } => Step::Settle,
        RemovalStage::Finished { result, close } => Step::Finished { result, close },
    }
}

/// The stage once the parent is open and the entry's identity, if wanted, is known: files
/// are opened first, and so is whatever a Linux host removes.
pub open spec fn before_probe(
    host: Host,
    kind: EntryKind,
    dir: i32,
    key: Option<InodeAltKey>,
) -> RemovalStage {
    if host is Linux || kind is File {
        RemovalStage::Probe { dir, key }
    } else {
        RemovalStage::Remove { dir, fd: None, key }
    }
}

/// The stage once the entry is removed and `fd` is known to be of the file `key`. Where the
/// file is not known there is nothing to do to the table.
pub open spec fn after_removal(fd: Option<i32>, key: Option<InodeAltKey>) -> RemovalStage {
    match key {
        Some(key) => RemovalStage::Settle { fd, key },
        None => RemovalStage::Finished { result: Ok(()), close: fd },
    }
}

/// The stage once the host refused with `errno`. The error of a file's removal is read before
/// the descriptor is closed, and so is any on macOS. That of a directory's removal on Linux is
/// read after.
pub open spec fn refused(
    host: Host,
    kind: EntryKind,
    fd: Option<i32>,
    errno: i32,
) -> RemovalStage {
    if host is Linux && kind is Directory && fd is Some {
        RemovalStage::Refused { fd: fd->0, errno }
    } else {
        RemovalStage::Finished { result: Err(Errno::Host(errno)), close: fd }
    }
}

/// The stage that follows `stage` on `reply`.
pub open spec fn removal_next(
    host: Host,
    kind: EntryKind,
    stage: RemovalStage,
    reply: Reply,
) -> RemovalStage {
    match (stage, reply) {
        // Without the parent nothing can be done.
        (RemovalStage::OpenParent, Reply::Opened(Err(errno))) => RemovalStage::Finished {
            result: Err(Errno::Guest(errno)),
            close: None,
        },
        (RemovalStage::OpenParent, Reply::Opened(Ok(dir))) => if host.anchored() {
            RemovalStage::IdentifyEntry { dir }
        } else {
            before_probe(host, kind, dir, None)
        },
        // An entry that cannot be identified is removed all the same.
        (RemovalStage::IdentifyEntry { dir }, Reply::Identity(found)) => before_probe(
            host,
            kind,
            dir,
            match found {
                Ok(key) => Some(key),
                Err(_) => None,
            },
        ),
        // So is one that cannot be opened.
        (RemovalStage::Probe { dir, key }, Reply::Sys { ret, errno }) => if ret < 0 {
            RemovalStage::Remove { dir, fd: None, key }
        } else if host is Linux {
            RemovalStage::IdentifyProbe { dir, fd: ret }
        } else {
            RemovalStage::Remove { dir, fd: Some(ret), key }
        },
        // A probe that was opened and has no identity is an error.
        (RemovalStage::IdentifyProbe { dir, fd }, Reply::Identity(found)) => match found {
            Ok(key) => RemovalStage::Remove { dir, fd: Some(fd), key: Some(key) },
            Err(errno) => RemovalStage::Finished {
                result: Err(Errno::Guest(errno)),
                close: Some(fd),
            },
        },
        // The host refused: the descriptor goes, its error is reported.
        (RemovalStage::Remove { dir, fd, key }, Reply::Sys { ret, errno }) => if ret < 0 {
            refused(host, kind, fd, errno)
        } else if host is Linux || fd is None {
            after_removal(fd, key)
        } else {
            RemovalStage::Verify { fd: fd->0, key }
        },
        (RemovalStage::Refused { fd, errno }, Reply::Closed(closed)) => RemovalStage::Finished {
            result: Err(Errno::Host(errno_after(errno, closed))),
            close: None,
        },
        // In anchor mode the descriptor must be of the file that was identified; otherwise
        // it says which file it was.
        (RemovalStage::Verify { fd, key }, Reply::Identity(found)) => if host.anchored() {
            if key is Some && found == Ok::<InodeAltKey, i32>(key->0) {
                after_removal(Some(fd), key)
            } else {
                RemovalStage::Discard { fd, key }
            }
        } else {
            match found {
                Ok(key) => after_removal(Some(fd), Some(key)),
                Err(_) => after_removal(Some(fd), None),
            }
        },
        (RemovalStage::Discard { fd, key }, Reply::Closed(_)) => after_removal(None, key),
        _ => stage,
    }
}

/// The records, and the descriptor to close, once the table followed the removal of `entry`,
/// which named the file `key`. Where aliases are tracked the inode loses the alias, and keeps
/// `fd` if that was the last one; elsewhere it keeps `fd`.
pub open spec fn removal_settled(
    records: Map<u64, Record>,
    host: Host,
    entry: Entry,
    key: InodeAltKey,
    fd: Option<i32>,
) -> (Map<u64, Record>, Option<i32>) {
    match find_key(records, key) {
        None => (records, fd),
        Some(inode) => if host.tracks_aliases() {
            released_entry(records, inode, entry, fd)
        } else {
            keep(records, inode, fd)
        },
    }
}

/// `inode` loses the alias `entry`, and keeps `fd` if that was the last one.
pub open spec fn released_entry(
    records: Map<u64, Record>,
    inode: u64,
    entry: Entry,
    fd: Option<i32>,
) -> (Map<u64, Record>, Option<i32>) {
    let left = remove_alias(records, inode, entry);
    if detaches(records, inode, entry) {
        keep(left, inode, fd)
    } else {
        (left, fd)
    }
}

/// `inode` keeps `fd`, if there is a record of it and a descriptor to keep; and the
/// descriptor that is left over.
pub open spec fn keep(records: Map<u64, Record>, inode: u64, fd: Option<i32>) -> (
    Map<u64, Record>,
    Option<i32>,
) {
    if fd is Some && records.contains_key(inode) {
        (retain(records, inode, fd), records[inode].unlinked)
    } else {
        (records, fd)
    }
}

/// The inodes whose aliases change when the table follows a removal of the file `key`.
pub open spec fn removal_touches(records: Map<u64, Record>, key: InodeAltKey) -> Set<u64> {
    match find_key(records, key) {
        Some(inode) => Set::empty().insert(inode),
        None => Set::empty(),
    }
}

/// A removal under way.
#[derive(Debug)]
pub struct Removal {
    pub host: Host,
    pub kind: EntryKind,
    pub entry: NamespaceAlias,
    pub stage: RemovalStage,
}

impl Operation for Removal {
    open spec fn due(self) -> Step<Seq<u8>> {
        removal_step(self.host, self.kind, self.entry@, self.stage)
    }

    open spec fn after(self, reply: Reply) -> Self {
        Removal { stage: removal_next(self.host, self.kind, self.stage, reply), ..self }
    }

    open spec fn holds(self) -> Seq<i32> {
        match self.stage {
            RemovalStage::OpenParent => Seq::empty(),
            RemovalStage::IdentifyEntry { .. } => Seq::empty(),
            RemovalStage::Probe { .. } => Seq::empty(),
            RemovalStage::IdentifyProbe { fd, .. } => seq![fd],
            RemovalStage::Remove { fd, .. } => optional(fd),
            RemovalStage::Refused { fd, .. } => seq![fd],
            RemovalStage::Verify { fd, .. } => seq![fd],
            RemovalStage::Discard { fd, .. } => seq![fd],
            RemovalStage::Settle { fd, .. } => optional(fd),
            RemovalStage::Finished { close, .. } => optional(close),
        }
    }

    open spec fn changed(self) -> bool {
        match self.stage {
            RemovalStage::Verify { .. } => true,
            RemovalStage::Discard { .. } => true,
            RemovalStage::Settle { .. } => true,
            RemovalStage::Finished { result, .. } => result is Ok,
            _ => false,
        }
    }

    open spec fn untried(self) -> bool {
        match self.stage {
            RemovalStage::OpenParent => true,
            RemovalStage::IdentifyEntry { .. } => true,
            RemovalStage::Probe { .. } => true,
            RemovalStage::IdentifyProbe { .. } => true,
            RemovalStage::Remove { .. } => true,
            _ => false,
        }
    }

    open spec fn remaining(self) -> nat {
        match self.stage {
            RemovalStage::OpenParent => 7,
            RemovalStage::IdentifyEntry { .. } => 6,
            RemovalStage::Probe { .. } => 5,
            RemovalStage::IdentifyProbe { .. } => 4,
            RemovalStage::Remove { .. } => 3,
            RemovalStage::Refused { .. } => 1,
            RemovalStage::Verify { .. } => 2,
            RemovalStage::Discard { .. } => 1,
            RemovalStage::Settle { .. } => 0,
            RemovalStage::Finished { .. } => 0,
        }
    }

    proof fn one_reply(self, reply: Reply) {
        let call = self.due()->Call_0;
        assert(self.holds() + opens(call, reply) =~= closes(call) + self.after(reply).holds());
    }

    proof fn one_state(self) {
    }
}

impl Removal {
    /// What the removal is waiting for.
    pub fn step(&self) -> (step: Step<Vec<u8>>)
        ensures
            step@ == self.due(),
    {
        match self.stage {
            RemovalStage::OpenParent => Step::Call(Call::OpenInode { inode: self.entry.parent }),
            RemovalStage::IdentifyEntry { dir } => {
                let name = copy_bytes(self.entry.name.as_slice());
                Step::Call(Call::IdentifyAt { dir, name })
            },
            RemovalStage::Probe { dir, .. } => {
                let name = copy_bytes(self.entry.name.as_slice());
                let flags = OpenFlags {
                    path: matches!(self.host, Host::Linux),
                    directory: matches!(self.kind, EntryKind::Directory),
                    nonblock: false,
                    nofollow: true,
                    cloexec: true,
                };
                Step::Call(Call::OpenAt { dir, name, flags })
            },
            RemovalStage::IdentifyProbe { fd, .. } => Step::Call(Call::Identify { fd }),
            RemovalStage::Remove { dir, .. } => {
                let name = copy_bytes(self.entry.name.as_slice());
                let remove_dir: bool = matches!(self.kind, EntryKind::Directory);
                Step::Call(Call::UnlinkAt { dir, name, remove_dir })
            },
            RemovalStage::Refused { fd, .. } => Step::Call(Call::Close { fd }),
            RemovalStage::Verify { fd, .. } => Step::Call(Call::Identify { fd }),
            RemovalStage::Discard { fd, .. } => Step::Call(Call::Close { fd }),
            RemovalStage::Settle { .. } => Step::Settle,
            RemovalStage::Finished { result, close } => Step::Finished { result, close },
        }
    }

    /// Takes the reply to the call that is due. A reply of another kind changes nothing.
    pub fn advance(&mut self, reply: Reply)
        ensures
            *final(self) == old(self).after(reply),
    {
        let linux: bool = matches!(self.host, Host::Linux);
        let anchored: bool = matches!(self.host, Host::MacOs { anchor: true });
        let next: RemovalStage = match (self.stage, reply) {
            (RemovalStage::OpenParent, Reply::Opened(Err(errno))) => RemovalStage::Finished {
                result: Err(Errno::Guest(errno)),
                close: None,
            },
            (RemovalStage::OpenParent, Reply::Opened(Ok(dir))) => if anchored {
                RemovalStage::IdentifyEntry { dir }
            } else {
                self.parent_open(dir, None)
            },
            (RemovalStage::IdentifyEntry { dir }, Reply::Identity(found)) => match found {
                Ok(key) => self.parent_open(dir, Some(key)),
                Err(_) => self.parent_open(dir, None),
            },
            (RemovalStage::Probe { dir, key }, Reply::Sys { ret, .. }) => if ret < 0 {
                RemovalStage::Remove { dir, fd: None, key }
            } else if linux {
                RemovalStage::IdentifyProbe { dir, fd: ret }
            } else {
                RemovalStage::Remove { dir, fd: Some(ret), key }
            },
            (RemovalStage::IdentifyProbe { dir, fd }, Reply::Identity(found)) => match found {
                Ok(key) => RemovalStage::Remove { dir, fd: Some(fd), key: Some(key) },
                Err(errno) => RemovalStage::Finished {
                    result: Err(Errno::Guest(errno)),
                    close: Some(fd),
                },
            },
            (RemovalStage::Remove { fd, key, .. }, Reply::Sys { ret, errno }) => if ret < 0 {
                match (self.kind, fd) {
                    (EntryKind::Directory, Some(fd)) if linux => RemovalStage::Refused {
                        fd,
                        errno,
                    },
                    _ => RemovalStage::Finished { result: Err(Errno::Host(errno)), close: fd },
                }
            } else {
                match fd {
                    Some(fd) if !linux => RemovalStage::Verify { fd, key },
                    _ => Removal::entry_gone(fd, key),
                }
            },
            (RemovalStage::Refused { errno, .. }, Reply::Closed(closed)) => {
                RemovalStage::Finished {
                    result: Err(Errno::Host(read_errno_after(errno, closed))),
                    close: None,
                }
            },
            (RemovalStage::Verify { fd, key }, Reply::Identity(found)) => match (key, found) {
                (Some(key), Ok(found)) if anchored && found == key => Removal::entry_gone(
                    Some(fd),
                    Some(key),
                ),
                (key, _) if anchored => RemovalStage::Discard { fd, key },
                (_, Ok(found)) => Removal::entry_gone(Some(fd), Some(found)),
                (_, Err(_)) => Removal::entry_gone(Some(fd), None),
            },
            (RemovalStage::Discard { key, .. }, Reply::Closed(_)) => {
                Removal::entry_gone(None, key)
            },
            (stage, _) => stage,
        };
        self.stage = next;
    }

    /// The stage once the parent is open.
    fn parent_open(&self, dir: i32, key: Option<InodeAltKey>) -> (stage: RemovalStage)
        ensures
            stage == before_probe(self.host, self.kind, dir, key),
    {
        match (self.host, self.kind) {
            (Host::MacOs { .. }, EntryKind::Directory) => RemovalStage::Remove {
                dir,
                fd: None,
                key,
            },
            _ => RemovalStage::Probe { dir, key },
        }
    }

    /// The stage once the entry is removed.
    fn entry_gone(fd: Option<i32>, key: Option<InodeAltKey>) -> (stage: RemovalStage)
        ensures
            stage == after_removal(fd, key),
    {
        match key {
            Some(key) => RemovalStage::Settle { fd, key },
            None => RemovalStage::Finished { result: Ok(()), close: fd },
        }
    }

    /// Lets the table follow the removal.
    pub fn settle(self, table: &mut InodeTable) -> (outcome: Outcome)
        requires
            old(table).wf(),
            self.stage is Settle,
        ensures
            final(table).wf(),
            final(table).fresh() == old(table).fresh(),
            self.stage matches RemovalStage::Settle { fd, key } && (
                final(table)@,
                outcome.close,
            ) == removal_settled(old(table)@, self.host, self.entry@, key, fd),
            self.stage matches RemovalStage::Settle { key, .. } && released(
                outcome.gone@,
                old(table)@,
                final(table)@,
                removal_touches(old(table)@, key),
            ),
    {
        let (fd, key): (Option<i32>, InodeAltKey) = match self.stage {
            RemovalStage::Settle { fd, key } => (fd, key),
            _ => (None, InodeAltKey::new(0, 0)),
        };
        let known: Option<u64> = match table.get_alt(key) {
            Some(data) => Some(data.inode),
            None => None,
        };
        let inode: u64 = match known {
            Some(inode) => inode,
            None => {
                return Outcome { close: fd, gone: Vec::new() };
            },
        };
        match self.host {
            Host::MacOs { anchor: false } => {
                let close: Option<i32> = keep_fd(table, inode, fd);
                Outcome { close, gone: Vec::new() }
            },
            _ => release_entry(table, inode, &self.entry, fd),
        }
    }
}

/// Keeps `fd` for `inode`, and hands back the descriptor that is left over.
pub(crate) fn keep_fd(table: &mut InodeTable, inode: u64, fd: Option<i32>) -> (unkept: Option<i32>)
    requires
        old(table).wf(),
    ensures
        final(table).wf(),
        final(table).fresh() == old(table).fresh(),
        (final(table)@, unkept) == keep(old(table)@, inode, fd),
        final(table)@.dom() == old(table)@.dom(),
{
    let unkept: Option<i32> = match fd {
        Some(fd) => table.store_unlinked_fd(inode, fd),
        None => None,
    };
    assert(table@.dom() =~= old(table)@.dom());
    unkept
}

/// Takes `entry` off the aliases of `inode`, and keeps `fd` if that was the last one.
pub(crate) fn release_entry(
    table: &mut InodeTable,
    inode: u64,
    entry: &NamespaceAlias,
    fd: Option<i32>,
) -> (outcome: Outcome)
    requires
        old(table).wf(),
    ensures
        final(table).wf(),
        final(table).fresh() == old(table).fresh(),
        (final(table)@, outcome.close) == released_entry(old(table)@, inode, entry@, fd),
        released(outcome.gone@, old(table)@, final(table)@, Set::empty().insert(inode)),
{
    let ghost before = table@;
    let (detached, gone): (bool, Vec<InodeData>) = table.remove_alias(inode, entry);
    let ghost left = table@;
    let close: Option<i32> = if detached {
        keep_fd(table, inode, fd)
    } else {
        fd
    };
    assert(released(gone@, before, left, Set::empty().insert(inode)));
    assert(table@.dom() == left.dom());
    assert forall|i: u64| left.contains_key(i) == #[trigger] table@.contains_key(i) by {
        assert(left.dom().contains(i) == table@.dom().contains(i));
    }
    Outcome { close, gone }
}

} // verus!
