//! Renaming a directory entry, replacing another, or exchanging two.
//!
//! Where aliases are tracked, the operation learns before the change which files the two
//! entries name, and opens the file that is about to be replaced, so that its data outlives
//! the name. After the change the aliases move as the entries did, and a replaced file
//! without any alias left takes the descriptor over.
use vstd::prelude::*;

use crate::calls::{
    errno_after, read_errno_after, Call, OpenFlags, Outcome, RenameCall, Reply, Step,
};
use crate::inode_table::{
    alike, lemma_released_chain, lemma_released_wider, released, InodeData, InodeTable,
};
use crate::model::{
    add_alias, find_key, lemma_find_key, lemma_remove_alias_frame, remove_alias, Record,
};
use crate::operation::{closes, opens, optional, Operation};
use crate::removal::{release_entry, released_entry};
use crate::types::{copy_bytes, Entry, Errno, Host, InodeAltKey, NamespaceAlias, ENOENT};

verus! {

/// The guest's flag for "fail where the target exists".
pub const RENAME_NOREPLACE: u32 = 1;

/// The guest's flag for "swap source and target".
pub const RENAME_EXCHANGE: u32 = 2;

/// The macOS flag for "fail where the target exists".
pub const MACOS_RENAME_EXCL: u32 = 4;

/// The macOS flag for "swap source and target".
pub const MACOS_RENAME_SWAP: u32 = 2;

/// Whether the guest asks that nothing be replaced.
pub open spec fn keeps_target(flags: u32) -> bool {
    flags & RENAME_NOREPLACE != 0
}

/// Whether the guest asks for an exchange.
pub open spec fn exchanges(flags: u32) -> bool {
    flags & RENAME_EXCHANGE != 0
}

/// The macOS flags that ask for what the guest's `flags` ask for; other flags are dropped.
pub open spec fn macos_flags(flags: u32) -> u32 {
    ((if keeps_target(flags) {
        MACOS_RENAME_EXCL as int
    } else {
        0
    }) + (if exchanges(flags) {
        MACOS_RENAME_SWAP as int
    } else {
        0
    })) as u32
}

/// Which call the host makes, with which flags.
pub open spec fn rename_call(host: Host, flags: u32) -> RenameCall {
    if host is Linux {
        RenameCall::Renameat2 { flags }
    } else if flags == 0 {
        RenameCall::Renameat
    } else {
        RenameCall::RenameatxNp { flags: macos_flags(flags) }
    }
}

/// The descriptors of the two directories.
#[derive(Debug, Clone, Copy, PartialEq, Eq, Structural)]
pub struct Dirs {
    pub from: i32,
    pub to: i32,
}

/// What is known of the file that the new entry names before the change.
#[derive(Debug, Clone, Copy, PartialEq, Eq, Structural)]
pub struct Target {
    pub key: InodeAltKey,
    /// A descriptor of that very file, where it could be opened.
    pub fd: Option<i32>,
}

/// The target's descriptor, if there is a target and it has one.
pub open spec fn target_fd(target: Option<Target>) -> Option<i32> {
    match target {
        Some(target) => target.fd,
        None => None,
    }
}

/// How far a rename has come.
#[allow(inconsistent_fields)]
#[derive(Debug, Clone, Copy)]
pub enum RenameStage {
    /// The old directory is to be opened.
    OpenOld,
    /// The new directory is to be opened.
    OpenNew { from: i32 },
    /// The source is to be opened (Linux).
    ProbeSource { dirs: Dirs },
    /// The opened source is to be identified (Linux).
    IdentifySource { dirs: Dirs, fd: i32 },
    /// The opened source is to be closed (Linux).
    CloseSource { dirs: Dirs, fd: i32, source: InodeAltKey },
    /// The target is to be opened (Linux).
    ProbeTarget { dirs: Dirs, source: InodeAltKey },
    /// The opened target is to be identified (Linux).
    IdentifyTarget { dirs: Dirs, source: InodeAltKey, fd: i32 },
    /// The old entry is to be identified (anchor mode).
    IdentifyOldEntry { dirs: Dirs },
    /// The new entry is to be identified (anchor mode).
    IdentifyNewEntry { dirs: Dirs, source: InodeAltKey },
    /// The target is to be opened (anchor mode).
    OpenTarget { dirs: Dirs, source: InodeAltKey, target: InodeAltKey },
    /// Which file was opened is to be found out (anchor mode).
    VerifyTarget { dirs: Dirs, source: InodeAltKey, target: InodeAltKey, fd: i32 },
    /// The descriptor is of another file and is to be closed (anchor mode).
    DiscardTarget { dirs: Dirs, source: InodeAltKey, target: InodeAltKey, fd: i32 },
    /// The entry is to be renamed.
    Rename { dirs: Dirs, source: Option<InodeAltKey>, target: Option<Target> },
    /// The host refused; the target's descriptor is to be closed before the error is read
    /// (Linux).
    Refused { fd: i32, errno: i32 },
    /// The table is to follow.
    Settle { source: InodeAltKey, target: Option<Target> },
    /// It is over.
    Finished { result: Result<(), Errno>, close: Option<i32> },
}

/// How source and target are opened on Linux, and the target in anchor mode.
pub open spec fn open_flags(host: Host) -> OpenFlags {
    OpenFlags {
        path: host is Linux,
        directory: false,
        nonblock: !(host is Linux),
        nofollow: true,
        cloexec: true,
    }
}

/// What a rename of `from` to `to` is waiting for.
pub open spec fn rename_step(
    host: Host,
    flags: u32,
    from: Entry,
    to: Entry,
    stage: RenameStage,
) -> Step<Seq<u8>> {
    match stage {
        RenameStage::OpenOld => Step::Call(Call::OpenInode { inode: from.parent }),
        RenameStage::OpenNew { .. } => Step::Call(Call::OpenInode { inode: to.parent }),
        RenameStage::ProbeSource { dirs } => Step::Call(
            Call::OpenAt { dir: dirs.from, name: from.name, flags: open_flags(host) },
        ),
        RenameStage::IdentifySource { fd, .. } => Step::Call(Call::Identify { fd }),
        RenameStage::CloseSource { fd, .. } => Step::Call(Call::Close { fd }),
        RenameStage::ProbeTarget { dirs, .. } => Step::Call(
            Call::OpenAt { dir: dirs.to, name: to.name, flags: open_flags(host) },
        ),
        RenameStage::IdentifyTarget { fd, .. } => Step::Call(Call::Identify { fd }),
        RenameStage::IdentifyOldEntry { dirs } => Step::Call(
            Call::IdentifyAt { dir: dirs.from, name: from.name },
        ),
        RenameStage::IdentifyNewEntry { dirs, .. } => Step::Call(
            Call::IdentifyAt { dir: dirs.to, name: to.name },
        ),
        RenameStage::OpenTarget { dirs, .. } => Step::Call(
            Call::OpenAt { dir: dirs.to, name: to.name, flags: open_flags(host) },
        ),
        RenameStage::VerifyTarget { fd, .. } => Step::Call(Call::Identify { fd }),
        RenameStage::DiscardTarget { fd, .. } => Step::Call(Call::Close { fd }),
        RenameStage::Rename { dirs, .. } => Step::Call(
            Call::Rename {
                old_dir: dirs.from,
                old_name: from.name,
                new_dir: dirs.to,
                new_name: to.name,
                call: rename_call(host, flags),
            },
        ),
        RenameStage::Refused { fd, .. } => Step::Call(Call::Close { fd }),
        RenameStage::Settle { .. } => Step::Settle,
        RenameStage::Finished { result, close } => Step::Finished { result, close },
    }
}

/// A rename that failed with the guest's number `errno`, with a descriptor to close.
pub open spec fn failed(errno: i32, close: Option<i32>) -> RenameStage {
    RenameStage::Finished { result: Err(Errno::Guest(errno)), close }
}

/// A rename that failed with the host's number `errno`, with a descriptor to close.
pub open spec fn host_failed(errno: i32, close: Option<i32>) -> RenameStage {
    RenameStage::Finished { result: Err(Errno::Host(errno)), close }
}

/// The stage once the host refused with `errno`. On macOS the error is read before the
/// target's descriptor is closed, on Linux after.
pub open spec fn refused(host: Host, target: Option<Target>, errno: i32) -> RenameStage {
    let fd = target_fd(target);
    if host is Linux && fd is Some {
        RenameStage::Refused { fd: fd->0, errno }
    } else {
        host_failed(errno, fd)
    }
}

/// The stage that follows `stage` on `reply`.
pub open spec fn rename_next(host: Host, stage: RenameStage, reply: Reply) -> RenameStage {
    match (stage, reply) {
        (RenameStage::OpenOld, Reply::Opened(opened)) => match opened {
            Ok(from) => RenameStage::OpenNew { from },
            Err(errno) => failed(errno, None),
        },
        (RenameStage::OpenNew { from }, Reply::Opened(opened)) => match opened {
            Ok(to) => {
                let dirs = Dirs { from, to };
                if host is Linux {
                    RenameStage::ProbeSource { dirs }
                } else if host.anchored() {
                    RenameStage::IdentifyOldEntry { dirs }
                } else {
                    RenameStage::Rename { dirs, source: None, target: None }
                }
            },
            Err(errno) => failed(errno, None),
        },
        // The source must be there and have an identity.
        (RenameStage::ProbeSource { dirs }, Reply::Sys { ret, errno }) => if ret < 0 {
            host_failed(errno, None)
        } else {
            RenameStage::IdentifySource { dirs, fd: ret }
        },
        (RenameStage::IdentifySource { dirs, fd }, Reply::Identity(found)) => match found {
            Ok(source) => RenameStage::CloseSource { dirs, fd, source },
            Err(errno) => failed(errno, Some(fd)),
        },
        (
            RenameStage::CloseSource { dirs, fd, source },
            Reply::Closed(_),
        ) => RenameStage::ProbeTarget { dirs, source },
        // The target may be missing; any other trouble with it is an error.
        (RenameStage::ProbeTarget { dirs, source }, Reply::Sys { ret, errno }) => if ret >= 0 {
            RenameStage::IdentifyTarget { dirs, source, fd: ret }
        } else if errno == ENOENT {
            RenameStage::Rename { dirs, source: Some(source), target: None }
        } else {
            host_failed(errno, None)
        },
        (
            RenameStage::IdentifyTarget { dirs, source, fd },
            Reply::Identity(found),
        ) => match found {
            Ok(key) => RenameStage::Rename {
                dirs,
                source: Some(source),
                target: Some(Target { key, fd: Some(fd) }),
            },
            Err(errno) => failed(errno, Some(fd)),
        },
        (RenameStage::IdentifyOldEntry { dirs }, Reply::Identity(found)) => match found {
            Ok(source) => RenameStage::IdentifyNewEntry { dirs, source },
            Err(errno) => failed(errno, None),
        },
        (RenameStage::IdentifyNewEntry { dirs, source }, Reply::Identity(found)) => match found {
            Ok(target) => RenameStage::OpenTarget { dirs, source, target },
            Err(errno) => if errno == ENOENT {
                RenameStage::Rename { dirs, source: Some(source), target: None }
            } else {
                failed(errno, None)
            },
        },
        // A target that cannot be opened is replaced all the same. One that was replaced
        // between the two looks at it is not to be kept.
        (RenameStage::OpenTarget { dirs, source, target }, Reply::Sys { ret, errno }) => if ret
            < 0 {
            RenameStage::Rename {
                dirs,
                source: Some(source),
                target: Some(Target { key: target, fd: None }),
            }
        } else {
            RenameStage::VerifyTarget { dirs, source, target, fd: ret }
        },
        (
            RenameStage::VerifyTarget { dirs, source, target, fd },
            Reply::Identity(found),
        ) => if found == Ok::<InodeAltKey, i32>(target) {
            RenameStage::Rename {
                dirs,
                source: Some(source),
                target: Some(Target { key: target, fd: Some(fd) }),
            }
        } else {
            RenameStage::DiscardTarget { dirs, source, target, fd }
        },
        (
            RenameStage::DiscardTarget { dirs, source, target, fd },
            Reply::Closed(_),
        ) => RenameStage::Rename {
            dirs,
            source: Some(source),
            target: Some(Target { key: target, fd: None }),
        },
        // The host refused: the descriptor goes, its error is reported.
        (RenameStage::Rename { dirs, source, target }, Reply::Sys { ret, errno }) => if ret < 0 {
            refused(host, target, errno)
        } else {
            match source {
                Some(source) => RenameStage::Settle { source, target },
                None => RenameStage::Finished { result: Ok(()), close: target_fd(target) },
            }
        },
        (RenameStage::Refused { fd, errno }, Reply::Closed(closed)) => host_failed(
            errno_after(errno, closed),
            None,
        ),
        _ => stage,
    }
}

/// The records after `inode` moved from the entry `from` to the entry `to`. In anchor mode
/// the new alias comes first, so that the directory it lies in is never without it.
pub open spec fn move_alias(
    records: Map<u64, Record>,
    host: Host,
    inode: u64,
    from: Entry,
    to: Entry,
) -> Map<u64, Record> {
    if host.anchored() {
        remove_alias(add_alias(records, inode, to), inode, from)
    } else {
        add_alias(remove_alias(records, inode, from), inode, to)
    }
}

/// Whether the table stays as it is because both entries name one file: an exchange then
/// moves nothing, nor does a rename, which anchor mode takes into account.
pub open spec fn moves_nothing(
    host: Host,
    exchange: bool,
    source: InodeAltKey,
    target: Option<Target>,
) -> bool {
    &&& target is Some && target->0.key == source
    &&& exchange || host.anchored()
}

/// The records, and the descriptor to close, once the table followed a rename of `from`, which
/// named the file `source`, to `to`. The source moves; in an exchange the target moves the
/// other way; otherwise the target loses the alias, and keeps its descriptor if that was the
/// last one.
pub open spec fn rename_settled(
    records: Map<u64, Record>,
    host: Host,
    exchange: bool,
    from: Entry,
    to: Entry,
    source: InodeAltKey,
    target: Option<Target>,
) -> (Map<u64, Record>, Option<i32>) {
    let holder = find_key(records, source);
    let moved = match holder {
        Some(inode) => move_alias(records, host, inode, from, to),
        None => records,
    };
    if moves_nothing(host, exchange, source, target) {
        (records, target_fd(target))
    } else {
        match target {
            None => (moved, None),
            Some(target) => match find_key(moved, target.key) {
                None => (moved, target.fd),
                Some(inode) => if exchange {
                    (move_alias(moved, host, inode, to, from), target.fd)
                } else if holder == Some(inode) {
                    (moved, target.fd)
                } else {
                    released_entry(moved, inode, to, target.fd)
                },
            },
        }
    }
}

/// The inodes whose aliases change when the table follows a rename.
pub open spec fn rename_touches(
    records: Map<u64, Record>,
    source: InodeAltKey,
    target: Option<Target>,
) -> Set<u64> {
    Set::new(
        |inode: u64|
            {
                ||| find_key(records, source) == Some(inode)
                ||| target is Some && find_key(records, target->0.key) == Some(inode)
            },
    )
}

/// A rename under way.
#[derive(Debug)]
pub struct Rename {
    pub host: Host,
    pub flags: u32,
    pub from: NamespaceAlias,
    pub to: NamespaceAlias,
    pub stage: RenameStage,
}

/// The macOS flags that ask for what the guest's `flags` ask for.
pub fn translate_flags(flags: u32) -> (translated: u32)
    ensures
        translated == macos_flags(flags),
{
    let mut translated: u32 = 0;
    if flags & RENAME_NOREPLACE != 0 {
        translated = translated + MACOS_RENAME_EXCL;
    }
    if flags & RENAME_EXCHANGE != 0 {
        translated = translated + MACOS_RENAME_SWAP;
    }
    translated
}

impl Operation for Rename {
    open spec fn due(self) -> Step<Seq<u8>> {
        rename_step(self.host, self.flags, self.from@, self.to@, self.stage)
    }

    open spec fn after(self, reply: Reply) -> Self {
        Rename { stage: rename_next(self.host, self.stage, reply), ..self }
    }

    open spec fn holds(self) -> Seq<i32> {
        match self.stage {
            RenameStage::IdentifySource { fd, .. } => seq![fd],
            RenameStage::CloseSource { fd, .. } => seq![fd],
            RenameStage::IdentifyTarget { fd, .. } => seq![fd],
            RenameStage::VerifyTarget { fd, .. } => seq![fd],
            RenameStage::DiscardTarget { fd, .. } => seq![fd],
            RenameStage::Rename { target, .. } => optional(target_fd(target)),
            RenameStage::Refused { fd, .. } => seq![fd],
            RenameStage::Settle { target, .. } => optional(target_fd(target)),
            RenameStage::Finished { close, .. } => optional(close),
            _ => Seq::empty(),
        }
    }

    open spec fn changed(self) -> bool {
        match self.stage {
            RenameStage::Settle { .. } => true,
            RenameStage::Finished { result, .. } => result is Ok,
            _ => false,
        }
    }

    open spec fn untried(self) -> bool {
        match self.stage {
            RenameStage::Refused { .. } => false,
            RenameStage::Settle { .. } => false,
            RenameStage::Finished { .. } => false,
            _ => true,
        }
    }

    open spec fn remaining(self) -> nat {
        match self.stage {
            RenameStage::OpenOld => 9,
            RenameStage::OpenNew { .. } => 8,
            RenameStage::ProbeSource { .. } => 7,
            RenameStage::IdentifySource { .. } => 6,
            RenameStage::CloseSource { .. } => 5,
            RenameStage::ProbeTarget { .. } => 4,
            RenameStage::IdentifyTarget { .. } => 3,
            RenameStage::IdentifyOldEntry { .. } => 7,
            RenameStage::IdentifyNewEntry { .. } => 6,
            RenameStage::OpenTarget { .. } => 5,
            RenameStage::VerifyTarget { .. } => 4,
            RenameStage::DiscardTarget { .. } => 3,
            RenameStage::Rename { .. } => 2,
            RenameStage::Refused { .. } => 1,
            RenameStage::Settle { .. } => 0,
            RenameStage::Finished { .. } => 0,
        }
    }

    proof fn one_reply(self, reply: Reply) {
        let call = self.due()->Call_0;
        assert(self.holds() + opens(call, reply) =~= closes(call) + self.after(reply).holds());
    }

    proof fn one_state(self) {
    }
}

impl Rename {
    /// What the rename is waiting for.
    pub fn step(&self) -> (step: Step<Vec<u8>>)
        ensures
            step@ == self.due(),
    {
        match self.stage {
            RenameStage::OpenOld => Step::Call(Call::OpenInode { inode: self.from.parent }),
            RenameStage::OpenNew { .. } => Step::Call(Call::OpenInode { inode: self.to.parent }),
            RenameStage::ProbeSource { dirs } => self.open(dirs.from, &self.from),
            RenameStage::IdentifySource { fd, .. } => Step::Call(Call::Identify { fd }),
            RenameStage::CloseSource { fd, .. } => Step::Call(Call::Close { fd }),
            RenameStage::ProbeTarget { dirs, .. } => self.open(dirs.to, &self.to),
            RenameStage::IdentifyTarget { fd, .. } => Step::Call(Call::Identify { fd }),
            RenameStage::IdentifyOldEntry { dirs } => {
                let name = copy_bytes(self.from.name.as_slice());
                Step::Call(Call::IdentifyAt { dir: dirs.from, name })
            },
            RenameStage::IdentifyNewEntry { dirs, .. } => {
                let name = copy_bytes(self.to.name.as_slice());
                Step::Call(Call::IdentifyAt { dir: dirs.to, name })
            },
            RenameStage::OpenTarget { dirs, .. } => self.open(dirs.to, &self.to),
            RenameStage::VerifyTarget { fd, .. } => Step::Call(Call::Identify { fd }),
            RenameStage::DiscardTarget { fd, .. } => Step::Call(Call::Close { fd }),
            RenameStage::Rename { dirs, .. } => {
                let call: RenameCall = match self.host {
                    Host::Linux => RenameCall::Renameat2 { flags: self.flags },
                    Host::MacOs { .. } => if self.flags == 0 {
                        RenameCall::Renameat
                    } else {
                        RenameCall::RenameatxNp { flags: translate_flags(self.flags) }
                    },
                };
                let old_name = copy_bytes(self.from.name.as_slice());
                let new_name = copy_bytes(self.to.name.as_slice());
                Step::Call(
                    Call::Rename {
                        old_dir: dirs.from,
                        old_name,
                        new_dir: dirs.to,
                        new_name,
                        call,
                    },
                )
            },
            RenameStage::Refused { fd, .. } => Step::Call(Call::Close { fd }),
            RenameStage::Settle { .. } => Step::Settle,
            RenameStage::Finished { result, close } => Step::Finished { result, close },
        }
    }

    /// The call that opens `entry` in the directory `dir`.
    fn open(&self, dir: i32, entry: &NamespaceAlias) -> (step: Step<Vec<u8>>)
        ensures
            step@ == Step::Call(
                Call::OpenAt { dir, name: entry@.name, flags: open_flags(self.host) },
            ),
    {
        let linux: bool = matches!(self.host, Host::Linux);
        let flags = OpenFlags {
            path: linux,
            directory: false,
            nonblock: !linux,
            nofollow: true,
            cloexec: true,
        };
        let name = copy_bytes(entry.name.as_slice());
        Step::Call(Call::OpenAt { dir, name, flags })
    }

    /// Takes the reply to the call that is due. A reply of another kind changes nothing.
    pub fn advance(&mut self, reply: Reply)
        ensures
            *final(self) == old(self).after(reply),
    {
        let next: RenameStage = match (self.stage, reply) {
            (RenameStage::OpenOld, Reply::Opened(Ok(from))) => RenameStage::OpenNew { from },
            (RenameStage::OpenOld, Reply::Opened(Err(errno))) => Rename::fail(errno, None),
            (RenameStage::OpenNew { from }, Reply::Opened(Ok(to))) => {
                let dirs = Dirs { from, to };
                match self.host {
                    Host::Linux => RenameStage::ProbeSource { dirs },
                    Host::MacOs { anchor: true } => RenameStage::IdentifyOldEntry { dirs },
                    Host::MacOs { anchor: false } => RenameStage::Rename {
                        dirs,
                        source: None,
                        target: None,
                    },
                }
            },
            (RenameStage::OpenNew { .. }, Reply::Opened(Err(errno))) => Rename::fail(errno, None),
            (RenameStage::ProbeSource { dirs }, Reply::Sys { ret, errno }) => if ret < 0 {
                Rename::fail_host(errno, None)
            } else {
                RenameStage::IdentifySource { dirs, fd: ret }
            },
            (RenameStage::IdentifySource { dirs, fd }, Reply::Identity(found)) => match found {
                Ok(source) => RenameStage::CloseSource { dirs, fd, source },
                Err(errno) => Rename::fail(errno, Some(fd)),
            },
            (RenameStage::CloseSource { dirs, source, .. }, Reply::Closed(_)) => {
                RenameStage::ProbeTarget { dirs, source }
            },
            (RenameStage::ProbeTarget { dirs, source }, Reply::Sys { ret, errno }) => {
                if ret >= 0 {
                    RenameStage::IdentifyTarget { dirs, source, fd: ret }
                } else if errno == ENOENT {
                    RenameStage::Rename { dirs, source: Some(source), target: None }
                } else {
                    Rename::fail_host(errno, None)
                }
            },
            (RenameStage::IdentifyTarget { dirs, source, fd }, Reply::Identity(found)) => {
                match found {
                    Ok(key) => Rename::ready(dirs, source, key, Some(fd)),
                    Err(errno) => Rename::fail(errno, Some(fd)),
                }
            },
            (RenameStage::IdentifyOldEntry { dirs }, Reply::Identity(found)) => match found {
                Ok(source) => RenameStage::IdentifyNewEntry { dirs, source },
                Err(errno) => Rename::fail(errno, None),
            },
            (RenameStage::IdentifyNewEntry { dirs, source }, Reply::Identity(found)) => {
                match found {
                    Ok(target) => RenameStage::OpenTarget { dirs, source, target },
                    Err(errno) => if errno == ENOENT {
                        RenameStage::Rename { dirs, source: Some(source), target: None }
                    } else {
                        Rename::fail(errno, None)
                    },
                }
            },
            (RenameStage::OpenTarget { dirs, source, target }, Reply::Sys { ret, .. }) => {
                if ret < 0 {
                    Rename::ready(dirs, source, target, None)
                } else {
                    RenameStage::VerifyTarget { dirs, source, target, fd: ret }
                }
            },
            (RenameStage::VerifyTarget { dirs, source, target, fd }, Reply::Identity(found)) => {
                match found {
                    Ok(opened) if opened == target => Rename::ready(
                        dirs,
                        source,
                        target,
                        Some(fd),
                    ),
                    _ => RenameStage::DiscardTarget { dirs, source, target, fd },
                }
            },
            (RenameStage::DiscardTarget { dirs, source, target, .. }, Reply::Closed(_)) => {
                Rename::ready(dirs, source, target, None)
            },
            (RenameStage::Rename { source, target, .. }, Reply::Sys { ret, errno }) => {
                let fd: Option<i32> = match target {
                    Some(target) => target.fd,
                    None => None,
                };
                if ret < 0 {
                    match (self.host, fd) {
                        (Host::Linux, Some(fd)) => RenameStage::Refused { fd, errno },
                        _ => Rename::fail_host(errno, fd),
                    }
                } else {
                    match source {
                        Some(source) => RenameStage::Settle { source, target },
                        None => RenameStage::Finished { result: Ok(()), close: fd },
                    }
                }
            },
            (RenameStage::Refused { errno, .. }, Reply::Closed(closed)) => {
                Rename::fail_host(read_errno_after(errno, closed), None)
            },
            (stage, _) => stage,
        };
        self.stage = next;
    }

    fn fail(errno: i32, close: Option<i32>) -> (stage: RenameStage)
        ensures
            stage == failed(errno, close),
    {
        RenameStage::Finished { result: Err(Errno::Guest(errno)), close }
    }

    fn fail_host(errno: i32, close: Option<i32>) -> (stage: RenameStage)
        ensures
            stage == host_failed(errno, close),
    {
        RenameStage::Finished { result: Err(Errno::Host(errno)), close }
    }

    /// The stage in which both files are known.
    fn ready(dirs: Dirs, source: InodeAltKey, key: InodeAltKey, fd: Option<i32>) -> (stage:
        RenameStage)
        ensures
            stage == (RenameStage::Rename {
                dirs,
                source: Some(source),
                target: Some(Target { key, fd }),
            }),
    {
        RenameStage::Rename { dirs, source: Some(source), target: Some(Target { key, fd }) }
    }

    /// Lets the table follow the rename.
    pub fn settle(self, table: &mut InodeTable) -> (outcome: Outcome)
        requires
            old(table).wf(),
            self.stage is Settle,
        ensures
            final(table).wf(),
            final(table).fresh() == old(table).fresh(),
            self.stage matches RenameStage::Settle { source, target } && (
                final(table)@,
                outcome.close,
            ) == rename_settled(
                old(table)@,
                self.host,
                exchanges(self.flags),
                self.from@,
                self.to@,
                source,
                target,
            ),
            self.stage matches RenameStage::Settle { source, target } && released(
                outcome.gone@,
                old(table)@,
                final(table)@,
                rename_touches(old(table)@, source, target),
            ),
    {
        let (source, target): (InodeAltKey, Option<Target>) = match self.stage {
            RenameStage::Settle { source, target } => (source, target),
            _ => (InodeAltKey::new(0, 0), None),
        };
        let exchange: bool = self.flags & RENAME_EXCHANGE != 0;
        let anchored: bool = matches!(self.host, Host::MacOs { anchor: true });
        let ghost before = table@;
        let ghost touched = rename_touches(before, source, target);
        proof {
            table.lemma_wf();
        }
        let holder: Option<u64> = match table.get_alt(source) {
            Some(data) => Some(data.inode),
            None => None,
        };
        if let Some(target) = target {
            if target.key == source && (exchange || anchored) {
                return Outcome { close: target.fd, gone: Vec::new() };
            }
        }
        let mut gone: Vec<InodeData> = match holder {
            Some(inode) => relocate(table, self.host, inode, &self.from, &self.to),
            None => Vec::new(),
        };
        proof {
            if let Some(inode) = holder {
                lemma_released_wider(gone@, before, table@, Set::empty().insert(inode), touched);
            }
            assert(alike(before, table@, touched));
        }
        let target: Target = match target {
            Some(target) => target,
            None => {
                return Outcome { close: None, gone };
            },
        };
        let ghost moved = table@;
        let known: Option<u64> = match table.get_alt(target.key) {
            Some(data) => Some(data.inode),
            None => None,
        };
        let inode: u64 = match known {
            Some(inode) => inode,
            None => {
                return Outcome { close: target.fd, gone };
            },
        };
        proof {
            lemma_find_key(before, inode);
        }
        if exchange {
            let mut more: Vec<InodeData> = relocate(table, self.host, inode, &self.to, &self.from);
            proof {
                lemma_released_wider(more@, moved, table@, Set::empty().insert(inode), touched);
                lemma_released_chain(gone@, more@, before, moved, table@, touched);
            }
            gone.append(&mut more);
            Outcome { close: target.fd, gone }
        } else if matches!(holder, Some(source) if source == inode) {
            Outcome { close: target.fd, gone }
        } else {
            let mut outcome = release_entry(table, inode, &self.to, target.fd);
            proof {
                lemma_remove_alias_frame(moved, inode, self.to@);
                assert(table@.dom() =~= remove_alias(moved, inode, self.to@).dom());
                lemma_released_wider(
                    outcome.gone@,
                    moved,
                    table@,
                    Set::empty().insert(inode),
                    touched,
                );
                lemma_released_chain(gone@, outcome.gone@, before, moved, table@, touched);
            }
            gone.append(&mut outcome.gone);
            Outcome { close: outcome.close, gone }
        }
    }
}

/// Moves `inode` from one entry to another, and hands the dropped records out.
fn relocate(
    table: &mut InodeTable,
    host: Host,
    inode: u64,
    from: &NamespaceAlias,
    to: &NamespaceAlias,
) -> (gone: Vec<InodeData>)
    requires
        old(table).wf(),
    ensures
        final(table).wf(),
        final(table).fresh() == old(table).fresh(),
        final(table)@ == move_alias(old(table)@, host, inode, from@, to@),
        final(table)@.dom().subset_of(old(table)@.dom()),
        alike(old(table)@, final(table)@, Set::empty().insert(inode)),
        released(gone@, old(table)@, final(table)@, Set::empty().insert(inode)),
{
    let ghost before = table@;
    match host {
        Host::MacOs { anchor: true } => {
            table.register_alias(inode, to.duplicate());
            let ghost both = table@;
            let (_, gone): (bool, Vec<InodeData>) = table.remove_alias(inode, from);
            proof {
                lemma_remove_alias_frame(both, inode, from@);
                assert(both.dom() =~= before.dom());
                lemma_released_chain(
                    Seq::<InodeData>::empty(),
                    gone@,
                    before,
                    both,
                    table@,
                    Set::empty().insert(inode),
                );
                assert(Seq::<InodeData>::empty() + gone@ =~= gone@);
            }
            gone
        },
        _ => {
            let (_, gone): (bool, Vec<InodeData>) = table.remove_alias(inode, from);
            let ghost neither = table@;
            table.register_alias(inode, to.duplicate());
            proof {
                lemma_remove_alias_frame(before, inode, from@);
                assert(table@.dom() =~= neither.dom());
                lemma_released_chain(
                    gone@,
                    Seq::<InodeData>::empty(),
                    before,
                    neither,
                    table@,
                    Set::empty().insert(inode),
                );
                assert(gone@ + Seq::<InodeData>::empty() =~= gone@);
            }
            gone
        },
    }
}

} // verus!
