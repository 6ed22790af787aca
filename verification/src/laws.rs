//! What the operations promise of the inode table and of the files behind it.
use vstd::prelude::*;

use crate::calls::{Call, Reply, Step};
use crate::fs::PassthroughFs;
use crate::inode_table::looked_up;
use crate::model::{
    add_alias, anchored_in, counted_down, detaches, find_key, forget, lemma_add_alias_wf,
    lemma_find_key, lemma_prune_keeps, lemma_prune_keeps_parent, lemma_prune_keeps_referenced,
    lemma_needed_congruent, lemma_prune_sustains, lemma_remove_alias_frame, lemma_remove_alias_wf,
    lemma_remove_value, needed, prune, records_wf, remove_alias, retain, self_sustaining,
    strip_alias, survives, Record,
};
use crate::operation::{
    entry_identified, entry_missing, entry_opened, identified, lemma_entry_identified_before,
    lemma_entry_identified_now, lemma_entry_missing_before, lemma_entry_missing_now,
    lemma_identified_before, lemma_identified_now, lemma_opened_now, lemma_opened_still, possible,
    reached, Operation,
};
use crate::removal::{
    released_entry, removal_settled, removal_touches, EntryKind, Removal, RemovalStage,
};
use crate::remove_ops::{removal_begins, rename_begins};
use crate::rename::{
    macos_flags, move_alias, moves_nothing, rename_settled, rename_touches, target_fd, Dirs, Rename,
    RenameStage, Target, MACOS_RENAME_EXCL, MACOS_RENAME_SWAP, RENAME_EXCHANGE, RENAME_NOREPLACE,
};
use crate::types::{Entry, Errno, Host, InodeAltKey, EACCES, ENOENT, EROFS, ROOT_INODE};

verus! {

/// A descriptor that a removal hands to the table was identified as that of the very file
/// under whose inode it is kept: no file that took the name's place is ever kept for it.
pub proof fn law_removal_keeps_identified(start: Removal, replies: Seq<Reply>)
    requires
        start.stage == RemovalStage::OpenParent,
        possible(start, replies),
    ensures
        reached(start, replies).stage matches RemovalStage::Settle { fd: Some(fd), key }
            ==> identified(start, replies, fd, key),
{
    lemma_removal_vouched(start, replies);
}

proof fn lemma_removal_vouched(start: Removal, replies: Seq<Reply>)
    requires
        start.stage == RemovalStage::OpenParent,
        possible(start, replies),
    ensures
        reached(start, replies).host == start.host,
        reached(start, replies).stage matches RemovalStage::Settle { fd: Some(fd), key }
            ==> identified(start, replies, fd, key),
        start.host is Linux ==> (reached(start, replies).stage matches RemovalStage::Remove {
            fd: Some(fd),
            key,
            ..
        } ==> key is Some && identified(start, replies, fd, key->0)),
    decreases replies.len(),
{
    if replies.len() > 0 {
        let sofar = replies.drop_last();
        lemma_removal_vouched(start, sofar);
        let before = reached(start, sofar);
        match before.stage {
            RemovalStage::Remove { fd: Some(fd), key: Some(key), .. } => {
                if start.host is Linux {
                    lemma_identified_before(start, replies, fd, key);
                }
            },
            RemovalStage::IdentifyProbe { fd, .. } | RemovalStage::Verify { fd, .. } => {
                if let Reply::Identity(Ok(key)) = replies.last() {
                    lemma_identified_now(start, replies, fd, key);
                }
            },
            _ => {},
        }
    }
}

/// A descriptor that a rename hands to the table was identified as that of the very file that
/// the new entry named.
pub proof fn law_rename_keeps_identified(start: Rename, replies: Seq<Reply>)
    requires
        start.stage == RenameStage::OpenOld,
        possible(start, replies),
    ensures
        reached(start, replies).stage matches RenameStage::Settle {
            target: Some(Target { key, fd: Some(fd) }),
            ..
        } ==> identified(start, replies, fd, key),
{
    lemma_rename_vouched(start, replies);
}

proof fn lemma_rename_vouched(start: Rename, replies: Seq<Reply>)
    requires
        start.stage == RenameStage::OpenOld,
        possible(start, replies),
    ensures
        reached(start, replies).stage matches RenameStage::Settle {
            target: Some(Target { key, fd: Some(fd) }),
            ..
        } ==> identified(start, replies, fd, key),
        reached(start, replies).stage matches RenameStage::Rename {
            target: Some(Target { key, fd: Some(fd) }),
            ..
        } ==> identified(start, replies, fd, key),
    decreases replies.len(),
{
    if replies.len() > 0 {
        let sofar = replies.drop_last();
        lemma_rename_vouched(start, sofar);
        match reached(start, sofar).stage {
            RenameStage::Rename { target: Some(Target { key, fd: Some(fd) }), .. } => {
                lemma_identified_before(start, replies, fd, key);
            },
            RenameStage::IdentifyTarget { fd, .. } | RenameStage::VerifyTarget { fd, .. } => {
                if let Reply::Identity(Ok(key)) = replies.last() {
                    lemma_identified_now(start, replies, fd, key);
                }
            },
            _ => {},
        }
    }
}

/// What a removal asks of the host in a directory, it asks in the one that was opened for the
/// parent, and of the entry's name.
pub proof fn law_removal_acts_on_its_entry(start: Removal, replies: Seq<Reply>)
    requires
        start.stage == RemovalStage::OpenParent,
        possible(start, replies),
    ensures
        match reached(start, replies).due() {
            Step::Call(Call::OpenInode { inode }) => inode == start.entry@.parent,
            Step::Call(
                Call::OpenAt { dir, name, .. }
                | Call::IdentifyAt { dir, name }
                | Call::UnlinkAt { dir, name, .. },
            ) => {
                &&& replies.len() > 0 && replies[0] == Reply::Opened(Ok(dir))
                &&& name == start.entry@.name
            },
            Step::Call(Call::Rename { .. }) => false,
            _ => true,
        },
{
    lemma_removal_dir(start, replies);
}

proof fn lemma_removal_dir(start: Removal, replies: Seq<Reply>)
    requires
        start.stage == RemovalStage::OpenParent,
        possible(start, replies),
    ensures
        reached(start, replies).host == start.host,
        reached(start, replies).kind == start.kind,
        reached(start, replies).entry == start.entry,
        match reached(start, replies).stage {
            RemovalStage::OpenParent => replies.len() == 0,
            RemovalStage::IdentifyEntry { dir }
            | RemovalStage::Probe { dir, .. }
            | RemovalStage::IdentifyProbe { dir, .. }
            | RemovalStage::Remove { dir, .. } => replies.len() > 0 && replies[0]
                == Reply::Opened(Ok(dir)),
            _ => replies.len() > 0,
        },
    decreases replies.len(),
{
    if replies.len() > 0 {
        lemma_removal_dir(start, replies.drop_last());
    }
}

/// What a rename asks of the host, it asks in the directories that were opened for the two
/// parents, of the entry that belongs to each. Where aliases are not tracked it asks nothing
/// but the rename itself, and the table has nothing to follow.
pub proof fn law_rename_acts_on_its_entries(start: Rename, replies: Seq<Reply>)
    requires
        start.stage == RenameStage::OpenOld,
        possible(start, replies),
    ensures
        match reached(start, replies).due() {
            Step::Call(Call::OpenInode { inode }) => inode == if replies.len() == 0 {
                start.from@.parent
            } else {
                start.to@.parent
            },
            Step::Call(Call::OpenAt { dir, name, .. } | Call::IdentifyAt { dir, name }) => {
                &&& start.host.tracks_aliases()
                &&& replies.len() > 1
                &&& {
                    ||| replies[0] == Reply::Opened(Ok(dir)) && name == start.from@.name
                    ||| replies[1] == Reply::Opened(Ok(dir)) && name == start.to@.name
                }
            },
            Step::Call(Call::Rename { old_dir, old_name, new_dir, new_name, .. }) => {
                &&& replies.len() > 1
                &&& replies[0] == Reply::Opened(Ok(old_dir))
                &&& old_name == start.from@.name
                &&& replies[1] == Reply::Opened(Ok(new_dir))
                &&& new_name == start.to@.name
            },
            Step::Call(Call::UnlinkAt { .. }) => false,
            Step::Settle => start.host.tracks_aliases(),
            _ => true,
        },
{
    lemma_rename_dirs(start, replies);
}

/// Whether `dirs` are what the first two replies opened.
pub open spec fn dirs_opened(replies: Seq<Reply>, dirs: Dirs) -> bool {
    &&& replies.len() > 1
    &&& replies[0] == Reply::Opened(Ok(dirs.from))
    &&& replies[1] == Reply::Opened(Ok(dirs.to))
}

proof fn lemma_rename_dirs(start: Rename, replies: Seq<Reply>)
    requires
        start.stage == RenameStage::OpenOld,
        possible(start, replies),
    ensures
        reached(start, replies).host == start.host,
        reached(start, replies).from == start.from,
        reached(start, replies).to == start.to,
        match reached(start, replies).stage {
            RenameStage::OpenOld => replies.len() == 0,
            RenameStage::OpenNew { from } => replies.len() == 1 && replies[0] == Reply::Opened(
                Ok(from),
            ),
            RenameStage::ProbeSource { dirs }
            | RenameStage::IdentifySource { dirs, .. }
            | RenameStage::CloseSource { dirs, .. }
            | RenameStage::ProbeTarget { dirs, .. }
            | RenameStage::IdentifyTarget { dirs, .. }
            | RenameStage::IdentifyOldEntry { dirs }
            | RenameStage::IdentifyNewEntry { dirs, .. }
            | RenameStage::OpenTarget { dirs, .. }
            | RenameStage::VerifyTarget { dirs, .. }
            | RenameStage::DiscardTarget { dirs, .. } => start.host.tracks_aliases()
                && dirs_opened(replies, dirs),
            RenameStage::Rename { dirs, source, .. } => dirs_opened(replies, dirs) && (source
                is Some <==> start.host.tracks_aliases()),
            RenameStage::Settle { .. } => start.host.tracks_aliases(),
            RenameStage::Refused { .. } => true,
            RenameStage::Finished { result, .. } => start.host.tracks_aliases() ==> result is Err,
        },
    decreases replies.len(),
{
    if replies.len() > 0 {
        lemma_rename_dirs(start, replies.drop_last());
    }
}

/// Where aliases are tracked a rename that the host made always goes on to the table: one that
/// is over without it has failed.
pub proof fn law_rename_reaches_table(start: Rename, replies: Seq<Reply>)
    requires
        start.stage == RenameStage::OpenOld,
        start.host.tracks_aliases(),
        possible(start, replies),
    ensures
        reached(start, replies).due() matches Step::Finished { result, .. } ==> result is Err,
{
    lemma_rename_dirs(start, replies);
}

/// In anchor mode the alias of a removed entry goes whether or not the entry could be opened:
/// once it was identified, a removal ends with the table or with an error, and the table is
/// told the file that was identified.
pub proof fn law_anchored_removal_reaches_table(
    start: Removal,
    replies: Seq<Reply>,
    key: InodeAltKey,
)
    requires
        start.stage == RemovalStage::OpenParent,
        start.host.anchored(),
        possible(start, replies),
        replies.len() > 1,
        replies[1] == Reply::Identity(Ok(key)),
    ensures
        reached(start, replies).stage matches RemovalStage::Settle { key: settled, .. }
            ==> settled == key,
        reached(start, replies).stage matches RemovalStage::Finished { result, .. }
            ==> result is Err,
{
    lemma_anchored_key(start, replies, key);
}

proof fn lemma_anchored_key(start: Removal, replies: Seq<Reply>, key: InodeAltKey)
    requires
        start.stage == RemovalStage::OpenParent,
        start.host.anchored(),
        possible(start, replies),
        replies.len() > 1,
        replies[1] == Reply::Identity(Ok(key)),
    ensures
        match reached(start, replies).stage {
            RemovalStage::Probe { key: known, .. }
            | RemovalStage::Remove { key: known, .. }
            | RemovalStage::Verify { key: known, .. }
            | RemovalStage::Discard { key: known, .. } => known == Some(key),
            RemovalStage::Settle { key: settled, .. } => settled == key,
            RemovalStage::Finished { result, .. } => result is Err,
            _ => false,
        },
    decreases replies.len(),
{
    let sofar = replies.drop_last();
    lemma_removal_dir(start, sofar);
    if replies.len() > 2 {
        lemma_anchored_key(start, sofar, key);
    } else {
        assert(sofar.drop_last().len() == 0);
        reveal_with_fuel(reached, 3);
        reveal_with_fuel(possible, 3);
    }
}

/// The file that a removal hands to the table is the one that the host named for the entry,
/// and a descriptor that it hands on came from opening the entry and is still open.
pub proof fn law_removal_settles_its_entry(start: Removal, replies: Seq<Reply>)
    requires
        start.stage == RemovalStage::OpenParent,
        possible(start, replies),
    ensures
        reached(start, replies).stage matches RemovalStage::Settle { fd, key } ==> {
            let dir = replies[0]->Opened_0->Ok_0;
            let name = start.entry@.name;
            &&& replies.len() > 0 && replies[0] == Reply::Opened(Ok(dir))
            &&& entry_identified(start, replies, dir, name, key)
            &&& fd matches Some(fd) ==> entry_opened(start, replies, dir, name, fd)
        },
{
    lemma_removal_entry(start, replies);
}

proof fn lemma_removal_entry(start: Removal, replies: Seq<Reply>)
    requires
        start.stage == RemovalStage::OpenParent,
        possible(start, replies),
    ensures
        ({
            let dir = replies[0]->Opened_0->Ok_0;
            let name = start.entry@.name;
            let stage = reached(start, replies).stage;
            &&& !(stage is OpenParent || stage is Refused || stage is Finished) ==> replies.len()
                > 0 && replies[0] == Reply::Opened(Ok(dir))
            &&& match stage {
                RemovalStage::Probe { key, .. } | RemovalStage::Discard { key, .. } => key is Some
                    ==> entry_identified(start, replies, dir, name, key->0),
                RemovalStage::IdentifyProbe { fd, .. } => entry_opened(
                    start,
                    replies,
                    dir,
                    name,
                    fd,
                ),
                RemovalStage::Remove { fd, key, .. } => {
                    &&& key is Some ==> entry_identified(start, replies, dir, name, key->0)
                    &&& fd is Some ==> entry_opened(start, replies, dir, name, fd->0)
                },
                RemovalStage::Verify { fd, key } => {
                    &&& key is Some ==> entry_identified(start, replies, dir, name, key->0)
                    &&& entry_opened(start, replies, dir, name, fd)
                },
                RemovalStage::Settle { fd, key } => {
                    &&& entry_identified(start, replies, dir, name, key)
                    &&& fd is Some ==> entry_opened(start, replies, dir, name, fd->0)
                },
                _ => true,
            }
        }),
    decreases replies.len(),
{
    if replies.len() > 0 {
        let sofar = replies.drop_last();
        lemma_removal_entry(start, sofar);
        lemma_removal_dir(start, sofar);
        let before = reached(start, sofar).stage;
        let dir = replies[0]->Opened_0->Ok_0;
        let name = start.entry@.name;
        let known: Option<InodeAltKey> = match before {
            RemovalStage::Probe { key, .. } => key,
            RemovalStage::Remove { key, .. } => key,
            RemovalStage::Verify { key, .. } => key,
            RemovalStage::Discard { key, .. } => key,
            _ => None,
        };
        if let Some(key) = known {
            lemma_entry_identified_before(start, replies, dir, name, key);
        }
        let held: Option<i32> = match before {
            RemovalStage::IdentifyProbe { fd, .. } => Some(fd),
            RemovalStage::Remove { fd, .. } => fd,
            RemovalStage::Verify { fd, .. } => Some(fd),
            _ => None,
        };
        if let Some(fd) = held {
            lemma_opened_still(start, replies, dir, name, fd);
        }
        match (before, replies.last()) {
            (RemovalStage::Probe { .. }, Reply::Sys { ret, .. }) => {
                if ret >= 0 {
                    lemma_opened_now(start, replies, dir, name, ret);
                }
            },
            (
                RemovalStage::IdentifyEntry { .. }
                | RemovalStage::IdentifyProbe { .. }
                | RemovalStage::Verify { .. },
                Reply::Identity(Ok(key)),
            ) => {
                lemma_entry_identified_now(start, replies, dir, name, key);
            },
            _ => {},
        }
    }
}

/// The files that a rename hands to the table are those that the host named for the two
/// entries. Without a target the host said that the new entry is missing. A descriptor that
/// it hands on came from opening the new entry and is still open.
pub proof fn law_rename_settles_its_entries(start: Rename, replies: Seq<Reply>)
    requires
        start.stage == RenameStage::OpenOld,
        possible(start, replies),
    ensures
        reached(start, replies).stage matches RenameStage::Settle { source, target } ==> {
            let old_dir = replies[0]->Opened_0->Ok_0;
            let new_dir = replies[1]->Opened_0->Ok_0;
            &&& dirs_opened(replies, Dirs { from: old_dir, to: new_dir })
            &&& entry_identified(start, replies, old_dir, start.from@.name, source)
            &&& target_known(start, replies, new_dir, target)
        },
{
    lemma_rename_entries(start, replies);
}

/// Whether `target` is what the host said of the new entry, in the directory `dir`.
pub open spec fn target_known(
    start: Rename,
    replies: Seq<Reply>,
    dir: i32,
    target: Option<Target>,
) -> bool {
    match target {
        Some(target) => {
            &&& entry_identified(start, replies, dir, start.to@.name, target.key)
            &&& target.fd matches Some(fd) ==> entry_opened(
                start,
                replies,
                dir,
                start.to@.name,
                fd,
            )
        },
        None => entry_missing(start, replies, dir, start.to@.name),
    }
}

proof fn lemma_target_known_before(
    start: Rename,
    replies: Seq<Reply>,
    dir: i32,
    target: Option<Target>,
)
    requires
        replies.len() > 0,
        target_known(start, replies.drop_last(), dir, target),
        reached(start, replies.drop_last()).due()->Call_0 !is Close,
        reached(start, replies.drop_last()).due() is Call,
    ensures
        target_known(start, replies, dir, target),
{
    let name = start.to@.name;
    match target {
        Some(target) => {
            lemma_entry_identified_before(start, replies, dir, name, target.key);
            if let Some(fd) = target.fd {
                lemma_opened_still(start, replies, dir, name, fd);
            }
        },
        None => {
            lemma_entry_missing_before(start, replies, dir, name);
        },
    }
}

proof fn lemma_rename_entries(start: Rename, replies: Seq<Reply>)
    requires
        start.stage == RenameStage::OpenOld,
        possible(start, replies),
    ensures
        ({
            let old_dir = replies[0]->Opened_0->Ok_0;
            let new_dir = replies[1]->Opened_0->Ok_0;
            let (old_name, new_name) = (start.from@.name, start.to@.name);
            let stage = reached(start, replies).stage;
            &&& !(stage is OpenOld || stage is OpenNew || stage is Refused || stage is Finished)
                ==> dirs_opened(replies, Dirs { from: old_dir, to: new_dir })
            &&& match stage {
                RenameStage::IdentifySource { fd, .. } => entry_opened(
                    start,
                    replies,
                    old_dir,
                    old_name,
                    fd,
                ),
                RenameStage::CloseSource { source, .. }
                | RenameStage::ProbeTarget { source, .. }
                | RenameStage::IdentifyNewEntry { source, .. } => entry_identified(
                    start,
                    replies,
                    old_dir,
                    old_name,
                    source,
                ),
                RenameStage::IdentifyTarget { source, fd, .. } => {
                    &&& entry_identified(start, replies, old_dir, old_name, source)
                    &&& entry_opened(start, replies, new_dir, new_name, fd)
                },
                RenameStage::OpenTarget { source, target, .. }
                | RenameStage::DiscardTarget { source, target, .. } => {
                    &&& entry_identified(start, replies, old_dir, old_name, source)
                    &&& entry_identified(start, replies, new_dir, new_name, target)
                },
                RenameStage::VerifyTarget { source, target, fd, .. } => {
                    &&& entry_identified(start, replies, old_dir, old_name, source)
                    &&& entry_identified(start, replies, new_dir, new_name, target)
                    &&& entry_opened(start, replies, new_dir, new_name, fd)
                },
                RenameStage::Rename { source, target, .. } => source is Some ==> {
                    &&& entry_identified(start, replies, old_dir, old_name, source->0)
                    &&& target_known(start, replies, new_dir, target)
                },
                RenameStage::Settle { source, target } => {
                    &&& entry_identified(start, replies, old_dir, old_name, source)
                    &&& target_known(start, replies, new_dir, target)
                },
                _ => true,
            }
        }),
    decreases replies.len(),
{
    if replies.len() > 0 {
        let sofar = replies.drop_last();
        lemma_rename_entries(start, sofar);
        lemma_rename_dirs(start, sofar);
        let before = reached(start, sofar).stage;
        let old_dir = replies[0]->Opened_0->Ok_0;
        let new_dir = replies[1]->Opened_0->Ok_0;
        let (old_name, new_name) = (start.from@.name, start.to@.name);
        let source: Option<InodeAltKey> = match before {
            RenameStage::CloseSource { source, .. } => Some(source),
            RenameStage::ProbeTarget { source, .. } => Some(source),
            RenameStage::IdentifyTarget { source, .. } => Some(source),
            RenameStage::IdentifyNewEntry { source, .. } => Some(source),
            RenameStage::OpenTarget { source, .. } => Some(source),
            RenameStage::VerifyTarget { source, .. } => Some(source),
            RenameStage::DiscardTarget { source, .. } => Some(source),
            RenameStage::Rename { source, .. } => source,
            _ => None,
        };
        if let Some(key) = source {
            lemma_entry_identified_before(start, replies, old_dir, old_name, key);
        }
        let target: Option<InodeAltKey> = match before {
            RenameStage::OpenTarget { target, .. } => Some(target),
            RenameStage::VerifyTarget { target, .. } => Some(target),
            RenameStage::DiscardTarget { target, .. } => Some(target),
            _ => None,
        };
        if let Some(key) = target {
            lemma_entry_identified_before(start, replies, new_dir, new_name, key);
        }
        match (before, replies.last()) {
            (RenameStage::ProbeSource { .. }, Reply::Sys { ret, .. }) => {
                if ret >= 0 {
                    lemma_opened_now(start, replies, old_dir, old_name, ret);
                }
            },
            (
                RenameStage::IdentifySource { .. } | RenameStage::IdentifyOldEntry { .. },
                Reply::Identity(Ok(key)),
            ) => {
                lemma_entry_identified_now(start, replies, old_dir, old_name, key);
            },
            (
                RenameStage::ProbeTarget { .. } | RenameStage::OpenTarget { .. },
                Reply::Sys { ret, errno },
            ) => {
                if ret >= 0 {
                    lemma_opened_now(start, replies, new_dir, new_name, ret);
                } else if errno == ENOENT {
                    lemma_entry_missing_now(start, replies, new_dir, new_name);
                }
            },
            (
                RenameStage::IdentifyTarget { fd, .. } | RenameStage::VerifyTarget { fd, .. },
                Reply::Identity(found),
            ) => {
                lemma_opened_still(start, replies, new_dir, new_name, fd);
                if let Ok(key) = found {
                    lemma_entry_identified_now(start, replies, new_dir, new_name, key);
                }
            },
            (RenameStage::IdentifyNewEntry { .. }, Reply::Identity(found)) => match found {
                Ok(key) => {
                    lemma_entry_identified_now(start, replies, new_dir, new_name, key);
                },
                Err(errno) => {
                    if errno == ENOENT {
                        lemma_entry_missing_now(start, replies, new_dir, new_name);
                    }
                },
            },
            (RenameStage::Rename { source: Some(_), target, .. }, _) => {
                lemma_target_known_before(start, replies, new_dir, target);
            },
            _ => {},
        }
    }
}

/// On Linux a removal whose entry was opened and identified ends with the table or with an
/// error, and the table is told that file and given that descriptor.
pub proof fn law_linux_removal_reaches_table(
    start: Removal,
    replies: Seq<Reply>,
    key: InodeAltKey,
)
    requires
        start.stage == RemovalStage::OpenParent,
        start.host is Linux,
        possible(start, replies),
        replies.len() > 2,
        replies[2] == Reply::Identity(Ok(key)),
    ensures
        replies[1] is Sys,
        reached(start, replies).stage matches RemovalStage::Settle { fd, key: settled }
            ==> settled == key && fd == Some(replies[1]->Sys_ret),
        reached(start, replies).stage matches RemovalStage::Finished { result, .. }
            ==> result is Err,
{
    lemma_linux_key(start, replies, key);
}

proof fn lemma_linux_key(start: Removal, replies: Seq<Reply>, key: InodeAltKey)
    requires
        start.stage == RemovalStage::OpenParent,
        start.host is Linux,
        possible(start, replies),
        replies.len() > 2,
        replies[2] == Reply::Identity(Ok(key)),
    ensures
        replies[1] is Sys,
        match reached(start, replies).stage {
            RemovalStage::Remove { fd, key: known, .. } => fd == Some(replies[1]->Sys_ret) && known
                == Some(key),
            RemovalStage::Settle { fd, key: settled } => fd == Some(replies[1]->Sys_ret) && settled
                == key,
            RemovalStage::Refused { .. } => true,
            RemovalStage::Finished { result, .. } => result is Err,
            _ => false,
        },
    decreases replies.len(),
{
    let sofar = replies.drop_last();
    lemma_removal_dir(start, sofar);
    if replies.len() > 3 {
        lemma_linux_key(start, sofar, key);
    } else {
        assert(sofar.drop_last().drop_last().len() == 0);
        assert(sofar.last() == replies[1]);
        assert(sofar.drop_last().last() == replies[0]);
        reveal_with_fuel(reached, 4);
        reveal_with_fuel(possible, 4);
    }
}

/// Where aliases are not tracked a removal whose file was opened and identified goes on to
/// the table with both.
pub proof fn law_untracked_removal_reaches_table(removal: Removal, found: InodeAltKey)
    requires
        removal.stage is Verify,
        !removal.host.tracks_aliases(),
    ensures
        removal.after(Reply::Identity(Ok(found))).stage == (RemovalStage::Settle {
            fd: Some(removal.stage->Verify_fd),
            key: found,
        }),
{
}

/// The error of a refused removal is read before the descriptor is closed, except that of a
/// directory on Linux.
pub proof fn law_refused_removal_is_reported_at_once(removal: Removal, ret: i32, errno: i32)
    requires
        removal.stage is Remove,
        ret < 0,
        removal.kind is File || !(removal.host is Linux),
    ensures
        removal.after(Reply::Sys { ret, errno }).due() == (Step::<Seq<u8>>::Finished {
            result: Err(Errno::Host(errno)),
            close: removal.stage->Remove_fd,
        }),
{
}

/// The error of a refused rename is read before the descriptor is closed, except on Linux.
pub proof fn law_refused_rename_is_reported_at_once(rename: Rename, ret: i32, errno: i32)
    requires
        rename.stage is Rename,
        ret < 0,
        !(rename.host is Linux),
    ensures
        rename.after(Reply::Sys { ret, errno }).due() == (Step::<Seq<u8>>::Finished {
            result: Err(Errno::Host(errno)),
            close: target_fd(rename.stage->Rename_target),
        }),
{
}

/// No open that a rename asks for waits for the writer of a FIFO.
pub proof fn law_rename_opens_do_not_wait(rename: Rename)
    requires
        rename.due() is Call,
        rename.due()->Call_0 is OpenAt,
    ensures
        ({
            let flags = rename.due()->Call_0->OpenAt_flags;
            flags.path || flags.nonblock
        }),
{
}

/// The records with no alias for any of `touched`.
pub open spec fn stripped_of(records: Map<u64, Record>, touched: Set<u64>) -> Map<u64, Record> {
    Map::new(
        |inode: u64| records.contains_key(inode),
        |inode: u64|
            if touched.contains(inode) {
                Record { aliases: Seq::empty(), ..records[inode] }
            } else {
                records[inode]
            },
    )
}

/// Whether `inode` stays whatever becomes of the aliases of `touched`: the guest refers to it,
/// or to something found through it by way of other records alone.
pub open spec fn kept_without(
    records: Map<u64, Record>,
    touched: Set<u64>,
    inode: u64,
) -> bool {
    survives(stripped_of(records, touched), inode)
}

/// Whether the guest refers to `inode`, or to something that lies in it and is none of
/// `touched`.
pub open spec fn in_use(records: Map<u64, Record>, touched: Set<u64>, inode: u64) -> bool {
    ||| records[inode].lookups > 0
    ||| exists|child: u64| #[trigger]
        records.contains_key(child) && !touched.contains(child) && records[child].lookups > 0
            && anchored_in(records[child], inode)
}

/// What is in use stays whatever becomes of the aliases of `touched`.
pub proof fn law_in_use_is_kept(records: Map<u64, Record>, touched: Set<u64>, inode: u64)
    requires
        records.contains_key(inode),
        in_use(records, touched, inode),
    ensures
        kept_without(records, touched, inode),
{
    let stripped = stripped_of(records, touched);
    if records[inode].lookups > 0 {
        let live = Set::empty().insert(inode);
        assert(self_sustaining(stripped, live) && live.contains(inode));
    } else {
        let child = choose|child: u64| #[trigger]
            records.contains_key(child) && !touched.contains(child) && records[child].lookups > 0
                && anchored_in(records[child], inode);
        let live = Set::empty().insert(inode).insert(child);
        assert(live.contains(child) && anchored_in(stripped[child], inode));
        assert(self_sustaining(stripped, live) && live.contains(inode));
    }
}

/// What stays without the aliases of some stays without those of fewer.
proof fn lemma_kept_without_fewer(
    records: Map<u64, Record>,
    touched: Set<u64>,
    fewer: Set<u64>,
    inode: u64,
)
    requires
        fewer.subset_of(touched),
        kept_without(records, touched, inode),
    ensures
        kept_without(records, fewer, inode),
{
    let a = stripped_of(records, touched);
    let b = stripped_of(records, fewer);
    let live = choose|live: Set<u64>| #[trigger] self_sustaining(a, live) && live.contains(inode);
    assert forall|i: u64| #[trigger] live.contains(i) implies b.contains_key(i) && needed(
        b,
        live,
        i,
    ) by {
        assert(a.contains_key(i) && needed(a, live, i));
        if i != ROOT_INODE && a[i].lookups == 0 {
            let child = choose|child: u64| #[trigger]
                live.contains(child) && anchored_in(a[child], i);
            assert(a.contains_key(child));
            assert(a[child].aliases == b[child].aliases);
            assert(live.contains(child) && anchored_in(b[child], i));
        }
    }
    assert(self_sustaining(b, live));
}

/// A change of the aliases or the descriptor of one of `touched` takes nothing away.
proof fn lemma_touch_keeps(
    records: Map<u64, Record>,
    touched: Set<u64>,
    one: u64,
    record: Record,
    inode: u64,
)
    requires
        records.contains_key(one),
        touched.contains(one),
        record.lookups == records[one].lookups,
        kept_without(records, touched, inode),
    ensures
        kept_without(records.insert(one, record), touched, inode),
{
    let a = stripped_of(records, touched);
    let b = stripped_of(records.insert(one, record), touched);
    let live = choose|live: Set<u64>| #[trigger] self_sustaining(a, live) && live.contains(inode);
    assert forall|i: u64| #[trigger] live.contains(i) implies a[i].lookups == b[i].lookups
        && a[i].aliases == b[i].aliases by {
        assert(a.contains_key(i));
    }
    assert forall|i: u64| #[trigger] live.contains(i) implies b.contains_key(i) && needed(
        b,
        live,
        i,
    ) by {
        assert(a.contains_key(i) && needed(a, live, i));
        lemma_needed_congruent(a, b, live, i);
    }
    assert(self_sustaining(b, live));
}

/// Pruning takes away nothing that stays without the aliases of `touched`.
proof fn lemma_prune_keeps_kept(records: Map<u64, Record>, touched: Set<u64>, inode: u64)
    requires
        kept_without(records, touched, inode),
    ensures
        prune(records).contains_key(inode),
        kept_without(prune(records), touched, inode),
{
    let a = stripped_of(records, touched);
    let left = prune(records);
    let b = stripped_of(left, touched);
    let live = choose|live: Set<u64>| #[trigger] self_sustaining(a, live) && live.contains(inode);
    assert forall|i: u64| #[trigger] live.contains(i) implies records.contains_key(i) && needed(
        records,
        live,
        i,
    ) by {
        assert(a.contains_key(i) && needed(a, live, i));
        if i != ROOT_INODE && a[i].lookups == 0 {
            let child = choose|child: u64| #[trigger]
                live.contains(child) && anchored_in(a[child], i);
            assert(a.contains_key(child));
            assert(live.contains(child) && anchored_in(records[child], i));
        }
    }
    lemma_prune_keeps(records, live);
    assert forall|i: u64| #[trigger] live.contains(i) implies a[i].lookups == b[i].lookups
        && a[i].aliases == b[i].aliases by {
        assert(left.dom().contains(i));
        assert(a.contains_key(i));
    }
    assert forall|i: u64| #[trigger] live.contains(i) implies b.contains_key(i) && needed(
        b,
        live,
        i,
    ) by {
        assert(left.dom().contains(i));
        assert(needed(a, live, i));
        lemma_needed_congruent(a, b, live, i);
    }
    assert(self_sustaining(b, live));
}

/// What becomes of the aliases of one of `touched` takes nothing away that stays without them.
proof fn lemma_alias_change_keeps(
    records: Map<u64, Record>,
    touched: Set<u64>,
    one: u64,
    entry: Entry,
    inode: u64,
)
    requires
        touched.contains(one),
        kept_without(records, touched, inode),
    ensures
        kept_without(add_alias(records, one, entry), touched, inode),
        kept_without(remove_alias(records, one, entry), touched, inode),
{
    if records.contains_key(one) {
        let record = records[one];
        let added = Record { aliases: record.aliases.push(entry), ..record };
        lemma_touch_keeps(records, touched, one, added, inode);
        let removed = Record { aliases: record.aliases.remove_value(entry), ..record };
        lemma_touch_keeps(records, touched, one, removed, inode);
        lemma_prune_keeps_kept(strip_alias(records, one, entry), touched, inode);
    }
}

proof fn lemma_move_keeps_kept(
    records: Map<u64, Record>,
    touched: Set<u64>,
    host: Host,
    one: u64,
    from: Entry,
    to: Entry,
    inode: u64,
)
    requires
        touched.contains(one),
        kept_without(records, touched, inode),
    ensures
        kept_without(move_alias(records, host, one, from, to), touched, inode),
{
    if host.anchored() {
        lemma_alias_change_keeps(records, touched, one, to, inode);
        lemma_alias_change_keeps(add_alias(records, one, to), touched, one, from, inode);
    } else {
        lemma_alias_change_keeps(records, touched, one, from, inode);
        lemma_alias_change_keeps(remove_alias(records, one, from), touched, one, to, inode);
    }
}

proof fn lemma_release_keeps_kept(
    records: Map<u64, Record>,
    touched: Set<u64>,
    one: u64,
    entry: Entry,
    fd: Option<i32>,
    inode: u64,
)
    requires
        touched.contains(one),
        kept_without(records, touched, inode),
    ensures
        kept_without(released_entry(records, one, entry, fd).0, touched, inode),
{
    let left = remove_alias(records, one, entry);
    lemma_alias_change_keeps(records, touched, one, entry, inode);
    if left.contains_key(one) {
        lemma_touch_keeps(left, touched, one, Record { unlinked: fd, ..left[one] }, inode);
    }
}

/// What stays without the aliases of the removed file is in the table after the removal, and
/// stays so.
pub proof fn law_removal_keeps_the_rest(
    records: Map<u64, Record>,
    host: Host,
    entry: Entry,
    key: InodeAltKey,
    fd: Option<i32>,
    inode: u64,
)
    requires
        kept_without(records, removal_touches(records, key), inode),
    ensures
        ({
            let after = removal_settled(records, host, entry, key, fd).0;
            &&& after.contains_key(inode)
            &&& kept_without(after, removal_touches(records, key), inode)
        }),
{
    let touched = removal_touches(records, key);
    let after = removal_settled(records, host, entry, key, fd).0;
    if let Some(one) = find_key(records, key) {
        lemma_release_keeps_kept(records, touched, one, entry, fd, inode);
        lemma_touch_keeps(records, touched, one, Record { unlinked: fd, ..records[one] }, inode);
    }
    assert(stripped_of(after, touched).contains_key(inode));
}

/// What stays without the aliases of the two files of a rename is in the table after it, and
/// stays so.
pub proof fn law_rename_keeps_the_rest(
    records: Map<u64, Record>,
    host: Host,
    exchange: bool,
    from: Entry,
    to: Entry,
    source: InodeAltKey,
    target: Option<Target>,
    inode: u64,
)
    requires
        records_wf(records),
        kept_without(records, rename_touches(records, source, target), inode),
    ensures
        ({
            let after = rename_settled(records, host, exchange, from, to, source, target).0;
            &&& after.contains_key(inode)
            &&& kept_without(after, rename_touches(records, source, target), inode)
        }),
{
    let touched = rename_touches(records, source, target);
    let after = rename_settled(records, host, exchange, from, to, source, target).0;
    let moved = match find_key(records, source) {
        Some(one) => move_alias(records, host, one, from, to),
        None => records,
    };
    if let Some(one) = find_key(records, source) {
        lemma_move_alias(records, host, one, from, to);
        lemma_move_keeps_kept(records, touched, host, one, from, to, inode);
    }
    if let Some(t) = target {
        if let Some(other) = find_key(moved, t.key) {
            assert(records.contains_key(other) && records[other].key == t.key);
            lemma_find_key(records, other);
            assert(touched.contains(other));
            lemma_move_keeps_kept(moved, touched, host, other, to, from, inode);
            lemma_release_keeps_kept(moved, touched, other, to, t.fd, inode);
        }
    }
    assert(stripped_of(after, touched).contains_key(inode));
}

/// The same of what is in use.
proof fn lemma_rename_keeps_in_use(
    records: Map<u64, Record>,
    host: Host,
    exchange: bool,
    from: Entry,
    to: Entry,
    source: InodeAltKey,
    target: Option<Target>,
    inode: u64,
)
    requires
        records_wf(records),
        records.contains_key(inode),
    ensures
        in_use(records, rename_touches(records, source, target), inode) ==> rename_settled(
            records,
            host,
            exchange,
            from,
            to,
            source,
            target,
        ).0.contains_key(inode),
{
    let touched = rename_touches(records, source, target);
    if in_use(records, touched, inode) {
        law_in_use_is_kept(records, touched, inode);
        law_rename_keeps_the_rest(records, host, exchange, from, to, source, target, inode);
    }
}

/// After a removal the inode of the file has every alias but the removed entry, and no other
/// record changes. A file that is in use stays in the table.
pub proof fn law_removed_entry_is_no_alias(
    records: Map<u64, Record>,
    host: Host,
    entry: Entry,
    key: InodeAltKey,
    fd: Option<i32>,
    inode: u64,
)
    requires
        records_wf(records),
        host.tracks_aliases(),
        find_key(records, key) == Some(inode),
    ensures
        ({
            let after = removal_settled(records, host, entry, key, fd).0;
            &&& in_use(records, removal_touches(records, key), inode) ==> after.contains_key(
                inode,
            )
            &&& after.contains_key(inode) ==> {
                &&& !after[inode].aliases.contains(entry)
                &&& after[inode].aliases == records[inode].aliases.remove_value(entry)
                &&& after[inode].key == key
                &&& after[inode].lookups == records[inode].lookups
            }
            &&& forall|i: u64| #[trigger]
                after.contains_key(i) && i != inode ==> records.contains_key(i) && after[i]
                    == records[i]
        }),
{
    let left = remove_alias(records, inode, entry);
    lemma_remove_alias_frame(records, inode, entry);
    lemma_remove_value(records[inode].aliases, entry);
    if in_use(records, removal_touches(records, key), inode) {
        law_in_use_is_kept(records, removal_touches(records, key), inode);
        law_removal_keeps_the_rest(records, host, entry, key, fd, inode);
    }
    let after = removal_settled(records, host, entry, key, fd).0;
    assert(after.dom() =~= left.dom());
}

/// When the last entry of a file goes while its record stays, as it does if the file is in use,
/// the descriptor opened before is kept with the inode: the data stays readable.
pub proof fn law_last_entry_keeps_data(
    records: Map<u64, Record>,
    host: Host,
    entry: Entry,
    key: InodeAltKey,
    fd: i32,
    inode: u64,
)
    requires
        records_wf(records),
        host.tracks_aliases(),
        find_key(records, key) == Some(inode),
        forall|e: Entry| #[trigger] records[inode].aliases.contains(e) ==> e == entry,
    ensures
        ({
            let (after, close) = removal_settled(records, host, entry, key, Some(fd));
            &&& in_use(records, removal_touches(records, key), inode) ==> after.contains_key(
                inode,
            )
            &&& after.contains_key(inode) ==> {
                &&& after[inode].aliases.len() == 0
                &&& after[inode].unlinked == Some(fd)
                &&& close == records[inode].unlinked
            }
            &&& !after.contains_key(inode) ==> close == Some(fd)
        }),
{
    lemma_only_alias(records[inode].aliases, entry);
    law_removed_entry_is_no_alias(records, host, entry, key, Some(fd), inode);
    lemma_remove_alias_frame(records, inode, entry);
}

/// While a file has another entry nothing is kept for it: the descriptor is closed.
pub proof fn law_other_entries_need_no_descriptor(
    records: Map<u64, Record>,
    host: Host,
    entry: Entry,
    key: InodeAltKey,
    fd: Option<i32>,
    inode: u64,
    other: Entry,
)
    requires
        records_wf(records),
        host.tracks_aliases(),
        find_key(records, key) == Some(inode),
        other != entry,
        records[inode].aliases.contains(other),
    ensures
        ({
            let (after, close) = removal_settled(records, host, entry, key, fd);
            &&& close == fd
            &&& after.contains_key(inode) ==> {
                &&& after[inode].aliases.contains(other)
                &&& after[inode].unlinked == records[inode].unlinked
            }
        }),
{
    lemma_remove_value(records[inode].aliases, entry);
    lemma_remove_alias_frame(records, inode, entry);
    assert(records[inode].aliases.remove_value(entry).contains(other));
}

/// Where aliases are not tracked a removal changes nothing but the descriptor that the file's
/// inode holds.
pub proof fn law_untracked_removal_keeps_data(
    records: Map<u64, Record>,
    host: Host,
    entry: Entry,
    key: InodeAltKey,
    fd: i32,
)
    requires
        records_wf(records),
        !host.tracks_aliases(),
    ensures
        removal_settled(records, host, entry, key, Some(fd)) == match find_key(records, key) {
            Some(inode) => (retain(records, inode, Some(fd)), records[inode].unlinked),
            None => (records, Some(fd)),
        },
{
}

/// Whether `inode` took `fd` over and left the one that it held to be closed, every other
/// record having the descriptor that it had.
pub open spec fn taken_over(
    before: Map<u64, Record>,
    after: Map<u64, Record>,
    fd: Option<i32>,
    close: Option<i32>,
    inode: u64,
) -> bool {
    &&& fd is Some
    &&& after.contains_key(inode)
    &&& after[inode].unlinked == fd
    &&& close == before[inode].unlinked
    &&& forall|i: u64| #[trigger]
        after.contains_key(i) && i != inode ==> after[i].unlinked == before[i].unlinked
}

/// Where every descriptor goes when the table follows an operation. Either one inode keeps the
/// operation's own, and the one that it held is left to be closed; or the operation's own is
/// left to be closed, and no record's changes. What dropped records held goes out with them.
pub open spec fn descriptors_kept(
    before: Map<u64, Record>,
    after: Map<u64, Record>,
    fd: Option<i32>,
    close: Option<i32>,
) -> bool {
    &&& after.dom().subset_of(before.dom())
    &&& {
        ||| exists|inode: u64| #[trigger] taken_over(before, after, fd, close, inode)
        ||| close == fd && forall|i: u64| #[trigger]
            after.contains_key(i) ==> after[i].unlinked == before[i].unlinked
    }
}

/// No descriptor is lost when the table follows a removal, and none is left to be closed but
/// the removal's own or the one that it displaced.
pub proof fn law_removal_loses_no_descriptor(
    records: Map<u64, Record>,
    host: Host,
    entry: Entry,
    key: InodeAltKey,
    fd: Option<i32>,
)
    requires
        records_wf(records),
    ensures
        ({
            let (after, close) = removal_settled(records, host, entry, key, fd);
            descriptors_kept(records, after, fd, close)
        }),
{
    if let Some(inode) = find_key(records, key) {
        lemma_remove_alias_frame(records, inode, entry);
        if host.tracks_aliases() {
            lemma_release_descriptors(records, records, inode, entry, fd);
        } else if fd is Some {
            let (after, close) = removal_settled(records, host, entry, key, fd);
            assert(taken_over(records, after, fd, close, inode));
            assert(after.dom() =~= records.dom());
        }
    }
}

/// Releasing an entry of records that have the descriptors of `before`, or fewer.
proof fn lemma_release_descriptors(
    before: Map<u64, Record>,
    records: Map<u64, Record>,
    inode: u64,
    entry: Entry,
    fd: Option<i32>,
)
    requires
        forall|i: u64| #[trigger]
            records.contains_key(i) ==> before.contains_key(i) && records[i].unlinked
                == before[i].unlinked,
    ensures
        ({
            let (after, close) = released_entry(records, inode, entry, fd);
            descriptors_kept(before, after, fd, close)
        }),
{
    let left = remove_alias(records, inode, entry);
    lemma_remove_alias_frame(records, inode, entry);
    let (after, close) = released_entry(records, inode, entry, fd);
    assert(after.dom() =~= left.dom());
    if fd is Some && detaches(records, inode, entry) && left.contains_key(inode) {
        assert(taken_over(before, after, fd, close, inode));
    }
}

/// A sequence whose only value is `entry` has none left without it.
proof fn lemma_only_alias(s: Seq<Entry>, entry: Entry)
    requires
        s.no_duplicates(),
        forall|e: Entry| #[trigger] s.contains(e) ==> e == entry,
    ensures
        s.remove_value(entry).len() == 0,
{
    lemma_remove_value(s, entry);
    let rest = s.remove_value(entry);
    if rest.len() > 0 {
        assert(rest.contains(rest[0]));
        assert(s.contains(rest[0]));
    }
}

/// A move leaves valid records, gives the moved one the new entry for the old one, and changes
/// no other record that stays.
proof fn lemma_move_alias(
    records: Map<u64, Record>,
    host: Host,
    inode: u64,
    from: Entry,
    to: Entry,
)
    requires
        records_wf(records),
        records.contains_key(inode),
    ensures
        ({
            let moved = move_alias(records, host, inode, from, to);
            &&& records_wf(moved)
            &&& moved.dom().subset_of(records.dom())
            &&& moved.contains_key(inode) && from != to ==> moved[inode].aliases.to_set()
                == records[inode].aliases.to_set().remove(from).insert(to)
            &&& moved.contains_key(inode) ==> {
                &&& moved[inode].key == records[inode].key
                &&& moved[inode].lookups == records[inode].lookups
                &&& moved[inode].unlinked == records[inode].unlinked
            }
            &&& forall|i: u64| #[trigger]
                moved.contains_key(i) ==> records.contains_key(i) && (i != inode ==> moved[i]
                    == records[i])
        }),
{
    let moved = move_alias(records, host, inode, from, to);
    let s = records[inode].aliases;
    lemma_remove_value(s, from);
    if host.anchored() {
        let both = add_alias(records, inode, to);
        lemma_add_alias_wf(records, inode, to);
        lemma_remove_alias_wf(both, inode, from);
        lemma_remove_alias_frame(both, inode, from);
        lemma_remove_value(both[inode].aliases, from);
        assert forall|e: Entry|
            both[inode].aliases.contains(e) <==> s.contains(e) || e == to by {
            lemma_push_contains(s, to, e);
        }
        if moved.contains_key(inode) && from != to {
            assert(moved[inode].aliases.to_set() =~= s.to_set().remove(from).insert(to));
        }
    } else {
        let neither = remove_alias(records, inode, from);
        lemma_remove_alias_wf(records, inode, from);
        lemma_remove_alias_frame(records, inode, from);
        lemma_add_alias_wf(neither, inode, to);
        assert forall|e: Entry|
            #![trigger moved[inode].aliases.contains(e)]
            neither.contains_key(inode) implies (moved[inode].aliases.contains(e)
            <==> neither[inode].aliases.contains(e) || e == to) by {
            lemma_push_contains(neither[inode].aliases, to, e);
        }
        if moved.contains_key(inode) && from != to {
            assert(moved[inode].aliases.to_set() =~= s.to_set().remove(from).insert(to));
        }
    }
}

/// What a sequence holds once `last` stands at its end.
proof fn lemma_push_contains(s: Seq<Entry>, last: Entry, e: Entry)
    ensures
        s.push(last).contains(e) <==> s.contains(e) || e == last,
{
    if s.contains(e) {
        let k = choose|k: int| 0 <= k < s.len() && s[k] == e;
        assert(s.push(last)[k] == e);
    }
    assert(s.push(last)[s.len() as int] == last);
    if s.push(last).contains(e) && e != last {
        let k = choose|k: int| 0 <= k < s.push(last).len() && s.push(last)[k] == e;
        assert(s[k] == e);
    }
}

/// The inode of the target, once the source has moved: another than the source's, unless the
/// rename was of a file onto itself.
pub open spec fn target_inode(
    records: Map<u64, Record>,
    host: Host,
    from: Entry,
    to: Entry,
    source: InodeAltKey,
    target: Option<Target>,
) -> Option<u64> {
    let moved = match find_key(records, source) {
        Some(inode) => move_alias(records, host, inode, from, to),
        None => records,
    };
    match target {
        Some(target) => find_key(moved, target.key),
        None => None,
    }
}

/// After a rename the source is known by the new entry and not by the old one, by its other
/// aliases as before, and is otherwise as it was. This leaves out the case that both entries
/// name one file and nothing moves.
pub proof fn law_rename_moves_source(
    records: Map<u64, Record>,
    host: Host,
    exchange: bool,
    from: Entry,
    to: Entry,
    source: InodeAltKey,
    target: Option<Target>,
    inode: u64,
)
    requires
        records_wf(records),
        find_key(records, source) == Some(inode),
        from != to,
        !moves_nothing(host, exchange, source, target),
    ensures
        ({
            let after = rename_settled(records, host, exchange, from, to, source, target).0;
            &&& in_use(records, rename_touches(records, source, target), inode)
                ==> after.contains_key(inode)
            &&& after.contains_key(inode) ==> {
                &&& after[inode].aliases.to_set() == records[inode].aliases.to_set().remove(
                    from,
                ).insert(to)
                &&& after[inode].key == source
                &&& after[inode].lookups == records[inode].lookups
                &&& after[inode].unlinked == records[inode].unlinked
            }
        }),
{
    lemma_move_alias(records, host, inode, from, to);
    let moved = move_alias(records, host, inode, from, to);
    lemma_same_holder(records, moved, source, inode);
    lemma_rename_keeps_in_use(records, host, exchange, from, to, source, target, inode);
    if let Some(t) = target {
        if let Some(other) = find_key(moved, t.key) {
            if other != inode {
                if exchange {
                    lemma_move_alias(moved, host, other, to, from);
                } else {
                    lemma_remove_alias_frame(moved, other, to);
                }
            }
        }
    }
}

/// A file has the same inode in what is left of the records, or none.
proof fn lemma_same_holder(
    records: Map<u64, Record>,
    left: Map<u64, Record>,
    key: InodeAltKey,
    inode: u64,
)
    requires
        records_wf(records),
        find_key(records, key) == Some(inode),
        forall|i: u64| #[trigger]
            left.contains_key(i) ==> records.contains_key(i) && left[i].key == records[i].key,
    ensures
        find_key(left, key) == if left.contains_key(inode) {
            Some(inode)
        } else {
            None
        },
{
    if let Some(i) = find_key(left, key) {
        assert(left.contains_key(i) && records[i].key == records[inode].key);
    }
    if left.contains_key(inode) {
        assert(left[inode].key == key);
    }
}

/// A rename changes no record that stays but those of the two files. What lies in a renamed
/// directory is known by the same entries as before, and so moves with it.
pub proof fn law_rename_leaves_others(
    records: Map<u64, Record>,
    host: Host,
    exchange: bool,
    from: Entry,
    to: Entry,
    source: InodeAltKey,
    target: Option<Target>,
    other: u64,
)
    requires
        records_wf(records),
        records.contains_key(other),
        find_key(records, source) != Some(other),
        target_inode(records, host, from, to, source, target) != Some(other),
    ensures
        ({
            let after = rename_settled(records, host, exchange, from, to, source, target).0;
            &&& in_use(records, rename_touches(records, source, target), other)
                ==> after.contains_key(other)
            &&& after.contains_key(other) ==> after[other] == records[other]
        }),
{
    lemma_rename_keeps_in_use(records, host, exchange, from, to, source, target, other);
    let holder = find_key(records, source);
    let moved = match holder {
        Some(inode) => move_alias(records, host, inode, from, to),
        None => records,
    };
    if let Some(inode) = holder {
        lemma_move_alias(records, host, inode, from, to);
    }
    if let Some(t) = target {
        if let Some(second) = find_key(moved, t.key) {
            lemma_move_alias(moved, host, second, to, from);
            lemma_remove_alias_frame(moved, second, to);
        }
    }
}

/// A replaced file without another entry keeps the descriptor opened before, if its record
/// stays, as it does if the file is in use: the data stays readable.
pub proof fn law_replaced_target_keeps_data(
    records: Map<u64, Record>,
    host: Host,
    from: Entry,
    to: Entry,
    source: InodeAltKey,
    key: InodeAltKey,
    fd: i32,
    inode: u64,
)
    requires
        records_wf(records),
        find_key(records, key) == Some(inode),
        source != key,
        forall|e: Entry| #[trigger] records[inode].aliases.contains(e) ==> e == to,
    ensures
        ({
            let target = Some(Target { key, fd: Some(fd) });
            let (after, close) = rename_settled(records, host, false, from, to, source, target);
            &&& in_use(records, rename_touches(records, source, target), inode)
                ==> after.contains_key(inode)
            &&& after.contains_key(inode) ==> {
                &&& after[inode].aliases.len() == 0
                &&& after[inode].unlinked == Some(fd)
                &&& close == records[inode].unlinked
            }
            &&& !after.contains_key(inode) ==> close == Some(fd)
        }),
{
    lemma_source_moved(records, host, from, to, source, key, inode);
    let target = Some(Target { key, fd: Some(fd) });
    lemma_rename_keeps_in_use(records, host, false, from, to, source, target, inode);
    lemma_only_alias(records[inode].aliases, to);
}

/// A replaced file that has another entry keeps its other aliases and what it held: the
/// descriptor opened before is closed.
pub proof fn law_replaced_target_keeps_other_entries(
    records: Map<u64, Record>,
    host: Host,
    from: Entry,
    to: Entry,
    source: InodeAltKey,
    key: InodeAltKey,
    fd: Option<i32>,
    inode: u64,
    other: Entry,
)
    requires
        records_wf(records),
        find_key(records, key) == Some(inode),
        source != key,
        other != to,
        records[inode].aliases.contains(other),
    ensures
        ({
            let target = Some(Target { key, fd });
            let (after, close) = rename_settled(records, host, false, from, to, source, target);
            &&& close == fd
            &&& in_use(records, rename_touches(records, source, target), inode)
                ==> after.contains_key(inode)
            &&& after.contains_key(inode) ==> {
                &&& after[inode].aliases == records[inode].aliases.remove_value(to)
                &&& after[inode].aliases.contains(other)
                &&& after[inode].key == key
                &&& after[inode].lookups == records[inode].lookups
                &&& after[inode].unlinked == records[inode].unlinked
            }
        }),
{
    lemma_source_moved(records, host, from, to, source, key, inode);
    let target = Some(Target { key, fd });
    lemma_rename_keeps_in_use(records, host, false, from, to, source, target, inode);
    lemma_remove_value(records[inode].aliases, to);
    assert(records[inode].aliases.remove_value(to).contains(other));
}

/// What the move of the source leaves of another file, and what the release of its entry
/// leaves of it then.
proof fn lemma_source_moved(
    records: Map<u64, Record>,
    host: Host,
    from: Entry,
    to: Entry,
    source: InodeAltKey,
    key: InodeAltKey,
    inode: u64,
)
    requires
        records_wf(records),
        find_key(records, key) == Some(inode),
        source != key,
    ensures
        ({
            let moved = match find_key(records, source) {
                Some(holder) => move_alias(records, host, holder, from, to),
                None => records,
            };
            let left = remove_alias(moved, inode, to);
            &&& find_key(records, source) != Some(inode)
            &&& find_key(moved, key) == if moved.contains_key(inode) {
                Some(inode)
            } else {
                None
            }
            &&& moved.contains_key(inode) ==> moved[inode] == records[inode]
            &&& left.contains_key(inode) ==> moved.contains_key(inode) && left[inode] == (Record {
                aliases: records[inode].aliases.remove_value(to),
                ..records[inode]
            })
        }),
{
    let moved = match find_key(records, source) {
        Some(holder) => move_alias(records, host, holder, from, to),
        None => records,
    };
    if let Some(holder) = find_key(records, source) {
        lemma_move_alias(records, host, holder, from, to);
    }
    lemma_same_holder(records, moved, key, inode);
    lemma_remove_alias_frame(moved, inode, to);
}

/// Where both entries name one file an exchange leaves every alias as it was, and so does a
/// rename in anchor mode.
pub proof fn law_same_file_keeps_aliases(
    records: Map<u64, Record>,
    host: Host,
    exchange: bool,
    from: Entry,
    to: Entry,
    key: InodeAltKey,
    fd: Option<i32>,
)
    requires
        exchange || host.anchored(),
    ensures
        rename_settled(records, host, exchange, from, to, key, Some(Target { key, fd })) == (
            records,
            fd,
        ),
{
}

/// In anchor mode a move never costs the moved file the directory that it moves into, even if
/// the guest has forgotten that directory.
pub proof fn law_rename_keeps_new_parent(
    records: Map<u64, Record>,
    host: Host,
    exchange: bool,
    from: Entry,
    to: Entry,
    source: InodeAltKey,
    target: Option<Target>,
    inode: u64,
)
    requires
        records_wf(records),
        host.anchored(),
        find_key(records, source) == Some(inode),
        records.contains_key(to.parent),
        from != to,
        !moves_nothing(host, exchange, source, target),
    ensures
        ({
            let after = rename_settled(records, host, exchange, from, to, source, target).0;
            &&& in_use(records, rename_touches(records, source, target), inode)
                ==> after.contains_key(inode)
            &&& after.contains_key(inode) ==> after.contains_key(to.parent)
        }),
{
    lemma_rename_keeps_in_use(records, host, exchange, from, to, source, target, inode);
    let after = rename_settled(records, host, exchange, from, to, source, target).0;
    let moved = move_alias(records, host, inode, from, to);
    lemma_move_alias(records, host, inode, from, to);
    if moved.contains_key(inode) {
        lemma_find_key(moved, inode);
        lemma_anchored_move_keeps_parent(records, host, inode, from, to);
        assert(moved[inode].aliases.to_set().contains(to));
        if let Some(t) = target {
            if let Some(other) = find_key(moved, t.key) {
                if other != inode {
                    let stripped = if exchange {
                        strip_alias(add_alias(moved, other, from), other, to)
                    } else {
                        strip_alias(moved, other, to)
                    };
                    if after.contains_key(inode) {
                        lemma_move_alias(moved, host, other, to, from);
                        lemma_remove_alias_frame(moved, other, to);
                        lemma_alias_anchors(stripped[inode], to);
                        lemma_prune_keeps_parent(stripped, inode, to.parent);
                    }
                }
            }
        }
    } else {
        if let Some(t) = target {
            if let Some(other) = find_key(moved, t.key) {
                lemma_move_alias(moved, host, other, to, from);
                lemma_remove_alias_frame(moved, other, to);
            }
        }
    }
}

/// The same of the target of an exchange, unless the directory that it moves into was dropped
/// when the source left it.
pub proof fn law_exchange_keeps_old_parent(
    records: Map<u64, Record>,
    host: Host,
    from: Entry,
    to: Entry,
    source: InodeAltKey,
    target: Target,
    inode: u64,
    other: u64,
)
    requires
        records_wf(records),
        host.anchored(),
        source != target.key,
        from != to,
        find_key(records, source) == Some(inode),
        find_key(records, target.key) == Some(other),
        move_alias(records, host, inode, from, to).contains_key(from.parent),
    ensures
        ({
            let after = rename_settled(records, host, true, from, to, source, Some(target)).0;
            after.contains_key(other) ==> after.contains_key(from.parent)
        }),
{
    let moved = move_alias(records, host, inode, from, to);
    lemma_move_alias(records, host, inode, from, to);
    if moved.contains_key(other) {
        lemma_find_key(moved, other);
        lemma_move_alias(moved, host, other, to, from);
        if move_alias(moved, host, other, to, from).contains_key(other) {
            lemma_anchored_move_keeps_parent(moved, host, other, to, from);
        }
    } else if let Some(third) = find_key(moved, target.key) {
        assert(moved[third].key == target.key);
        assert(records[third].key == records[other].key);
    }
}

/// A record with the alias `entry` is anchored in its directory.
proof fn lemma_alias_anchors(record: Record, entry: Entry)
    requires
        record.aliases.contains(entry),
    ensures
        anchored_in(record, entry.parent),
{
    let k = choose|k: int| 0 <= k < record.aliases.len() && record.aliases[k] == entry;
    assert(record.aliases[k].parent == entry.parent);
}

proof fn lemma_anchored_move_keeps_parent(
    records: Map<u64, Record>,
    host: Host,
    inode: u64,
    from: Entry,
    to: Entry,
)
    requires
        records_wf(records),
        host.anchored(),
        records.contains_key(inode),
        records.contains_key(to.parent),
        from != to,
        move_alias(records, host, inode, from, to).contains_key(inode),
    ensures
        move_alias(records, host, inode, from, to).contains_key(to.parent),
{
    let moved = move_alias(records, host, inode, from, to);
    let both = add_alias(records, inode, to);
    let stripped = strip_alias(both, inode, from);
    lemma_move_alias(records, host, inode, from, to);
    assert(moved[inode].aliases.to_set().contains(to));
    lemma_alias_anchors(stripped[inode], to);
    lemma_prune_keeps_parent(stripped, inode, to.parent);
}

/// In anchor mode a rename within one directory drops no record.
pub proof fn law_rename_in_place_drops_nothing(
    records: Map<u64, Record>,
    host: Host,
    exchange: bool,
    from: Entry,
    to: Entry,
    source: InodeAltKey,
    target: Option<Target>,
)
    requires
        records_wf(records),
        host.anchored(),
        find_key(records, source) is Some,
        from.parent == to.parent,
        from != to,
    ensures
        rename_settled(records, host, exchange, from, to, source, target).0.dom()
            == records.dom(),
{
    let inode = find_key(records, source)->0;
    let moved = move_alias(records, host, inode, from, to);
    let after = rename_settled(records, host, exchange, from, to, source, target).0;
    lemma_move_alias(records, host, inode, from, to);
    lemma_move_in_place(records, host, inode, from, to);
    if !moves_nothing(host, exchange, source, target) {
        if let Some(t) = target {
            if let Some(other) = find_key(moved, t.key) {
                if exchange {
                    lemma_move_in_place(moved, host, other, to, from);
                } else if other != inode {
                    let left = strip_alias(moved, other, to);
                    assert(moved.contains_key(inode));
                    assert(moved[inode].aliases.to_set().contains(to));
                    lemma_alias_anchors(left[inode], to);
                    lemma_strip_keeps(moved, other, to, inode);
                    assert(after.dom() =~= records.dom());
                }
            }
        }
    }
}

proof fn lemma_move_in_place(
    records: Map<u64, Record>,
    host: Host,
    inode: u64,
    from: Entry,
    to: Entry,
)
    requires
        records_wf(records),
        host.anchored(),
        records.contains_key(inode),
        from.parent == to.parent,
        from != to,
    ensures
        move_alias(records, host, inode, from, to).dom() == records.dom(),
{
    let both = add_alias(records, inode, to);
    let stripped = strip_alias(both, inode, from);
    lemma_add_alias_wf(records, inode, to);
    assert(both.contains_key(inode)) by {
        assert(both.dom().contains(inode));
    }
    lemma_push_contains(records[inode].aliases, to, to);
    lemma_remove_value(both[inode].aliases, from);
    lemma_alias_anchors(stripped[inode], to);
    lemma_strip_keeps(both, inode, from, inode);
}

/// Nothing is dropped for the loss of an alias if the directory stays anyway, or if another
/// record, or the same one through another alias, lies in it.
proof fn lemma_strip_keeps(records: Map<u64, Record>, inode: u64, entry: Entry, other: u64)
    requires
        records_wf(records),
        records.contains_key(inode),
        records.contains_key(other),
        held(records, entry.parent) || anchored_in(
            strip_alias(records, inode, entry)[other],
            entry.parent,
        ),
    ensures
        prune(strip_alias(records, inode, entry)).dom() == records.dom(),
{
    let stripped = strip_alias(records, inode, entry);
    let live = records.dom();
    lemma_remove_value(records[inode].aliases, entry);
    assert forall|i: u64| #[trigger] live.contains(i) implies stripped.contains_key(i) && needed(
        stripped,
        live,
        i,
    ) by {
        assert(needed(records, live, i));
        if i != ROOT_INODE && records[i].lookups == 0 {
            let child = choose|child: u64| #[trigger]
                live.contains(child) && anchored_in(records[child], i);
            let k = choose|k: int|
                0 <= k < records[child].aliases.len() && (
                #[trigger] records[child].aliases[k]).parent == i;
            let alias = records[child].aliases[k];
            assert(records[child].aliases.contains(alias));
            if child == inode && alias == entry {
                assert(live.contains(other) && anchored_in(stripped[other], i));
            } else {
                assert(stripped[child].aliases.contains(alias));
                lemma_alias_anchors(stripped[child], alias);
            }
        }
    }
    lemma_prune_keeps(stripped, live);
    lemma_prune_sustains(stripped);
    assert(prune(stripped).dom() =~= live);
}

/// Whether the directory `dir` stays whatever is found through it: it is the root, the guest
/// refers to it, or the table does not know it.
pub open spec fn held(records: Map<u64, Record>, dir: u64) -> bool {
    dir == ROOT_INODE || !records.contains_key(dir) || records[dir].lookups > 0
}

/// A move out of a directory that stays drops nothing.
proof fn lemma_move_from_held(
    records: Map<u64, Record>,
    host: Host,
    inode: u64,
    from: Entry,
    to: Entry,
)
    requires
        records_wf(records),
        records.contains_key(inode),
        held(records, from.parent),
    ensures
        move_alias(records, host, inode, from, to).dom() == records.dom(),
{
    if host.anchored() {
        let both = add_alias(records, inode, to);
        lemma_add_alias_wf(records, inode, to);
        assert(both.dom().contains(inode) && (both.dom().contains(from.parent) ==> records.dom(
        ).contains(from.parent)));
        lemma_strip_keeps(both, inode, from, inode);
    } else {
        lemma_strip_keeps(records, inode, from, inode);
        let neither = remove_alias(records, inode, from);
        assert(move_alias(records, host, inode, from, to).dom() =~= neither.dom()) by {
            assert(neither.dom().contains(inode));
        }
    }
}

/// After an exchange each of the two files is known by the other's entry in place of its own,
/// and is otherwise as it was. A file that is in use stays in the table, and no
/// record goes where both directories stay.
pub proof fn law_exchange_swaps(
    records: Map<u64, Record>,
    host: Host,
    from: Entry,
    to: Entry,
    source: InodeAltKey,
    target: Target,
    inode: u64,
    other: u64,
)
    requires
        records_wf(records),
        from != to,
        source != target.key,
        find_key(records, source) == Some(inode),
        find_key(records, target.key) == Some(other),
    ensures
        ({
            let after = rename_settled(records, host, true, from, to, source, Some(target)).0;
            &&& records_wf(after)
            &&& in_use(records, rename_touches(records, source, Some(target)), inode)
                ==> after.contains_key(inode)
            &&& in_use(records, rename_touches(records, source, Some(target)), other)
                ==> after.contains_key(other)
            &&& held(records, from.parent) && held(records, to.parent) ==> after.dom()
                == records.dom()
            &&& after.contains_key(inode) ==> {
                &&& after[inode].aliases.to_set() == records[inode].aliases.to_set().remove(
                    from,
                ).insert(to)
                &&& after[inode].key == source
                &&& after[inode].lookups == records[inode].lookups
                &&& after[inode].unlinked == records[inode].unlinked
            }
            &&& after.contains_key(other) ==> {
                &&& after[other].aliases.to_set() == records[other].aliases.to_set().remove(
                    to,
                ).insert(from)
                &&& after[other].key == target.key
                &&& after[other].lookups == records[other].lookups
                &&& after[other].unlinked == records[other].unlinked
            }
        }),
{
    law_rename_moves_source(records, host, true, from, to, source, Some(target), inode);
    let moved = move_alias(records, host, inode, from, to);
    lemma_move_alias(records, host, inode, from, to);
    lemma_same_holder(records, moved, target.key, other);
    lemma_rename_keeps_in_use(records, host, true, from, to, source, Some(target), other);
    if moved.contains_key(other) {
        lemma_move_alias(moved, host, other, to, from);
    }
    if held(records, from.parent) && held(records, to.parent) {
        lemma_move_from_held(records, host, inode, from, to);
        assert(moved.dom().contains(other));
        assert(held(moved, to.parent)) by {
            assert(moved.contains_key(to.parent) ==> moved[to.parent].lookups
                == records[to.parent].lookups);
        }
        lemma_move_from_held(moved, host, other, to, from);
    }
}

/// An exchange undoes an exchange: each of the two files that is still in the table has the
/// aliases that it began with. One that was in use is, and every record is where both
/// directories stay.
pub proof fn law_exchange_undoes_exchange(
    records: Map<u64, Record>,
    host: Host,
    from: Entry,
    to: Entry,
    source: Target,
    target: Target,
    inode: u64,
    other: u64,
)
    requires
        records_wf(records),
        from != to,
        source.key != target.key,
        find_key(records, source.key) == Some(inode),
        find_key(records, target.key) == Some(other),
        records[inode].aliases.contains(from) && !records[inode].aliases.contains(to),
        records[other].aliases.contains(to) && !records[other].aliases.contains(from),
    ensures
        ({
            let once = rename_settled(
                records,
                host,
                true,
                from,
                to,
                source.key,
                Some(target),
            ).0;
            let twice = rename_settled(once, host, true, from, to, target.key, Some(source)).0;
            &&& in_use(records, rename_touches(records, source.key, Some(target)), inode)
                ==> twice.contains_key(inode)
            &&& in_use(records, rename_touches(records, source.key, Some(target)), other)
                ==> twice.contains_key(other)
            &&& held(records, from.parent) && held(records, to.parent) ==> twice.dom()
                == records.dom()
            &&& twice.contains_key(inode) ==> twice[inode].aliases.to_set()
                == records[inode].aliases.to_set()
            &&& twice.contains_key(other) ==> twice[other].aliases.to_set()
                == records[other].aliases.to_set()
        }),
{
    law_exchange_swaps(records, host, from, to, source.key, target, inode, other);
    let once = rename_settled(records, host, true, from, to, source.key, Some(target)).0;
    let twice = rename_settled(once, host, true, from, to, target.key, Some(source)).0;
    lemma_exchange_frame(records, host, from, to, source.key, target, inode, other);
    lemma_same_holder(records, once, source.key, inode);
    lemma_same_holder(records, once, target.key, other);
    let touched = rename_touches(records, source.key, Some(target));
    let again = rename_touches(once, target.key, Some(source));
    assert(again.subset_of(touched));
    assert forall|i: u64| (i == inode || i == other) && #[trigger] in_use(
        records,
        touched,
        i,
    ) implies twice.contains_key(i) by {
        law_in_use_is_kept(records, touched, i);
        law_rename_keeps_the_rest(records, host, true, from, to, source.key, Some(target), i);
        lemma_kept_without_fewer(once, touched, again, i);
        law_rename_keeps_the_rest(once, host, true, from, to, target.key, Some(source), i);
    }
    if once.contains_key(inode) && once.contains_key(other) {
        law_exchange_swaps(once, host, from, to, target.key, source, other, inode);
    } else if once.contains_key(other) {
        law_rename_moves_source(once, host, true, from, to, target.key, Some(source), other);
        lemma_move_alias(once, host, other, from, to);
        let moved = move_alias(once, host, other, from, to);
        if let Some(i) = find_key(moved, source.key) {
            assert(once.contains_key(i) && once[i].key == source.key);
        }
    } else if once.contains_key(inode) {
        lemma_move_alias(once, host, inode, to, from);
    }
    if held(records, from.parent) && held(records, to.parent) {
        assert(once.dom().contains(inode) && once.dom().contains(other));
        assert(once.dom().contains(from.parent) == records.dom().contains(from.parent));
        assert(once.dom().contains(to.parent) == records.dom().contains(to.parent));
        assert(once.contains_key(from.parent) ==> once[from.parent].lookups
            == records[from.parent].lookups);
        assert(once.contains_key(to.parent) ==> once[to.parent].lookups
            == records[to.parent].lookups);
    }
    if twice.contains_key(inode) {
        assert(twice[inode].aliases.to_set() =~= records[inode].aliases.to_set());
    }
    if twice.contains_key(other) {
        assert(twice[other].aliases.to_set() =~= records[other].aliases.to_set());
    }
}

/// An exchange adds no record and changes neither the file nor the references of any.
proof fn lemma_exchange_frame(
    records: Map<u64, Record>,
    host: Host,
    from: Entry,
    to: Entry,
    source: InodeAltKey,
    target: Target,
    inode: u64,
    other: u64,
)
    requires
        records_wf(records),
        source != target.key,
        find_key(records, source) == Some(inode),
        find_key(records, target.key) == Some(other),
    ensures
        ({
            let after = rename_settled(records, host, true, from, to, source, Some(target)).0;
            forall|i: u64| #[trigger]
                after.contains_key(i) ==> {
                    &&& records.contains_key(i)
                    &&& after[i].key == records[i].key
                    &&& after[i].lookups == records[i].lookups
                }
        }),
{
    let moved = move_alias(records, host, inode, from, to);
    lemma_move_alias(records, host, inode, from, to);
    lemma_same_holder(records, moved, target.key, other);
    if moved.contains_key(other) {
        lemma_move_alias(moved, host, other, to, from);
    }
}

/// No descriptor is lost when the table follows a rename, and none is left to be closed but
/// the rename's own or the one that it displaced.
pub proof fn law_rename_loses_no_descriptor(
    records: Map<u64, Record>,
    host: Host,
    exchange: bool,
    from: Entry,
    to: Entry,
    source: InodeAltKey,
    target: Option<Target>,
)
    requires
        records_wf(records),
    ensures
        ({
            let (after, close) = rename_settled(
                records,
                host,
                exchange,
                from,
                to,
                source,
                target,
            );
            descriptors_kept(records, after, target_fd(target), close)
        }),
{
    let holder = find_key(records, source);
    let moved = match holder {
        Some(inode) => move_alias(records, host, inode, from, to),
        None => records,
    };
    if let Some(inode) = holder {
        lemma_move_alias(records, host, inode, from, to);
    }
    if let Some(t) = target {
        if let Some(other) = find_key(moved, t.key) {
            lemma_move_alias(moved, host, other, to, from);
            lemma_release_descriptors(records, moved, other, to, t.fd);
        }
    }
}

/// A directory that the guest forgets stays while a record is found through it.
pub proof fn law_parent_outlives_forget(
    records: Map<u64, Record>,
    parent: u64,
    count: u64,
    child: u64,
)
    requires
        records_wf(records),
        records.contains_key(parent),
        records.contains_key(child),
        anchored_in(records[child], parent),
    ensures
        ({
            let after = forget(records, parent, count);
            &&& after.contains_key(child) ==> after.contains_key(parent)
            &&& records[child].lookups > 0 && child != parent ==> after.contains_key(child)
        }),
{
    let counted = counted_down(records, parent, count);
    if forget(records, parent, count).contains_key(child) {
        assert(counted[child].aliases == records[child].aliases);
        lemma_prune_keeps_parent(counted, child, parent);
    }
    if records[child].lookups > 0 && child != parent {
        lemma_prune_keeps_referenced(counted, child);
    }
}

/// Forgetting the last file found through a forgotten directory releases both.
pub proof fn law_forget_releases_parent(
    records: Map<u64, Record>,
    child: u64,
    count: u64,
    parent: u64,
)
    requires
        records_wf(records),
        records.contains_key(child),
        records.contains_key(parent),
        child != ROOT_INODE,
        parent != ROOT_INODE,
        count >= records[child].lookups,
        records[parent].lookups == 0,
        forall|i: u64| #[trigger] records.contains_key(i) ==> !anchored_in(records[i], child),
        forall|i: u64| #[trigger]
            records.contains_key(i) && anchored_in(records[i], parent) ==> i == child,
    ensures
        !forget(records, child, count).contains_key(child),
        !forget(records, child, count).contains_key(parent),
{
    let counted = counted_down(records, child, count);
    let kept = prune(counted).dom();
    lemma_prune_sustains(counted);
    if kept.contains(child) {
        let i = choose|i: u64| #[trigger] kept.contains(i) && anchored_in(counted[i], child);
        assert(counted.contains_key(i));
        assert(anchored_in(records[i], child));
    }
    if kept.contains(parent) {
        if parent != child {
            let i = choose|i: u64| #[trigger] kept.contains(i) && anchored_in(counted[i], parent);
            assert(counted.contains_key(i));
            assert(anchored_in(records[i], parent));
        }
    }
}

/// No record has an alias.
pub open spec fn without_aliases(records: Map<u64, Record>) -> bool {
    forall|i: u64| #[trigger] records.contains_key(i) ==> records[i].aliases.len() == 0
}

/// Where aliases are not tracked there are none: lookups, removals and forgetting record
/// none, and renames leave the table alone ([`law_rename_acts_on_its_entries`]).
pub proof fn law_untracked_has_no_aliases(
    records: Map<u64, Record>,
    host: Host,
    fresh: u64,
    entry: Entry,
    key: InodeAltKey,
    fd: Option<i32>,
    inode: u64,
    count: u64,
)
    requires
        without_aliases(records),
        !host.tracks_aliases(),
    ensures
        without_aliases(looked_up(records, fresh, host.tracks_aliases(), entry, key)),
        without_aliases(removal_settled(records, host, entry, key, fd).0),
        without_aliases(forget(records, inode, count)),
{
    lemma_prune_sustains(counted_down(records, inode, count));
}

/// Without aliases an inode goes as soon as the guest gives up its last reference.
pub proof fn law_untracked_forget_is_immediate(
    records: Map<u64, Record>,
    inode: u64,
    count: u64,
)
    requires
        without_aliases(records),
        records.contains_key(inode),
        inode != ROOT_INODE,
        count >= records[inode].lookups,
    ensures
        !forget(records, inode, count).contains_key(inode),
{
    let counted = counted_down(records, inode, count);
    lemma_prune_sustains(counted);
    if prune(counted).dom().contains(inode) {
        let i = choose|i: u64| #[trigger]
            prune(counted).dom().contains(i) && anchored_in(counted[i], inode);
        assert(counted.contains_key(i));
    }
}

/// Where aliases are tracked, what a lookup found is known by the entry that was looked up.
pub proof fn law_lookup_records_alias(
    records: Map<u64, Record>,
    fresh: u64,
    entry: Entry,
    key: InodeAltKey,
)
    requires
        records_wf(records),
        !records.contains_key(fresh),
        find_key(records, key) matches Some(i) ==> records[i].lookups < u64::MAX,
    ensures
        ({
            let after = looked_up(records, fresh, true, entry, key);
            &&& find_key(after, key) is Some
            &&& after.contains_key(find_key(after, key)->0)
            &&& after[find_key(after, key)->0].aliases.contains(entry)
            &&& after[find_key(after, key)->0].lookups > 0
        }),
{
    let after = looked_up(records, fresh, true, entry, key);
    let inode = match find_key(records, key) {
        Some(i) => i,
        None => fresh,
    };
    let aliases = if records.contains_key(inode) {
        records[inode].aliases
    } else {
        Seq::empty()
    };
    lemma_push_contains(aliases, entry, entry);
    assert(after.contains_key(inode) && after[inode].key == key);
    assert forall|i: u64, j: u64|
        #![trigger after[i].key, after[j].key]
        after.contains_key(i) && after.contains_key(j) && after[i].key == after[j].key implies i
        == j by {
        if i != inode && j != inode {
            assert(records[i].key == records[j].key);
        } else if i != inode {
            assert(records.contains_key(i) && records[i].key == key);
        } else if j != inode {
            assert(records.contains_key(j) && records[j].key == key);
        }
    }
    lemma_find_key(after, inode);
}

/// The translated flags ask for no replacement, and for an exchange, exactly if the guest's
/// do, and for nothing else.
pub proof fn law_macos_flags_mean_the_same(flags: u32)
    ensures
        macos_flags(flags) & MACOS_RENAME_EXCL != 0 <==> flags & RENAME_NOREPLACE != 0,
        macos_flags(flags) & MACOS_RENAME_SWAP != 0 <==> flags & RENAME_EXCHANGE != 0,
        macos_flags(flags) & !(MACOS_RENAME_EXCL | MACOS_RENAME_SWAP) == 0,
{
    assert(0u32 & 4 == 0 && 0u32 & 2 == 0 && 4u32 & 4 == 4 && 4u32 & 2 == 0 && 2u32 & 4 == 0
        && 2u32 & 2 == 2 && 6u32 & 4 == 4 && 6u32 & 2 == 2) by (bit_vector);
    assert(0u32 & !(4u32 | 2) == 0 && 4u32 & !(4u32 | 2) == 0 && 2u32 & !(4u32 | 2) == 0 && 6u32
        & !(4u32 | 2) == 0) by (bit_vector);
}

/// The reserved entry is neither removed, nor renamed, nor overwritten.
pub proof fn law_reserved_entry_is_refused(
    fs: PassthroughFs,
    reserved: Entry,
    entry: Entry,
    kind: EntryKind,
    flags: u32,
    check: Result<(), i32>,
    other_check: Result<(), i32>,
    removal: Result<Removal, Errno>,
    renamed_away: Result<Rename, Errno>,
    overwritten: Result<Rename, Errno>,
)
    requires
        fs.reserves(reserved),
        removal_begins(&fs, kind, reserved, check, removal),
        rename_begins(&fs, reserved, entry, flags, check, other_check, renamed_away),
        rename_begins(&fs, entry, reserved, flags, other_check, check, overwritten),
    ensures
        removal is Err,
        renamed_away is Err,
        overwritten is Err,
        check is Ok && other_check is Ok && !fs.readonly ==> {
            &&& removal->Err_0 == Errno::Guest(EACCES)
            &&& renamed_away->Err_0 == Errno::Guest(EACCES)
            &&& overwritten->Err_0 == Errno::Guest(EACCES)
        },
{
}

/// Nothing is removed from or renamed in a share that is read-only.
pub proof fn law_readonly_is_refused(
    fs: PassthroughFs,
    from: Entry,
    to: Entry,
    kind: EntryKind,
    flags: u32,
    check: Result<(), i32>,
    other_check: Result<(), i32>,
    removal: Result<Removal, Errno>,
    rename: Result<Rename, Errno>,
)
    requires
        fs.readonly,
        removal_begins(&fs, kind, from, check, removal),
        rename_begins(&fs, from, to, flags, check, other_check, rename),
    ensures
        removal is Err,
        rename is Err,
        check is Ok ==> removal->Err_0 == Errno::Guest(EROFS),
        check is Ok && other_check is Ok ==> rename->Err_0 == Errno::Guest(EROFS),
{
}

} // verus!
