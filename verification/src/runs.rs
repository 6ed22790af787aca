//! What the host is asked in the course of a request, and how the request ends, reply by
//! reply.
use vstd::prelude::*;

use crate::calls::{Call, OpenFlags, RenameCall, Reply, Step};
use crate::fs::{init_entry, PassthroughFs};
use crate::operation::{due_at, lemma_due_before, opens_entry, possible, reached, Operation};
use crate::removal::{EntryKind, Removal, RemovalStage};
use crate::remove_ops::{do_rename, do_rmdir, do_unlink};
use crate::rename::{translate_flags, Dirs, Rename, RenameStage, Target};
use crate::types::{copy_bytes, same_bytes, Errno, Host, InodeAltKey, NamespaceAlias};

verus! {

/// A call is what its view says: the same call, with the same numbers and the same name.
pub proof fn law_call_is_its_view(call: Call<Vec<u8>>)
    ensures
        match call {
            Call::OpenInode { inode } => call@ == Call::<Seq<u8>>::OpenInode { inode },
            Call::OpenAt { dir, name, flags } => call@ == (Call::OpenAt {
                dir,
                name: name@,
                flags,
            }),
            Call::IdentifyAt { dir, name } => call@ == (Call::IdentifyAt { dir, name: name@ }),
            Call::Identify { fd } => call@ == Call::<Seq<u8>>::Identify { fd },
            Call::UnlinkAt { dir, name, remove_dir } => call@ == (Call::UnlinkAt {
                dir,
                name: name@,
                remove_dir,
            }),
            Call::Rename { old_dir, old_name, new_dir, new_name, call: kind } => call@ == (
            Call::Rename {
                old_dir,
                old_name: old_name@,
                new_dir,
                new_name: new_name@,
                call: kind,
            }),
            Call::Close { fd } => call@ == Call::<Seq<u8>>::Close { fd },
        },
{
}

/// So is a step.
pub proof fn law_step_is_its_view(step: Step<Vec<u8>>)
    ensures
        match step {
            Step::Call(call) => step@ == Step::Call(call@),
            Step::Settle => step@ == Step::<Seq<u8>>::Settle,
            Step::Finished { result, close } => step@ == (Step::<Seq<u8>>::Finished {
                result,
                close,
            }),
        },
{
}

/// An entry is its directory and its name, every byte of it.
pub proof fn law_entry_is_directory_and_name(a: NamespaceAlias, b: NamespaceAlias)
    ensures
        a@.parent == a.parent,
        a@.name == a.name@,
        a@ == b@ <==> a.parent == b.parent && a.name@ == b.name@,
{
}

/// Values are made of what they are given, and compared by all of it.
pub proof fn law_plain_values(
    parent: u64,
    name: &[u8],
    bytes: &[u8],
    made: NamespaceAlias,
    second: NamespaceAlias,
    other: &NamespaceAlias,
    same: bool,
    copy: Vec<u8>,
    equal: bool,
)
    requires
        call_ensures(NamespaceAlias::new, (parent, name), made),
        call_ensures(NamespaceAlias::duplicate, (other,), second),
        call_ensures(NamespaceAlias::same, (&made, other), same),
        call_ensures(copy_bytes, (name,), copy),
        call_ensures(same_bytes, (name, bytes), equal),
    ensures
        made.parent == parent && made.name@ == name@,
        second.parent == other.parent && second.name@ == other.name@,
        same <==> parent == other.parent && name@ == other.name@,
        copy@ == name@,
        equal <==> name@ == bytes@,
{
}

/// An identity is the two numbers that it is made of.
pub proof fn law_identity(ino: u64, dev: u64, key: InodeAltKey)
    requires
        call_ensures(InodeAltKey::new, (ino, dev), key),
    ensures
        key.ino == ino,
        key.dev == dev,
{
}

/// Which hosts track aliases, and which is in anchor mode.
pub proof fn law_hosts()
    ensures
        Host::Linux.tracks_aliases(),
        !Host::Linux.anchored(),
        (Host::MacOs { anchor: true }).tracks_aliases(),
        (Host::MacOs { anchor: true }).anchored(),
        !(Host::MacOs { anchor: false }).tracks_aliases(),
        !(Host::MacOs { anchor: false }).anchored(),
{
}

/// A share is in anchor mode exactly if its host is macOS in that mode.
pub proof fn law_anchor_mode(fs: &PassthroughFs, answer: bool)
    requires
        call_ensures(PassthroughFs::anchor_mode, (fs,), answer),
    ensures
        answer <==> fs.host == (Host::MacOs { anchor: true }),
{
}

/// An entry is reserved exactly if it is the one that the share reserves, in that directory and
/// under that name.
pub proof fn law_reserved_entry(fs: &PassthroughFs, parent: u64, name: &[u8], answer: bool)
    requires
        call_ensures(PassthroughFs::is_reserved_init_name, (fs, parent, name), answer),
    ensures
        answer <==> (fs.reserved matches Some(reserved) && reserved.parent == parent
            && reserved.name@ == name@),
{
}

/// The entry of the init program is `init.krun` in inode 1.
pub proof fn law_init_entry(entry: NamespaceAlias)
    requires
        call_ensures(init_entry, (), entry),
    ensures
        entry.parent == 1,
        entry.name@ == seq![0x69u8, 0x6e, 0x69, 0x74, 0x2e, 0x6b, 0x72, 0x75, 0x6e],
{
}

/// A request to unlink a file is refused for a name that is no good, else for a share that is
/// read-only, else for the reserved entry, and otherwise begins the removal of that file.
pub proof fn law_unlink_request(
    fs: &PassthroughFs,
    parent: u64,
    name: &[u8],
    check: Result<(), i32>,
    begun: Result<Removal, Errno>,
)
    requires
        call_ensures(do_unlink, (fs, parent, name, check), begun),
    ensures
        check matches Err(errno) ==> begun == Err::<Removal, Errno>(Errno::Guest(errno)),
        check is Ok && fs.readonly ==> begun == Err::<Removal, Errno>(Errno::Guest(30)),
        check is Ok && !fs.readonly && (fs.reserved matches Some(entry) && entry.parent == parent
            && entry.name@ == name@) ==> begun == Err::<Removal, Errno>(Errno::Guest(13)),
        check is Ok && !fs.readonly && !(fs.reserved matches Some(entry) && entry.parent == parent
            && entry.name@ == name@) ==> {
            &&& begun matches Ok(removal)
            &&& removal.host == fs.host
            &&& removal.kind is File
            &&& removal.entry.parent == parent
            &&& removal.entry.name@ == name@
            &&& removal.stage is OpenParent
        },
{
}

/// The same of a request to remove a directory.
pub proof fn law_rmdir_request(
    fs: &PassthroughFs,
    parent: u64,
    name: &[u8],
    check: Result<(), i32>,
    begun: Result<Removal, Errno>,
)
    requires
        call_ensures(do_rmdir, (fs, parent, name, check), begun),
    ensures
        check matches Err(errno) ==> begun == Err::<Removal, Errno>(Errno::Guest(errno)),
        check is Ok && fs.readonly ==> begun == Err::<Removal, Errno>(Errno::Guest(30)),
        check is Ok && !fs.readonly && (fs.reserved matches Some(entry) && entry.parent == parent
            && entry.name@ == name@) ==> begun == Err::<Removal, Errno>(Errno::Guest(13)),
        check is Ok && !fs.readonly && !(fs.reserved matches Some(entry) && entry.parent == parent
            && entry.name@ == name@) ==> {
            &&& begun matches Ok(removal)
            &&& removal.host == fs.host
            &&& removal.kind is Directory
            &&& removal.entry.parent == parent
            &&& removal.entry.name@ == name@
            &&& removal.stage is OpenParent
        },
{
}

/// A request to rename is refused for the old name, else for the new one, else for a share that
/// is read-only, else where either entry is the reserved one, and otherwise begins the rename
/// of the one to the other with the flags of the guest.
pub proof fn law_rename_request(
    fs: &PassthroughFs,
    olddir: u64,
    oldname: &[u8],
    newdir: u64,
    newname: &[u8],
    flags: u32,
    old_check: Result<(), i32>,
    new_check: Result<(), i32>,
    begun: Result<Rename, Errno>,
)
    requires
        call_ensures(
            do_rename,
            (fs, olddir, oldname, newdir, newname, flags, old_check, new_check),
            begun,
        ),
    ensures
        old_check matches Err(errno) ==> begun == Err::<Rename, Errno>(Errno::Guest(errno)),
        old_check is Ok ==> (new_check matches Err(errno) ==> begun == Err::<Rename, Errno>(
            Errno::Guest(errno),
        )),
        old_check is Ok && new_check is Ok && fs.readonly ==> begun == Err::<Rename, Errno>(
            Errno::Guest(30),
        ),
        old_check is Ok && new_check is Ok && !fs.readonly ==> {
            let reserved = fs.reserved matches Some(entry) && (entry.parent == olddir
                && entry.name@ == oldname@ || entry.parent == newdir && entry.name@ == newname@);
            &&& reserved ==> begun == Err::<Rename, Errno>(Errno::Guest(13))
            &&& !reserved ==> {
                &&& begun matches Ok(rename)
                &&& rename.host == fs.host
                &&& rename.flags == flags
                &&& rename.from.parent == olddir
                &&& rename.from.name@ == oldname@
                &&& rename.to.parent == newdir
                &&& rename.to.name@ == newname@
                &&& rename.stage is OpenOld
            }
        },
{
}

/// A removal asks for what is due.
pub proof fn law_removal_asks_what_is_due(removal: &Removal, step: Step<Vec<u8>>)
    requires
        call_ensures(Removal::step, (removal,), step),
    ensures
        step@ == removal.due(),
{
}

/// A rename asks for what is due.
pub proof fn law_rename_asks_what_is_due(rename: &Rename, step: Step<Vec<u8>>)
    requires
        call_ensures(Rename::step, (rename,), step),
    ensures
        step@ == rename.due(),
{
}

/// A reply takes a removal where it says, and leaves host, kind and entry alone.
pub proof fn law_removal_goes_on(removal: &mut Removal, reply: Reply)
    requires
        call_ensures(Removal::advance, (removal, reply), ()),
    ensures
        *final(removal) == old(removal).after(reply),
        final(removal).host == old(removal).host,
        final(removal).kind == old(removal).kind,
        final(removal).entry == old(removal).entry,
{
}

/// A reply takes a rename where it says, and leaves host, flags and entries alone.
pub proof fn law_rename_goes_on(rename: &mut Rename, reply: Reply)
    requires
        call_ensures(Rename::advance, (rename, reply), ()),
    ensures
        *final(rename) == old(rename).after(reply),
        final(rename).host == old(rename).host,
        final(rename).flags == old(rename).flags,
        final(rename).from == old(rename).from,
        final(rename).to == old(rename).to,
{
}

/// A reply of another kind than the call that is due changes nothing, and neither does one to
/// an operation that waits for none.
pub proof fn law_removal_ignores_other_replies(removal: Removal, reply: Reply)
    requires
        match removal.due() {
            Step::Call(Call::OpenInode { .. }) => !(reply is Opened),
            Step::Call(Call::OpenAt { .. } | Call::UnlinkAt { .. } | Call::Rename { .. }) => !(reply
                is Sys),
            Step::Call(Call::IdentifyAt { .. } | Call::Identify { .. }) => !(reply is Identity),
            Step::Call(Call::Close { .. }) => !(reply is Closed),
            _ => true,
        },
    ensures
        removal.after(reply) == removal,
{
}

/// The same of a rename.
pub proof fn law_rename_ignores_other_replies(rename: Rename, reply: Reply)
    requires
        match rename.due() {
            Step::Call(Call::OpenInode { .. }) => !(reply is Opened),
            Step::Call(Call::OpenAt { .. } | Call::UnlinkAt { .. } | Call::Rename { .. }) => !(reply
                is Sys),
            Step::Call(Call::IdentifyAt { .. } | Call::Identify { .. }) => !(reply is Identity),
            Step::Call(Call::Close { .. }) => !(reply is Closed),
            _ => true,
        },
    ensures
        rename.after(reply) == rename,
{
}

/// A removal first asks for its directory, and fails with the number that it is answered where
/// it does not get it.
pub proof fn law_removal_opens_its_parent(start: Removal, errno: i32)
    requires
        start.stage is OpenParent,
    ensures
        start.due() == Step::Call(Call::<Seq<u8>>::OpenInode { inode: start.entry.parent }),
        start.after(Reply::Opened(Err(errno))).due() == (Step::<Seq<u8>>::Finished {
            result: Err(Errno::Guest(errno)),
            close: None,
        }),
{
}

/// On Linux the entry is opened, as a directory if one is to go, and without a look at its
/// contents. If that fails it is removed all the same, and the table is not told.
pub proof fn law_linux_removal_unopened(
    start: Removal,
    dir: i32,
    ret: i32,
    errno: i32,
    done: i32,
    why: i32,
)
    requires
        start.stage is OpenParent,
        start.host is Linux,
        ret < 0,
    ensures
        ({
            let name = start.entry.name@;
            let inside = start.after(Reply::Opened(Ok(dir)));
            let unopened = inside.after(Reply::Sys { ret, errno });
            let over = unopened.after(Reply::Sys { ret: done, errno: why });
            let flags = OpenFlags {
                path: true,
                directory: start.kind is Directory,
                nonblock: false,
                nofollow: true,
                cloexec: true,
            };
            &&& inside.due() == Step::Call(Call::OpenAt { dir, name, flags })
            &&& unopened.due() == Step::Call(
                Call::UnlinkAt { dir, name, remove_dir: start.kind is Directory },
            )
            &&& done >= 0 ==> over.due() == (Step::<Seq<u8>>::Finished {
                result: Ok(()),
                close: None,
            })
            &&& done < 0 ==> over.due() == (Step::<Seq<u8>>::Finished {
                result: Err(Errno::Host(why)),
                close: None,
            })
        }),
{
}

/// On Linux an entry that was opened is identified, and an error if it cannot be. Then it is
/// removed, and the table is told the file and given the descriptor. If the host refuses, the
/// descriptor is closed: after the error of an `unlink` is read, before that of an `rmdir` is.
pub proof fn law_linux_removal_opened(
    start: Removal,
    dir: i32,
    fd: i32,
    errno: i32,
    unknown: i32,
    key: InodeAltKey,
    done: i32,
    why: i32,
    broken: i32,
)
    requires
        start.stage is OpenParent,
        start.host is Linux,
        fd >= 0,
    ensures
        ({
            let name = start.entry.name@;
            let inside = start.after(Reply::Opened(Ok(dir)));
            let probed = inside.after(Reply::Sys { ret: fd, errno });
            let known = probed.after(Reply::Identity(Ok(key)));
            let over = known.after(Reply::Sys { ret: done, errno: why });
            &&& probed.due() == Step::Call(Call::<Seq<u8>>::Identify { fd })
            &&& probed.after(Reply::Identity(Err(unknown))).due() == (Step::<Seq<u8>>::Finished {
                result: Err(Errno::Guest(unknown)),
                close: Some(fd),
            })
            &&& known.due() == Step::Call(
                Call::UnlinkAt { dir, name, remove_dir: start.kind is Directory },
            )
            &&& done >= 0 ==> {
                &&& over.due() is Settle
                &&& over == (Removal { stage: RemovalStage::Settle { fd: Some(fd), key }, ..start })
            }
            &&& done < 0 && start.kind is File ==> over.due() == (Step::<Seq<u8>>::Finished {
                result: Err(Errno::Host(why)),
                close: Some(fd),
            })
            &&& done < 0 && start.kind is Directory ==> {
                &&& over.due() == Step::Call(Call::<Seq<u8>>::Close { fd })
                &&& over.after(Reply::Closed(Ok(()))).due() == (Step::<Seq<u8>>::Finished {
                    result: Err(Errno::Host(why)),
                    close: None,
                })
                &&& over.after(Reply::Closed(Err(broken))).due() == (Step::<Seq<u8>>::Finished {
                    result: Err(Errno::Host(broken)),
                    close: None,
                })
            }
        }),
{
}

/// In anchor mode the entry is identified first, whether a file or a directory is to go. A file
/// is then opened for reading, a directory removed. An entry that has no identity, or cannot be
/// opened, is removed all the same.
pub proof fn law_anchored_removal_up_to_change(
    start: Removal,
    dir: i32,
    found: Result<InodeAltKey, i32>,
    ret: i32,
    errno: i32,
)
    requires
        start.stage is OpenParent,
        start.host == (Host::MacOs { anchor: true }),
    ensures
        ({
            let name = start.entry.name@;
            let inside = start.after(Reply::Opened(Ok(dir)));
            let asked = inside.after(Reply::Identity(found));
            let flags = OpenFlags {
                path: false,
                directory: false,
                nonblock: false,
                nofollow: true,
                cloexec: true,
            };
            &&& inside.due() == Step::Call(Call::IdentifyAt { dir, name })
            &&& start.kind is Directory ==> asked.due() == Step::Call(
                Call::UnlinkAt { dir, name, remove_dir: true },
            )
            &&& start.kind is File ==> {
                &&& asked.due() == Step::Call(Call::OpenAt { dir, name, flags })
                &&& asked.after(Reply::Sys { ret, errno }).due() == Step::Call(
                    Call::UnlinkAt { dir, name, remove_dir: false },
                )
            }
        }),
{
}

/// In anchor mode the removal of an entry without a descriptor ends with the host's error, or
/// with the table told the file that the entry was of, or, if that is not known, without the
/// table.
pub proof fn law_anchored_removal_without_descriptor(
    start: Removal,
    dir: i32,
    found: Result<InodeAltKey, i32>,
    ret: i32,
    errno: i32,
    done: i32,
    why: i32,
)
    requires
        start.stage is OpenParent,
        start.host == (Host::MacOs { anchor: true }),
        ret < 0,
    ensures
        ({
            let asked = start.after(Reply::Opened(Ok(dir))).after(Reply::Identity(found));
            let ready = if start.kind is File {
                asked.after(Reply::Sys { ret, errno })
            } else {
                asked
            };
            let over = ready.after(Reply::Sys { ret: done, errno: why });
            &&& done < 0 ==> over.due() == (Step::<Seq<u8>>::Finished {
                result: Err(Errno::Host(why)),
                close: None,
            })
            &&& done >= 0 ==> match found {
                Ok(key) => {
                    &&& over.due() is Settle
                    &&& over == (Removal { stage: RemovalStage::Settle { fd: None, key }, ..start })
                },
                Err(_) => over.due() == (Step::<Seq<u8>>::Finished {
                    result: Ok(()),
                    close: None,
                }),
            }
        }),
{
}

/// In anchor mode a file that was opened is asked for its identity once its entry is gone. If
/// it is the one that the entry had, the table is given the descriptor. If it is another, or
/// either is unknown, the descriptor is closed; and the table is still told the file that the
/// entry was of.
pub proof fn law_anchored_unlink_with_descriptor(
    start: Removal,
    dir: i32,
    found: Result<InodeAltKey, i32>,
    fd: i32,
    errno: i32,
    done: i32,
    why: i32,
    opened: Result<InodeAltKey, i32>,
    closed: Result<(), i32>,
)
    requires
        start.stage is OpenParent,
        start.host == (Host::MacOs { anchor: true }),
        start.kind is File,
        fd >= 0,
    ensures
        ({
            let ready = start.after(Reply::Opened(Ok(dir))).after(Reply::Identity(found)).after(
                Reply::Sys { ret: fd, errno },
            );
            let gone = ready.after(Reply::Sys { ret: done, errno: why });
            let looked = gone.after(Reply::Identity(opened));
            let over = looked.after(Reply::Closed(closed));
            &&& done < 0 ==> gone.due() == (Step::<Seq<u8>>::Finished {
                result: Err(Errno::Host(why)),
                close: Some(fd),
            })
            &&& done >= 0 ==> {
                &&& gone.due() == Step::Call(Call::<Seq<u8>>::Identify { fd })
                &&& found is Ok && opened is Ok && opened->Ok_0 == found->Ok_0 ==> {
                    &&& looked.due() is Settle
                    &&& looked == (Removal {
                        stage: RemovalStage::Settle { fd: Some(fd), key: found->Ok_0 },
                        ..start
                    })
                }
                &&& !(found is Ok && opened is Ok && opened->Ok_0 == found->Ok_0) ==> {
                    &&& looked.due() == Step::Call(Call::<Seq<u8>>::Close { fd })
                    &&& found matches Ok(key) ==> {
                        &&& over.due() is Settle
                        &&& over == (Removal {
                            stage: RemovalStage::Settle { fd: None, key },
                            ..start
                        })
                    }
                    &&& found is Err ==> over.due() == (Step::<Seq<u8>>::Finished {
                        result: Ok(()),
                        close: None,
                    })
                }
            }
        }),
{
}

/// In volfs mode a directory is removed without more ado, and the table is not told.
pub proof fn law_volfs_rmdir(start: Removal, dir: i32, done: i32, why: i32)
    requires
        start.stage is OpenParent,
        start.host == (Host::MacOs { anchor: false }),
        start.kind is Directory,
    ensures
        ({
            let inside = start.after(Reply::Opened(Ok(dir)));
            let over = inside.after(Reply::Sys { ret: done, errno: why });
            &&& inside.due() == Step::Call(
                Call::UnlinkAt { dir, name: start.entry.name@, remove_dir: true },
            )
            &&& done >= 0 ==> over.due() == (Step::<Seq<u8>>::Finished {
                result: Ok(()),
                close: None,
            })
            &&& done < 0 ==> over.due() == (Step::<Seq<u8>>::Finished {
                result: Err(Errno::Host(why)),
                close: None,
            })
        }),
{
}

/// In volfs mode a file is opened for reading and removed whether or not that worked. If it
/// did, the descriptor is asked for its identity once the entry is gone, and the table is told
/// the file and given the descriptor, or it is closed.
pub proof fn law_volfs_unlink(
    start: Removal,
    dir: i32,
    ret: i32,
    errno: i32,
    done: i32,
    why: i32,
    key: InodeAltKey,
    unknown: i32,
)
    requires
        start.stage is OpenParent,
        start.host == (Host::MacOs { anchor: false }),
        start.kind is File,
    ensures
        ({
            let name = start.entry.name@;
            let inside = start.after(Reply::Opened(Ok(dir)));
            let ready = inside.after(Reply::Sys { ret, errno });
            let over = ready.after(Reply::Sys { ret: done, errno: why });
            let flags = OpenFlags {
                path: false,
                directory: false,
                nonblock: false,
                nofollow: true,
                cloexec: true,
            };
            let kept = if ret >= 0 {
                Some(ret)
            } else {
                None
            };
            &&& inside.due() == Step::Call(Call::OpenAt { dir, name, flags })
            &&& ready.due() == Step::Call(Call::UnlinkAt { dir, name, remove_dir: false })
            &&& done < 0 ==> over.due() == (Step::<Seq<u8>>::Finished {
                result: Err(Errno::Host(why)),
                close: kept,
            })
            &&& done >= 0 && ret < 0 ==> over.due() == (Step::<Seq<u8>>::Finished {
                result: Ok(()),
                close: None,
            })
            &&& done >= 0 && ret >= 0 ==> {
                let told = over.after(Reply::Identity(Ok(key)));
                &&& over.due() == Step::Call(Call::<Seq<u8>>::Identify { fd: ret })
                &&& told.due() is Settle
                &&& told == (Removal {
                    stage: RemovalStage::Settle { fd: Some(ret), key },
                    ..start
                })
                &&& over.after(Reply::Identity(Err(unknown))).due() == (Step::<
                    Seq<u8>,
                >::Finished { result: Ok(()), close: Some(ret) })
            }
        }),
{
}

/// A rename first asks for the directory of the old entry, then for that of the new one, and
/// fails with the number that it is answered where it does not get one.
pub proof fn law_rename_opens_its_parents(start: Rename, dir: i32, errno: i32)
    requires
        start.stage is OpenOld,
    ensures
        start.due() == Step::Call(Call::<Seq<u8>>::OpenInode { inode: start.from.parent }),
        start.after(Reply::Opened(Err(errno))).due() == (Step::<Seq<u8>>::Finished {
            result: Err(Errno::Guest(errno)),
            close: None,
        }),
        start.after(Reply::Opened(Ok(dir))).due() == Step::Call(
            Call::<Seq<u8>>::OpenInode { inode: start.to.parent },
        ),
        start.after(Reply::Opened(Ok(dir))).after(Reply::Opened(Err(errno))).due() == (Step::<
            Seq<u8>,
        >::Finished { result: Err(Errno::Guest(errno)), close: None }),
{
}

/// On Linux the source is opened, identified and closed; it is an error if it cannot be opened
/// or identified. Then the target is opened.
pub proof fn law_linux_rename_source(
    start: Rename,
    old_dir: i32,
    new_dir: i32,
    ret: i32,
    errno: i32,
    unknown: i32,
    key: InodeAltKey,
    closed: Result<(), i32>,
)
    requires
        start.stage is OpenOld,
        start.host is Linux,
    ensures
        ({
            let inside = start.after(Reply::Opened(Ok(old_dir))).after(Reply::Opened(Ok(new_dir)));
            let probed = inside.after(Reply::Sys { ret, errno });
            let known = probed.after(Reply::Identity(Ok(key)));
            let flags = OpenFlags {
                path: true,
                directory: false,
                nonblock: false,
                nofollow: true,
                cloexec: true,
            };
            &&& inside.due() == Step::Call(
                Call::OpenAt { dir: old_dir, name: start.from.name@, flags },
            )
            &&& ret < 0 ==> probed.due() == (Step::<Seq<u8>>::Finished {
                result: Err(Errno::Host(errno)),
                close: None,
            })
            &&& ret >= 0 ==> {
                &&& probed.due() == Step::Call(Call::<Seq<u8>>::Identify { fd: ret })
                &&& probed.after(Reply::Identity(Err(unknown))).due() == (Step::<
                    Seq<u8>,
                >::Finished { result: Err(Errno::Guest(unknown)), close: Some(ret) })
                &&& known.due() == Step::Call(Call::<Seq<u8>>::Close { fd: ret })
                &&& known.after(Reply::Closed(closed)).due() == Step::Call(
                    Call::OpenAt { dir: new_dir, name: start.to.name@, flags },
                )
            }
        }),
{
}

/// On Linux a target that is missing is none, any other that cannot be opened or identified is
/// an error. The host is then asked for the rename with the flags of the guest. Once it is
/// made, the table is told both files and given the target's descriptor. If the host refuses,
/// that descriptor is closed before the error is read.
pub proof fn law_linux_rename_target(
    start: Rename,
    old_dir: i32,
    new_dir: i32,
    probe: i32,
    stale: i32,
    source: InodeAltKey,
    closed: Result<(), i32>,
    ret: i32,
    errno: i32,
    unknown: i32,
    key: InodeAltKey,
    done: i32,
    why: i32,
    broken: i32,
)
    requires
        start.stage is OpenOld,
        start.host is Linux,
        probe >= 0,
    ensures
        ({
            let sought = start.after(Reply::Opened(Ok(old_dir))).after(
                Reply::Opened(Ok(new_dir)),
            ).after(Reply::Sys { ret: probe, errno: stale }).after(
                Reply::Identity(Ok(source)),
            ).after(Reply::Closed(closed));
            let probed = sought.after(Reply::Sys { ret, errno });
            let known = probed.after(Reply::Identity(Ok(key)));
            let renaming = Step::Call(
                Call::Rename {
                    old_dir,
                    old_name: start.from.name@,
                    new_dir,
                    new_name: start.to.name@,
                    call: RenameCall::Renameat2 { flags: start.flags },
                },
            );
            &&& ret < 0 && errno != 2 ==> probed.due() == (Step::<Seq<u8>>::Finished {
                result: Err(Errno::Host(errno)),
                close: None,
            })
            &&& ret < 0 && errno == 2 ==> {
                let over = probed.after(Reply::Sys { ret: done, errno: why });
                &&& probed.due() == renaming
                &&& done >= 0 ==> {
                    &&& over.due() is Settle
                    &&& over == (Rename {
                        stage: RenameStage::Settle { source, target: None },
                        ..start
                    })
                }
                &&& done < 0 ==> over.due() == (Step::<Seq<u8>>::Finished {
                    result: Err(Errno::Host(why)),
                    close: None,
                })
            }
            &&& ret >= 0 ==> {
                let over = known.after(Reply::Sys { ret: done, errno: why });
                &&& probed.due() == Step::Call(Call::<Seq<u8>>::Identify { fd: ret })
                &&& probed.after(Reply::Identity(Err(unknown))).due() == (Step::<
                    Seq<u8>,
                >::Finished { result: Err(Errno::Guest(unknown)), close: Some(ret) })
                &&& known.due() == renaming
                &&& done >= 0 ==> {
                    &&& over.due() is Settle
                    &&& over == (Rename {
                        stage: RenameStage::Settle {
                            source,
                            target: Some(Target { key, fd: Some(ret) }),
                        },
                        ..start
                    })
                }
                &&& done < 0 ==> {
                    &&& over.due() == Step::Call(Call::<Seq<u8>>::Close { fd: ret })
                    &&& over.after(Reply::Closed(Ok(()))).due() == (Step::<Seq<u8>>::Finished {
                        result: Err(Errno::Host(why)),
                        close: None,
                    })
                    &&& over.after(Reply::Closed(Err(broken))).due() == (Step::<
                        Seq<u8>,
                    >::Finished { result: Err(Errno::Host(broken)), close: None })
                }
            }
        }),
{
}

/// In anchor mode both entries are identified. It is an error if the source cannot be, or if
/// the target cannot be and is not missing.
pub proof fn law_anchored_rename_identifies(
    start: Rename,
    old_dir: i32,
    new_dir: i32,
    source: InodeAltKey,
    errno: i32,
)
    requires
        start.stage is OpenOld,
        start.host == (Host::MacOs { anchor: true }),
    ensures
        ({
            let inside = start.after(Reply::Opened(Ok(old_dir))).after(Reply::Opened(Ok(new_dir)));
            let known = inside.after(Reply::Identity(Ok(source)));
            &&& inside.due() == Step::Call(
                Call::IdentifyAt { dir: old_dir, name: start.from.name@ },
            )
            &&& inside.after(Reply::Identity(Err(errno))).due() == (Step::<Seq<u8>>::Finished {
                result: Err(Errno::Guest(errno)),
                close: None,
            })
            &&& known.due() == Step::Call(Call::IdentifyAt { dir: new_dir, name: start.to.name@ })
            &&& errno != 2 ==> known.after(Reply::Identity(Err(errno))).due() == (Step::<
                Seq<u8>,
            >::Finished { result: Err(Errno::Guest(errno)), close: None })
        }),
{
}

/// In anchor mode the host is asked for the rename at once where there is no target. Once it
/// is made, the table is told the source.
pub proof fn law_anchored_rename_without_target(
    start: Rename,
    old_dir: i32,
    new_dir: i32,
    source: InodeAltKey,
    done: i32,
    why: i32,
)
    requires
        start.stage is OpenOld,
        start.host == (Host::MacOs { anchor: true }),
    ensures
        ({
            let ready = start.after(Reply::Opened(Ok(old_dir))).after(
                Reply::Opened(Ok(new_dir)),
            ).after(Reply::Identity(Ok(source))).after(Reply::Identity(Err(2)));
            let over = ready.after(Reply::Sys { ret: done, errno: why });
            &&& ready.due() matches Step::Call(Call::Rename { old_dir: left, new_dir: right, .. })
            &&& left == old_dir && right == new_dir
            &&& done >= 0 ==> {
                &&& over.due() is Settle
                &&& over == (Rename {
                    stage: RenameStage::Settle { source, target: None },
                    ..start
                })
            }
            &&& done < 0 ==> over.due() == (Step::<Seq<u8>>::Finished {
                result: Err(Errno::Host(why)),
                close: None,
            })
        }),
{
}

/// In anchor mode a target that was identified is opened before the host is asked for the
/// rename, for reading and without waiting, and what was opened is asked for its identity. If
/// it is the target, the table is given the descriptor once the rename is made. If it is
/// another, or unknown, the descriptor is closed first. Without one the rename is made all the
/// same. If the host refuses, its error is reported, and the descriptor is left to be closed.
pub proof fn law_anchored_rename_with_target(
    start: Rename,
    old_dir: i32,
    new_dir: i32,
    source: InodeAltKey,
    key: InodeAltKey,
    ret: i32,
    errno: i32,
    opened: Result<InodeAltKey, i32>,
    closed: Result<(), i32>,
    done: i32,
    why: i32,
)
    requires
        start.stage is OpenOld,
        start.host == (Host::MacOs { anchor: true }),
    ensures
        ({
            let known = start.after(Reply::Opened(Ok(old_dir))).after(
                Reply::Opened(Ok(new_dir)),
            ).after(Reply::Identity(Ok(source))).after(Reply::Identity(Ok(key)));
            let probed = known.after(Reply::Sys { ret, errno });
            let looked = probed.after(Reply::Identity(opened));
            let same = ret >= 0 && opened is Ok && opened->Ok_0 == key;
            let ready = if ret < 0 {
                probed
            } else if same {
                looked
            } else {
                looked.after(Reply::Closed(closed))
            };
            let fd = if same {
                Some(ret)
            } else {
                None
            };
            let over = ready.after(Reply::Sys { ret: done, errno: why });
            let flags = OpenFlags {
                path: false,
                directory: false,
                nonblock: true,
                nofollow: true,
                cloexec: true,
            };
            &&& known.due() == Step::Call(
                Call::OpenAt { dir: new_dir, name: start.to.name@, flags },
            )
            &&& ret >= 0 ==> probed.due() == Step::Call(Call::<Seq<u8>>::Identify { fd: ret })
            &&& ret >= 0 && !same ==> looked.due() == Step::Call(
                Call::<Seq<u8>>::Close { fd: ret },
            )
            &&& ready.due() matches Step::Call(Call::Rename { old_dir: left, new_dir: right, .. })
            &&& left == old_dir && right == new_dir
            &&& done >= 0 ==> {
                &&& over.due() is Settle
                &&& over == (Rename {
                    stage: RenameStage::Settle { source, target: Some(Target { key, fd }) },
                    ..start
                })
            }
            &&& done < 0 ==> over.due() == (Step::<Seq<u8>>::Finished {
                result: Err(Errno::Host(why)),
                close: fd,
            })
        }),
{
}

/// In volfs mode the host is asked for the rename at once, and the table is not told.
pub proof fn law_volfs_rename(start: Rename, old_dir: i32, new_dir: i32, done: i32, why: i32)
    requires
        start.stage is OpenOld,
        start.host == (Host::MacOs { anchor: false }),
    ensures
        ({
            let ready = start.after(Reply::Opened(Ok(old_dir))).after(Reply::Opened(Ok(new_dir)));
            let over = ready.after(Reply::Sys { ret: done, errno: why });
            &&& ready.due() matches Step::Call(Call::Rename { old_dir: left, new_dir: right, .. })
            &&& left == old_dir && right == new_dir
            &&& done >= 0 ==> over.due() == (Step::<Seq<u8>>::Finished {
                result: Ok(()),
                close: None,
            })
            &&& done < 0 ==> over.due() == (Step::<Seq<u8>>::Finished {
                result: Err(Errno::Host(why)),
                close: None,
            })
        }),
{
}

/// The bits of two.
proof fn lemma_rename_bits()
    ensures
        0u32 & 4 == 0 && 0u32 & 2 == 0 && 0u32 & !6u32 == 0,
        4u32 & 4 == 4 && 4u32 & 2 == 0 && 4u32 & !6u32 == 0,
        2u32 & 4 == 0 && 2u32 & 2 == 2 && 2u32 & !6u32 == 0,
        6u32 & 4 == 4 && 6u32 & 2 == 2 && 6u32 & !6u32 == 0,
{
    assert(0u32 & 4 == 0 && 0u32 & 2 == 0 && 0u32 & !6u32 == 0 && 4u32 & 4 == 4 && 4u32 & 2 == 0
        && 4u32 & !6u32 == 0 && 2u32 & 4 == 0 && 2u32 & 2 == 2 && 2u32 & !6u32 == 0 && 6u32 & 4
        == 4 && 6u32 & 2 == 2 && 6u32 & !6u32 == 0) by (bit_vector);
}

/// Whenever the host is asked for a rename, on Linux it is with the flags of the guest; on
/// macOS it is the plain call if the guest has none, and otherwise one that forbids to replace,
/// and one that exchanges, exactly if the guest's does, and asks for nothing else. The entries
/// are those of the request. None of it depends on what is known of source and target.
pub proof fn law_rename_call_is_the_guests(rename: Rename)
    ensures
        rename.due() matches Step::Call(
            Call::Rename { old_name, new_name, call, .. },
        ) ==> {
            &&& old_name == rename.from.name@
            &&& new_name == rename.to.name@
            &&& rename.host is Linux ==> call == (RenameCall::Renameat2 { flags: rename.flags })
            &&& rename.host is MacOs && rename.flags == 0 ==> call == RenameCall::Renameat
            &&& rename.host is MacOs && rename.flags != 0 ==> {
                &&& call matches RenameCall::RenameatxNp { flags }
                &&& flags & 4 != 0 <==> rename.flags & 1 != 0
                &&& flags & 2 != 0 <==> rename.flags & 2 != 0
                &&& flags & !6u32 == 0
            }
        },
{
    lemma_rename_bits();
}

/// The flags for macOS forbid to replace, and exchange, exactly if the guest's do, and ask for
/// nothing else.
pub proof fn law_translated_flags(flags: u32, translated: u32)
    requires
        call_ensures(translate_flags, (flags,), translated),
    ensures
        translated & 4 != 0 <==> flags & 1 != 0,
        translated & 2 != 0 <==> flags & 2 != 0,
        translated & !6u32 == 0,
{
    lemma_rename_bits();
}

/// Whenever the host is asked to remove an entry, it is as a directory exactly if the request
/// was to remove one, on every host and whatever is known of the entry.
pub proof fn law_unlink_call_is_the_guests(removal: Removal)
    ensures
        removal.due() matches Step::Call(Call::UnlinkAt { name, remove_dir, .. }) ==> {
            &&& name == removal.entry.name@
            &&& remove_dir <==> removal.kind == EntryKind::Directory
        },
{
}

/// Before the host is asked to remove an entry, it was asked, in the directory that was opened
/// for the parent, which file the entry is of in anchor mode, and to open the entry on Linux
/// and, for a file, on any host.
pub proof fn law_removal_looks_first(start: Removal, replies: Seq<Reply>)
    requires
        start.stage is OpenParent,
        possible(start, replies),
    ensures
        reached(start, replies).due() matches Step::Call(
            Call::UnlinkAt { dir, name, remove_dir },
        ) ==> {
            &&& replies.len() > 0 && replies[0] == Reply::Opened(Ok(dir))
            &&& name == start.entry.name@
            &&& remove_dir <==> start.kind == EntryKind::Directory
            &&& start.host == (Host::MacOs { anchor: true }) ==> {
                &&& replies.len() > 1 && replies[1] is Identity
                &&& due_at(start, replies, 1) == Step::Call(Call::IdentifyAt { dir, name })
            }
            &&& start.host is Linux ==> {
                &&& replies.len() > 1 && replies[1] is Sys
                &&& opens_entry(due_at(start, replies, 1), dir, name)
            }
            &&& start.kind == EntryKind::File ==> {
                &&& replies.len() > 1
                &&& opens_entry(due_at(start, replies, 1), dir, name) || (replies.len() > 2
                    && opens_entry(due_at(start, replies, 2), dir, name))
            }
        },
{
    lemma_removal_looks_first(start, replies);
}

proof fn lemma_removal_looks_first(start: Removal, replies: Seq<Reply>)
    requires
        start.stage is OpenParent,
        possible(start, replies),
    ensures
        reached(start, replies).host == start.host,
        reached(start, replies).kind == start.kind,
        reached(start, replies).entry == start.entry,
        ({
            let dir = replies[0]->Opened_0->Ok_0;
            let name = start.entry.name@;
            let anchored = start.host == (Host::MacOs { anchor: true });
            let asked = replies.len() > 1 && replies[1] is Identity && due_at(start, replies, 1)
                == Step::Call(Call::IdentifyAt { dir, name });
            match reached(start, replies).stage {
                RemovalStage::OpenParent => replies.len() == 0,
                RemovalStage::IdentifyEntry { dir: at } => replies.len() == 1 && replies[0]
                    == Reply::Opened(Ok(at)),
                RemovalStage::Probe { dir: at, .. } => {
                    &&& replies.len() == if anchored {
                        2int
                    } else {
                        1
                    }
                    &&& replies[0] == Reply::Opened(Ok(at))
                    &&& anchored ==> asked
                },
                RemovalStage::IdentifyProbe { dir: at, .. } => {
                    &&& replies.len() == 2 && replies[1] is Sys
                    &&& replies[0] == Reply::Opened(Ok(at))
                    &&& start.host is Linux
                    &&& opens_entry(due_at(start, replies, 1), dir, name)
                },
                RemovalStage::Remove { dir: at, .. } => {
                    &&& replies.len() > 0 && replies[0] == Reply::Opened(Ok(at))
                    &&& anchored ==> asked
                    &&& start.host is Linux ==> replies.len() > 1 && replies[1] is Sys
                        && opens_entry(due_at(start, replies, 1), dir, name)
                    &&& start.kind is File ==> replies.len() > 1 && (opens_entry(
                        due_at(start, replies, 1),
                        dir,
                        name,
                    ) || (replies.len() > 2 && opens_entry(due_at(start, replies, 2), dir, name)))
                },
                _ => true,
            }
        }),
    decreases replies.len(),
{
    if replies.len() > 0 {
        lemma_removal_looks_first(start, replies.drop_last());
        if replies.len() > 1 {
            lemma_due_before(start, replies, 1);
        }
        if replies.len() > 2 {
            lemma_due_before(start, replies, 2);
        }
    }
}

/// In anchor mode, when the host is asked for a rename, both entries were identified, in the
/// directories that were opened for them. A target that has a file was then opened. What the
/// table is told of it is that file; and the descriptor, exactly if the open gave one and the
/// host said that it is of that very file.
pub proof fn law_anchored_rename_opens_target(start: Rename, replies: Seq<Reply>)
    requires
        start.stage is OpenOld,
        start.host == (Host::MacOs { anchor: true }),
        possible(start, replies),
    ensures
        ({
            let old_dir = replies[0]->Opened_0->Ok_0;
            let new_dir = replies[1]->Opened_0->Ok_0;
            let now = reached(start, replies);
            now.due() matches Step::Call(Call::Rename { .. }) || now.due() is Settle ==> {
                &&& replies.len() > 3
                &&& due_at(start, replies, 2) == Step::Call(
                    Call::IdentifyAt { dir: old_dir, name: start.from.name@ },
                )
                &&& due_at(start, replies, 3) == Step::Call(
                    Call::IdentifyAt { dir: new_dir, name: start.to.name@ },
                )
                &&& replies[3] matches Reply::Identity(Ok(key)) ==> {
                    &&& replies.len() > 4 && replies[4] is Sys
                    &&& opens_entry(due_at(start, replies, 4), new_dir, start.to.name@)
                    &&& replies[4]->Sys_ret >= 0 ==> replies.len() > 5 && due_at(start, replies, 5)
                        == Step::Call(Call::<Seq<u8>>::Identify { fd: replies[4]->Sys_ret })
                    &&& now.stage matches RenameStage::Settle { target, .. } ==> target == Some(
                        Target {
                            key,
                            fd: if replies[4]->Sys_ret >= 0 && replies[5] == Reply::Identity(
                                Ok(key),
                            ) {
                                Some(replies[4]->Sys_ret)
                            } else {
                                None
                            },
                        },
                    )
                }
                &&& !(replies[3] matches Reply::Identity(Ok(_))) ==> {
                    &&& replies[3] == Reply::Identity(Err(2))
                    &&& now.stage matches RenameStage::Settle { target, .. } ==> target is None
                }
            }
        }),
{
    lemma_anchored_rename_trace(start, replies);
}

/// The target as the replies so far have it, once it was opened, or could not be.
spec fn target_of(replies: Seq<Reply>) -> Option<Target> {
    match replies[3] {
        Reply::Identity(Ok(key)) => Some(
            Target {
                key,
                fd: if replies[4]->Sys_ret >= 0 && replies[5] == Reply::Identity(Ok(key)) {
                    Some(replies[4]->Sys_ret)
                } else {
                    None
                },
            },
        ),
        _ => None,
    }
}

proof fn lemma_anchored_rename_trace(start: Rename, replies: Seq<Reply>)
    requires
        start.stage is OpenOld,
        start.host == (Host::MacOs { anchor: true }),
        possible(start, replies),
    ensures
        reached(start, replies).host == start.host,
        reached(start, replies).from == start.from,
        reached(start, replies).to == start.to,
        ({
            let old_dir = replies[0]->Opened_0->Ok_0;
            let new_dir = replies[1]->Opened_0->Ok_0;
            let both = Dirs { from: old_dir, to: new_dir };
            let first = due_at(start, replies, 2) == Step::Call(
                Call::IdentifyAt { dir: old_dir, name: start.from.name@ },
            );
            let second = due_at(start, replies, 3) == Step::Call(
                Call::IdentifyAt { dir: new_dir, name: start.to.name@ },
            );
            let third = replies[4] is Sys && opens_entry(
                due_at(start, replies, 4),
                new_dir,
                start.to.name@,
            );
            let fourth = replies[4]->Sys_ret >= 0 ==> replies.len() > 5 && due_at(start, replies, 5)
                == Step::Call(Call::<Seq<u8>>::Identify { fd: replies[4]->Sys_ret });
            let ready = {
                &&& replies.len() > 3
                &&& first
                &&& second
                &&& replies[3] matches Reply::Identity(Ok(_)) ==> replies.len() > 4 && third
                    && fourth
                &&& !(replies[3] matches Reply::Identity(Ok(_))) ==> replies[3] == Reply::Identity(
                    Err(2),
                )
            };
            match reached(start, replies).stage {
                RenameStage::OpenOld => replies.len() == 0,
                RenameStage::OpenNew { from } => replies.len() == 1 && replies[0] == Reply::Opened(
                    Ok(from),
                ),
                RenameStage::IdentifyOldEntry { dirs } => replies.len() == 2 && dirs == both,
                RenameStage::IdentifyNewEntry { dirs, .. } => replies.len() == 3 && dirs == both
                    && first,
                RenameStage::OpenTarget { dirs, target, .. } => replies.len() == 4 && dirs == both
                    && first && second && replies[3] == Reply::Identity(Ok(target)),
                RenameStage::VerifyTarget { dirs, target, fd, .. } => replies.len() == 5 && dirs
                    == both && first && second && replies[3] == Reply::Identity(Ok(target))
                    && third && replies[4]->Sys_ret == fd && fd >= 0,
                RenameStage::DiscardTarget { dirs, target, fd, .. } => replies.len() == 6 && dirs
                    == both && first && second && replies[3] == Reply::Identity(Ok(target))
                    && third && fourth && replies[4]->Sys_ret == fd && fd >= 0 && replies[5]
                    != Reply::Identity(Ok(target)),
                RenameStage::Rename { target, .. } => ready && target == target_of(replies),
                RenameStage::Settle { target, .. } => ready && target == target_of(replies),
                RenameStage::Refused { .. } => true,
                RenameStage::Finished { .. } => true,
                _ => false,
            }
        }),
    decreases replies.len(),
{
    if replies.len() > 0 {
        lemma_anchored_rename_trace(start, replies.drop_last());
        if replies.len() > 2 {
            lemma_due_before(start, replies, 2);
        }
        if replies.len() > 3 {
            lemma_due_before(start, replies, 3);
        }
        if replies.len() > 4 {
            lemma_due_before(start, replies, 4);
        }
        if replies.len() > 5 {
            lemma_due_before(start, replies, 5);
        }
    }
}

} // verus!
