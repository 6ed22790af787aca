//! The requests: which are refused at once, and how the others begin.
//!
//! Whether a name is one that a guest may use at all is decided elsewhere; a request comes
//! with the verdict on each of its names, `Err` with the guest's error number where the name
//! is no good.
use vstd::prelude::*;

use crate::fs::PassthroughFs;
use crate::removal::{EntryKind, Removal, RemovalStage};
use crate::rename::{Rename, RenameStage};
use crate::types::{Entry, Errno, NamespaceAlias};

verus! {

/// The error number of the first name that is no good.
pub open spec fn bad_name(first: Result<(), i32>, second: Result<(), i32>) -> Option<i32> {
    if first is Err {
        Some(first->Err_0)
    } else if second is Err {
        Some(second->Err_0)
    } else {
        None
    }
}

/// The error number of the first name that is no good.
fn first_bad_name(first: Result<(), i32>, second: Result<(), i32>) -> (errno: Option<i32>)
    ensures
        errno == bad_name(first, second),
{
    match (first, second) {
        (Err(errno), _) => Some(errno),
        (Ok(_), Err(errno)) => Some(errno),
        (Ok(_), Ok(_)) => None,
    }
}

/// Whether `begun` is the answer to a request to remove `entry`: the refusal, if there is
/// one, and otherwise a removal that has not come any way yet.
pub open spec fn removal_begins(
    fs: &PassthroughFs,
    kind: EntryKind,
    entry: Entry,
    name_check: Result<(), i32>,
    begun: Result<Removal, Errno>,
) -> bool {
    match fs.refusal(bad_name(name_check, Ok(())), fs.reserves(entry)) {
        Some(errno) => begun == Err::<Removal, Errno>(errno),
        None => {
            &&& begun matches Ok(removal)
            &&& removal.host == fs.host
            &&& removal.kind == kind
            &&& removal.entry@ == entry
            &&& removal.stage == RemovalStage::OpenParent
        },
    }
}

fn begin_removal(
    fs: &PassthroughFs,
    kind: EntryKind,
    parent: u64,
    name: &[u8],
    name_check: Result<(), i32>,
) -> (begun: Result<Removal, Errno>)
    ensures
        removal_begins(fs, kind, Entry { parent, name: name@ }, name_check, begun),
{
    let bad_name: Option<i32> = first_bad_name(name_check, Ok(()));
    let reserved: bool = fs.is_reserved_init_name(parent, name);
    match fs.refuse(bad_name, reserved) {
        Some(errno) => Err(errno),
        None => Ok(
            Removal {
                host: fs.host,
                kind,
                entry: NamespaceAlias::new(parent, name),
                stage: RemovalStage::OpenParent,
            },
        ),
    }
}

/// Begins to remove the file `name` in `parent`.
pub fn do_unlink(
    fs: &PassthroughFs,
    parent: u64,
    name: &[u8],
    name_check: Result<(), i32>,
) -> (begun: Result<Removal, Errno>)
    ensures
        removal_begins(fs, EntryKind::File, Entry { parent, name: name@ }, name_check, begun),
{
    begin_removal(fs, EntryKind::File, parent, name, name_check)
}

/// Begins to remove the directory `name` in `parent`.
pub fn do_rmdir(
    fs: &PassthroughFs,
    parent: u64,
    name: &[u8],
    name_check: Result<(), i32>,
) -> (begun: Result<Removal, Errno>)
    ensures
        removal_begins(fs, EntryKind::Directory, Entry { parent, name: name@ }, name_check, begun),
{
    begin_removal(fs, EntryKind::Directory, parent, name, name_check)
}

/// Whether `begun` is the answer to a request to rename `from` to `to`: the refusal, if there
/// is one, and otherwise a rename that has not come any way yet.
pub open spec fn rename_begins(
    fs: &PassthroughFs,
    from: Entry,
    to: Entry,
    flags: u32,
    from_check: Result<(), i32>,
    to_check: Result<(), i32>,
    begun: Result<Rename, Errno>,
) -> bool {
    match fs.refusal(bad_name(from_check, to_check), fs.reserves(from) || fs.reserves(to)) {
        Some(errno) => begun == Err::<Rename, Errno>(errno),
        None => {
            &&& begun matches Ok(rename)
            &&& rename.host == fs.host
            &&& rename.flags == flags
            &&& rename.from@ == from
            &&& rename.to@ == to
            &&& rename.stage == RenameStage::OpenOld
        },
    }
}

/// Begins to rename `oldname` in `olddir` to `newname` in `newdir`.
pub fn do_rename(
    fs: &PassthroughFs,
    olddir: u64,
    oldname: &[u8],
    newdir: u64,
    newname: &[u8],
    flags: u32,
    oldname_check: Result<(), i32>,
    newname_check: Result<(), i32>,
) -> (begun: Result<Rename, Errno>)
    ensures
        rename_begins(
            fs,
            Entry { parent: olddir, name: oldname@ },
            Entry { parent: newdir, name: newname@ },
            flags,
            oldname_check,
            newname_check,
            begun,
        ),
{
    let bad_name: Option<i32> = first_bad_name(oldname_check, newname_check);
    let reserved: bool = fs.is_reserved_init_name(olddir, oldname) || fs.is_reserved_init_name(
        newdir,
        newname,
    );
    match fs.refuse(bad_name, reserved) {
        Some(errno) => Err(errno),
        None => Ok(
            Rename {
                host: fs.host,
                flags,
                from: NamespaceAlias::new(olddir, oldname),
                to: NamespaceAlias::new(newdir, newname),
                stage: RenameStage::OpenOld,
            },
        ),
    }
}

} // verus!
