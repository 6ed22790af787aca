//! What an operation asks of the host, and what the host answers.
use vstd::prelude::*;

use crate::inode_table::InodeData;
use crate::types::{Errno, InodeAltKey};

verus! {

/// How an entry is opened. Without `path` it is opened for reading.
#[derive(Debug, Clone, Copy, PartialEq, Eq, Structural)]
pub struct OpenFlags {
    /// Only a handle on the entry, not on its contents.
    pub path: bool,
    /// Fail where the entry is no directory.
    pub directory: bool,
    /// Do not wait for a writer where the entry is a FIFO.
    pub nonblock: bool,
    /// Fail where the entry is a symbolic link, or open the link itself.
    pub nofollow: bool,
    /// Close the descriptor when a new program is executed.
    pub cloexec: bool,
}

/// Which of the host's rename calls is made, with its own flags.
#[derive(Debug, Clone, Copy, PartialEq, Eq, Structural)]
pub enum RenameCall {
    Renameat2 { flags: u32 },
    Renameat,
    RenameatxNp { flags: u32 },
}

/// A call that the host is asked to make. Names are bytes, `N`.
#[derive(Debug)]
pub enum Call<N> {
    /// A descriptor of the directory `inode`, by whatever way the share finds it.
    OpenInode { inode: u64 },
    /// `openat`.
    OpenAt { dir: i32, name: N, flags: OpenFlags },
    /// The identity of an entry, symbolic links not followed.
    IdentifyAt { dir: i32, name: N },
    /// The identity of an open file.
    Identify { fd: i32 },
    /// `unlinkat`.
    UnlinkAt { dir: i32, name: N, remove_dir: bool },
    /// One of the rename calls.
    Rename { old_dir: i32, old_name: N, new_dir: i32, new_name: N, call: RenameCall },
    /// `close`.
    Close { fd: i32 },
}

impl View for Call<Vec<u8>> {
    type V = Call<Seq<u8>>;

    open spec fn view(&self) -> Call<Seq<u8>> {
        match *self {
            Call::OpenInode { inode } => Call::OpenInode { inode },
            Call::OpenAt { dir, name, flags } => Call::OpenAt { dir, name: name@, flags },
            Call::IdentifyAt { dir, name } => Call::IdentifyAt { dir, name: name@ },
            Call::Identify { fd } => Call::Identify { fd },
            Call::UnlinkAt { dir, name, remove_dir } => Call::UnlinkAt {
                dir,
                name: name@,
                remove_dir,
            },
            Call::Rename { old_dir, old_name, new_dir, new_name, call } => Call::Rename {
                old_dir,
                old_name: old_name@,
                new_dir,
                new_name: new_name@,
                call,
            },
            Call::Close { fd } => Call::Close { fd },
        }
    }
}

/// What came of a call.
#[derive(Debug, Clone, Copy)]
pub enum Reply {
    /// Of `openat`, `unlinkat` and the rename calls: what was returned, and, where that is
    /// negative, the error number, read before any other call.
    Sys { ret: i32, errno: i32 },
    /// Of [`Call::OpenInode`]: a descriptor, or the guest's error number.
    Opened(Result<i32, i32>),
    /// Of the two identity calls: the identity, or the guest's error number.
    Identity(Result<InodeAltKey, i32>),
    /// Of `close`: nothing, or the error number with which it failed.
    Closed(Result<(), i32>),
}

/// Whether `reply` is of the kind that `call` is answered with.
pub open spec fn answers(call: Call<Seq<u8>>, reply: Reply) -> bool {
    match call {
        Call::OpenInode { .. } => reply is Opened,
        Call::OpenAt { .. } => reply is Sys,
        Call::IdentifyAt { .. } => reply is Identity,
        Call::Identify { .. } => reply is Identity,
        Call::UnlinkAt { .. } => reply is Sys,
        Call::Rename { .. } => reply is Sys,
        Call::Close { .. } => reply is Closed,
    }
}

/// The error number that is found once a descriptor is closed after a call failed with
/// `errno`: a `close` that fails puts its own in the place.
pub open spec fn errno_after(errno: i32, closed: Result<(), i32>) -> i32 {
    match closed {
        Ok(_) => errno,
        Err(overwritten) => overwritten,
    }
}

/// The error number that is found once a descriptor is closed after a call failed with
/// `errno`.
pub(crate) fn read_errno_after(errno: i32, closed: Result<(), i32>) -> (found: i32)
    ensures
        found == errno_after(errno, closed),
{
    match closed {
        Ok(_) => errno,
        Err(overwritten) => overwritten,
    }
}

/// What an operation is waiting for.
#[derive(Debug)]
pub enum Step<N> {
    /// The reply to a call.
    Call(Call<N>),
    /// The inode table: the host has made the change and the table is to follow it.
    Settle,
    /// Nothing: it is over. The descriptor in `close`, if any, is to be closed.
    Finished { result: Result<(), Errno>, close: Option<i32> },
}

impl View for Step<Vec<u8>> {
    type V = Step<Seq<u8>>;

    open spec fn view(&self) -> Step<Seq<u8>> {
        match *self {
            Step::Call(call) => Step::Call(call@),
            Step::Settle => Step::Settle,
            Step::Finished { result, close } => Step::Finished { result, close },
        }
    }
}

/// What is left to do after the table has followed a successful operation.
#[derive(Debug)]
pub struct Outcome {
    /// A descriptor to close.
    pub close: Option<i32>,
    /// The records that the table dropped. The descriptors that they hold are to be closed.
    pub gone: Vec<InodeData>,
}

} // verus!
