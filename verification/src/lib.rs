//! Removal and renaming for a pass-through filesystem, and the inode table that they keep
//! correct.
//!
//! A guest removes and renames directory entries of a shared host directory. Each operation
//! checks the request, asks the host a few questions (open the directory, open the entry,
//! what file is this), lets the host do the change, and then brings the inode table up to
//! date under its lock. The host work is done by the caller: an operation is a value that
//! says which call is due and takes the reply. What is decided here, and proved, is which
//! calls are made and with what, when an operation fails and with which error, what becomes
//! of every descriptor that was opened on the way, and what the table holds afterwards.
use vstd::prelude::*;

pub mod calls;
pub mod fs;
pub mod inode_table;
pub mod laws;
pub mod model;
pub mod operation;
pub mod removal;
pub mod remove_ops;
pub mod rename;
pub mod runs;
pub mod table_laws;
pub mod types;

verus! {

} // verus!
