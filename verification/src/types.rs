//! Plain values shared by the table and the operations.
use vstd::prelude::*;

verus! {

/// The inode number of the share's root directory.
pub const ROOT_INODE: u64 = 1;

/// "No such file or directory": the same number on every supported host and in the guest.
pub const ENOENT: i32 = 2;

/// The guest's number for "permission denied".
pub const EACCES: i32 = 13;

/// The guest's number for "read-only file system".
pub const EROFS: i32 = 30;

/// Why an operation failed.
#[derive(Debug, Clone, Copy, PartialEq, Eq, Structural)]
pub enum Errno {
    /// A number as the host kernel reported it, still to be translated for the guest.
    Host(i32),
    /// A number that is already the guest's.
    Guest(i32),
}

/// The kind of host that serves the share.
#[derive(Debug, Clone, Copy, PartialEq, Eq, Structural)]
pub enum Host {
    /// Linux: entries are probed with path-only descriptors and aliases are tracked.
    Linux,
    /// macOS. With `anchor` the volume cannot be reopened by file number, so inodes are
    /// reopened through their aliases; without it aliases are not tracked.
    MacOs { anchor: bool },
}

impl Host {
    /// Whether inodes are found again through their recorded directory entries.
    pub open spec fn tracks_aliases(self) -> bool {
        self is Linux || self.anchored()
    }

    /// Whether this is a macOS host in anchor mode.
    pub open spec fn anchored(self) -> bool {
        self matches Host::MacOs { anchor } && anchor
    }
}

/// The identity of a file on the host.
#[derive(Debug, Clone, Copy, PartialEq, Eq, Structural)]
pub struct InodeAltKey {
    pub ino: u64,
    pub dev: u64,
}

impl InodeAltKey {
    pub fn new(ino: u64, dev: u64) -> (key: Self)
        ensures
            key == (InodeAltKey { ino, dev }),
    {
        InodeAltKey { ino, dev }
    }
}

/// A directory entry as a mathematical value: a name in a directory.
#[verifier::ext_equal]
pub struct Entry {
    pub parent: u64,
    pub name: Seq<u8>,
}

/// A directory entry under which an inode is known.
#[derive(Debug)]
pub struct NamespaceAlias {
    pub parent: u64,
    pub name: Vec<u8>,
}

impl View for NamespaceAlias {
    type V = Entry;

    open spec fn view(&self) -> Entry {
        Entry { parent: self.parent, name: self.name@ }
    }
}

impl NamespaceAlias {
    pub fn new(parent: u64, name: &[u8]) -> (alias: Self)
        ensures
            alias@ == (Entry { parent, name: name@ }),
    {
        NamespaceAlias { parent, name: copy_bytes(name) }
    }

    /// A second value that names the same entry.
    pub fn duplicate(&self) -> (alias: Self)
        ensures
            alias@ == self@,
    {
        NamespaceAlias { parent: self.parent, name: copy_bytes(self.name.as_slice()) }
    }

    /// Whether both values name the same entry.
    pub fn same(&self, other: &NamespaceAlias) -> (b: bool)
        ensures
            b == (self@ == other@),
    {
        let b: bool = self.parent == other.parent && same_bytes(
            self.name.as_slice(),
            other.name.as_slice(),
        );
        assert(b ==> self@ =~= other@);
        b
    }
}

/// An owned copy of `bytes`.
pub fn copy_bytes(bytes: &[u8]) -> (copy: Vec<u8>)
    ensures
        copy@ == bytes@,
{
    let mut copy: Vec<u8> = Vec::new();
    for i in 0..bytes.len()
        invariant
            copy@ == bytes@.take(i as int),
    {
        copy.push(bytes[i]);
        assert(bytes@.take(i + 1) =~= bytes@.take(i as int).push(bytes@[i as int]));
    }
    assert(bytes@.take(bytes@.len() as int) =~= bytes@);
    copy
}

/// Whether two byte strings are equal.
pub fn same_bytes(a: &[u8], b: &[u8]) -> (same: bool)
    ensures
        same == (a@ == b@),
{
    if a.len() != b.len() {
        return false;
    }
    for i in 0..a.len()
        invariant
            a@.len() == b@.len(),
            forall|j: int| 0 <= j < i ==> a@[j] == b@[j],
    {
        if a[i] != b[i] {
            return false;
        }
    }
    assert(a@ =~= b@);
    true
}

} // verus!
