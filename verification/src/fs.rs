//! The settings of a share, and which requests they refuse.
use vstd::prelude::*;

use crate::types::{Entry, Errno, Host, NamespaceAlias, EACCES, EROFS, ROOT_INODE};

verus! {

/// The settings of a share.
#[derive(Debug)]
pub struct PassthroughFs {
    pub host: Host,
    /// Whether the guest may change nothing.
    pub readonly: bool,
    /// The entry that is reserved for the init program, where one is served.
    pub reserved: Option<NamespaceAlias>,
}

impl PassthroughFs {
    /// Whether `entry` is the reserved one.
    pub open spec fn reserves(&self, entry: Entry) -> bool {
        self.reserved matches Some(reserved) && reserved@ == entry
    }

    /// Why a request is refused before anything else happens, if it is: the first name that
    /// failed validation, a share that may not be changed, a reserved entry, in that order.
    pub open spec fn refusal(&self, bad_name: Option<i32>, reserved: bool) -> Option<Errno> {
        if bad_name is Some {
            Some(Errno::Guest(bad_name->0))
        } else if self.readonly {
            Some(Errno::Guest(EROFS))
        } else if reserved {
            Some(Errno::Guest(EACCES))
        } else {
            None
        }
    }

    /// Whether inodes are reopened through their recorded entries on a macOS host.
    pub fn anchor_mode(&self) -> (b: bool)
        ensures
            b == self.host.anchored(),
    {
        match self.host {
            Host::Linux => false,
            Host::MacOs { anchor } => anchor,
        }
    }

    /// Whether `name` in `parent` is reserved for the init program.
    pub fn is_reserved_init_name(&self, parent: u64, name: &[u8]) -> (b: bool)
        ensures
            b == self.reserves(Entry { parent, name: name@ }),
    {
        match &self.reserved {
            Some(reserved) => reserved.same(&NamespaceAlias::new(parent, name)),
            None => false,
        }
    }

    /// The reason for which a request is refused, if it is.
    pub(crate) fn refuse(&self, bad_name: Option<i32>, reserved: bool) -> (refusal: Option<Errno>)
        ensures
            refusal == self.refusal(bad_name, reserved),
    {
        match bad_name {
            Some(errno) => Some(Errno::Guest(errno)),
            None => if self.readonly {
                Some(Errno::Guest(EROFS))
            } else if reserved {
                Some(Errno::Guest(EACCES))
            } else {
                None
            },
        }
    }
}

/// The name of the init program, `init.krun`.
pub open spec fn init_name() -> Seq<u8> {
    seq![0x69u8, 0x6e, 0x69, 0x74, 0x2e, 0x6b, 0x72, 0x75, 0x6e]
}

/// The entry of the init program: `init.krun` in the root directory.
pub fn init_entry() -> (entry: NamespaceAlias)
    ensures
        entry@ == (Entry { parent: ROOT_INODE, name: init_name() }),
{
    let name: [u8; 9] = [0x69, 0x6e, 0x69, 0x74, 0x2e, 0x6b, 0x72, 0x75, 0x6e];
    let entry = NamespaceAlias::new(ROOT_INODE, &name);
    assert(entry@.name =~= init_name());
    entry
}

} // verus!
