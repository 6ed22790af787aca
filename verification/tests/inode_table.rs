//! The inode table.

use passthroughfs::inode_table::InodeTable;
use passthroughfs::types::{copy_bytes, same_bytes, Host, InodeAltKey, NamespaceAlias, ROOT_INODE};

const ANCHOR: Host = Host::MacOs { anchor: true };
const VOLFS: Host = Host::MacOs { anchor: false };

fn key(ino: u64) -> InodeAltKey {
    InodeAltKey::new(ino, 3)
}

fn at(parent: u64, name: &[u8]) -> NamespaceAlias {
    NamespaceAlias::new(parent, name)
}

/// The chain `a/b/c` below the root, inodes 2, 3 and 4.
fn chain() -> InodeTable {
    let mut table = InodeTable::new(key(1));
    assert_eq!(table.record_lookup(ANCHOR, at(1, b"a"), key(10)), Some(2));
    assert_eq!(table.record_lookup(ANCHOR, at(2, b"b"), key(11)), Some(3));
    assert_eq!(table.record_lookup(ANCHOR, at(3, b"c"), key(12)), Some(4));
    table
}

fn present(table: &InodeTable) -> Vec<u64> {
    (0..10).filter(|inode| table.get(*inode).is_some()).collect()
}

#[test]
fn a_new_table_knows_the_root() {
    let table = InodeTable::new(key(1));
    let root = table.get(ROOT_INODE).unwrap();
    assert_eq!((root.inode, root.key, root.lookups), (1, key(1), 1));
    assert_eq!((root.anchor_parent(), root.anchor_name(), root.unlinked_fd()), (0, &b""[..], -1));
    assert_eq!(table.get_alt(key(1)).unwrap().inode, 1);
    assert!(table.get_alt(key(2)).is_none());
    assert!(table.get_alt(InodeAltKey::new(1, 4)).is_none());
    assert_eq!(present(&table), vec![1]);
}

#[test]
fn the_root_outlives_every_forget() {
    let mut table = InodeTable::new(key(1));
    assert!(table.forget(ROOT_INODE, u64::MAX).is_empty());
    assert_eq!(present(&table), vec![1]);
    assert_eq!(table.get(ROOT_INODE).unwrap().lookups, 0);
}

#[test]
fn a_second_lookup_counts() {
    let mut table = chain();
    assert_eq!(table.record_lookup(ANCHOR, at(2, b"b"), key(11)), Some(3));
    let data = table.get(3).unwrap();
    assert_eq!((data.lookups, data.aliases.len()), (2, 1));
    assert!(table.forget(3, 1).is_empty());
    assert_eq!(table.get(3).unwrap().lookups, 1);
    assert_eq!(table.record_lookup(ANCHOR, at(1, b"other"), key(11)), Some(3));
    let data = table.get(3).unwrap();
    assert_eq!(data.aliases.len(), 2);
    assert_eq!((data.anchor_parent(), data.anchor_name()), (2, &b"b"[..]));
}

#[test]
fn a_chain_is_held_by_its_last_link() {
    let mut table = chain();
    assert!(table.forget(2, 1).is_empty());
    assert!(table.forget(3, 1).is_empty());
    assert_eq!(present(&table), vec![1, 2, 3, 4]);
    let mut gone: Vec<u64> = table.forget(4, 5).iter().map(|data| data.inode).collect();
    gone.sort();
    assert_eq!(gone, vec![2, 3, 4]);
    assert_eq!(present(&table), vec![1]);
    // Numbers are not given out twice.
    assert_eq!(table.record_lookup(ANCHOR, at(1, b"a"), key(10)), Some(5));
}

#[test]
fn forgetting_the_unknown_does_nothing() {
    let mut table = chain();
    assert!(table.forget(9, 1).is_empty());
    assert_eq!(present(&table), vec![1, 2, 3, 4]);
}

#[test]
fn removing_an_alias_says_whether_it_was_the_last() {
    let mut table = chain();
    table.register_alias(4, at(1, b"second"));
    table.register_alias(4, at(1, b"second"));
    assert_eq!(table.get(4).unwrap().aliases.len(), 2);
    let (detached, gone) = table.remove_alias(4, &at(3, b"c"));
    assert!(!detached && gone.is_empty());
    assert_eq!(table.get(4).unwrap().anchor_name(), b"second");
    let (detached, _) = table.remove_alias(4, &at(1, b"no such name"));
    assert!(!detached);
    let (detached, _) = table.remove_alias(4, &at(1, b"second"));
    assert!(detached);
    let (detached, gone) = table.remove_alias(9, &at(1, b"second"));
    assert!(!detached && gone.is_empty());
}

#[test]
fn removing_an_alias_drops_what_it_held() {
    let mut table = chain();
    table.forget(2, 1);
    table.forget(3, 1);
    let (detached, gone) = table.remove_alias(4, &at(3, b"c"));
    assert!(detached);
    let mut gone: Vec<u64> = gone.iter().map(|data| data.inode).collect();
    gone.sort();
    assert_eq!(gone, vec![2, 3]);
    assert_eq!(present(&table), vec![1, 4]);
}

#[test]
fn aliases_of_unknown_inodes_are_not_recorded() {
    let mut table = chain();
    table.register_alias(9, at(1, b"x"));
    assert_eq!(present(&table), vec![1, 2, 3, 4]);
}

#[test]
fn one_descriptor_is_kept_at_a_time() {
    let mut table = chain();
    assert_eq!(table.store_unlinked_fd(4, 20), None);
    assert_eq!(table.store_unlinked_fd(4, 21), Some(20));
    assert_eq!(table.store_unlinked_fd(9, 22), Some(22));
    assert_eq!(table.get(4).unwrap().unlinked_fd(), 21);
    let gone = table.forget(4, 1);
    assert_eq!(gone.len(), 1);
    assert_eq!(gone[0].unlinked, Some(21));
}

#[test]
fn untracked_lookups_record_no_alias() {
    let mut table = InodeTable::new(key(1));
    assert_eq!(table.record_lookup(VOLFS, at(1, b"a"), key(10)), Some(2));
    assert_eq!(table.record_lookup(VOLFS, at(2, b"b"), key(11)), Some(3));
    assert!(table.get(3).unwrap().aliases.is_empty());
    assert_eq!(table.forget(2, 1).len(), 1);
    assert_eq!(present(&table), vec![1, 3]);
    assert_eq!(table.record_lookup(Host::Linux, at(1, b"c"), key(12)), Some(4));
    assert_eq!(table.get(4).unwrap().anchor_name(), b"c");
}

#[test]
fn entries_are_compared_by_directory_and_name() {
    assert!(at(1, b"a").same(&at(1, b"a")));
    assert!(at(1, b"a").same(&at(1, b"a").duplicate()));
    assert!(!at(1, b"a").same(&at(2, b"a")));
    assert!(!at(1, b"a").same(&at(1, b"ab")));
    assert!(!at(1, b"a").same(&at(1, b"b")));
    assert_eq!(copy_bytes(b"xyz"), b"xyz");
    assert!(same_bytes(b"", b""));
    assert!(!same_bytes(b"x", b""));
}
