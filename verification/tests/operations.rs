//! The operations step by step, on replies made up for the purpose.

use passthroughfs::calls::{Call, OpenFlags, Outcome, RenameCall, Reply, Step};
use passthroughfs::fs::{init_entry, PassthroughFs};
use passthroughfs::inode_table::InodeTable;
use passthroughfs::removal::{EntryKind, Removal, RemovalStage};
use passthroughfs::remove_ops::{do_rename, do_rmdir, do_unlink};
use passthroughfs::rename::{translate_flags, Rename, RenameStage, Target};
use passthroughfs::types::{Errno, Host, InodeAltKey, NamespaceAlias, EACCES, EROFS, ROOT_INODE};

const LINUX: Host = Host::Linux;
const ANCHOR: Host = Host::MacOs { anchor: true };
const VOLFS: Host = Host::MacOs { anchor: false };

const FILE: InodeAltKey = InodeAltKey { ino: 40, dev: 9 };
const OTHER: InodeAltKey = InodeAltKey { ino: 41, dev: 9 };

fn share(host: Host) -> PassthroughFs {
    PassthroughFs { host, readonly: false, reserved: None }
}

fn done(ret: i32) -> Reply {
    Reply::Sys { ret, errno: 0 }
}

fn refused(errno: i32) -> Reply {
    Reply::Sys { ret: -1, errno }
}

fn is(key: InodeAltKey) -> Reply {
    Reply::Identity(Ok(key))
}

fn opened(fd: i32) -> Reply {
    Reply::Opened(Ok(fd))
}

/// A removal of `f` in the root after `replies`.
fn unlinking(host: Host, replies: &[Reply]) -> Removal {
    let mut removal = do_unlink(&share(host), ROOT_INODE, b"f", Ok(())).unwrap();
    for reply in replies {
        removal.advance(*reply);
    }
    removal
}

fn removing_dir(host: Host, replies: &[Reply]) -> Removal {
    let mut removal = do_rmdir(&share(host), ROOT_INODE, b"f", Ok(())).unwrap();
    for reply in replies {
        removal.advance(*reply);
    }
    removal
}

/// A rename of `f` in the root to `g` in 5 after `replies`.
fn renaming(host: Host, flags: u32, replies: &[Reply]) -> Rename {
    let mut rename =
        do_rename(&share(host), ROOT_INODE, b"f", 5, b"g", flags, Ok(()), Ok(())).unwrap();
    for reply in replies {
        rename.advance(*reply);
    }
    rename
}

fn call(step: Step<Vec<u8>>) -> Call<Vec<u8>> {
    match step {
        Step::Call(call) => call,
        other => panic!("{other:?}"),
    }
}

fn finished(step: Step<Vec<u8>>) -> (Result<(), Errno>, Option<i32>) {
    match step {
        Step::Finished { result, close } => (result, close),
        other => panic!("{other:?}"),
    }
}

/// A table in which `f` of the root is inode 2, the directory `d` inode 3, and `d/g` inode 4.
fn table(host: Host) -> InodeTable {
    let mut table = InodeTable::new(InodeAltKey::new(1, 9));
    let at = |parent: u64, name: &[u8]| NamespaceAlias::new(parent, name);
    assert_eq!(table.record_lookup(host, at(1, b"f"), FILE), Some(2));
    assert_eq!(table.record_lookup(host, at(1, b"d"), InodeAltKey::new(50, 9)), Some(3));
    assert_eq!(table.record_lookup(host, at(3, b"g"), OTHER), Some(4));
    table
}

#[test]
fn requests_are_refused_in_order() {
    let name_error: Result<(), i32> = Err(22);
    let mut fs = share(LINUX);
    fs.reserved = Some(init_entry());
    fs.readonly = true;
    let begun = do_unlink(&fs, 1, b"init.krun", name_error);
    assert_eq!(begun.err(), Some(Errno::Guest(22)));
    let begun = do_rmdir(&fs, 1, b"init.krun", name_error);
    assert_eq!(begun.err(), Some(Errno::Guest(22)));
    let begun = do_rename(&fs, 1, b"a", 1, b"b", 0, Ok(()), Err(36));
    assert_eq!(begun.err(), Some(Errno::Guest(36)));
    let begun = do_rename(&fs, 1, b"a", 1, b"b", 0, Err(22), Err(36));
    assert_eq!(begun.err(), Some(Errno::Guest(22)));
    let begun = do_unlink(&fs, 1, b"init.krun", Ok(()));
    assert_eq!(begun.err(), Some(Errno::Guest(EROFS)));
    fs.readonly = false;
    let begun = do_unlink(&fs, 1, b"init.krun", Ok(()));
    assert_eq!(begun.err(), Some(Errno::Guest(EACCES)));
    assert!(do_unlink(&fs, 2, b"init.krun", Ok(())).is_ok());
    assert!(do_unlink(&fs, 1, b"init.krum", Ok(())).is_ok());
    fs.reserved = None;
    assert!(do_unlink(&fs, 1, b"init.krun", Ok(())).is_ok());
}

#[test]
fn reserved_name_is_known() {
    let entry = init_entry();
    assert_eq!(entry.parent, ROOT_INODE);
    assert_eq!(entry.name, b"init.krun");
    let mut fs = share(VOLFS);
    assert!(!fs.is_reserved_init_name(1, b"init.krun"));
    fs.reserved = Some(entry);
    assert!(fs.is_reserved_init_name(1, b"init.krun"));
    assert!(!fs.is_reserved_init_name(1, b"init"));
    assert!(!fs.is_reserved_init_name(7, b"init.krun"));
    assert!(!fs.anchor_mode());
    assert!(!share(LINUX).anchor_mode());
    assert!(share(ANCHOR).anchor_mode());
}

#[test]
fn error_numbers_are_the_guests() {
    assert_eq!(passthroughfs::types::ENOENT, libc::ENOENT);
    assert_eq!((EACCES, EROFS), (13, 30));
}

#[test]
fn linux_unlink_probes_with_a_path_descriptor() {
    let removal = unlinking(LINUX, &[]);
    assert!(matches!(call(removal.step()), Call::OpenInode { inode: 1 }));
    let removal = unlinking(LINUX, &[opened(10)]);
    match call(removal.step()) {
        Call::OpenAt { dir, name, flags } => {
            assert_eq!((dir, &name[..]), (10, &b"f"[..]));
            let expected = OpenFlags {
                path: true,
                directory: false,
                nonblock: false,
                nofollow: true,
                cloexec: true,
            };
            assert_eq!(flags, expected);
        }
        other => panic!("{other:?}"),
    }
    let removal = unlinking(LINUX, &[opened(10), done(11)]);
    assert!(matches!(call(removal.step()), Call::Identify { fd: 11 }));
    let removal = unlinking(LINUX, &[opened(10), done(11), is(FILE)]);
    match call(removal.step()) {
        Call::UnlinkAt { dir, name, remove_dir } => {
            assert_eq!((dir, &name[..], remove_dir), (10, &b"f"[..], false));
        }
        other => panic!("{other:?}"),
    }
    let removal = unlinking(LINUX, &[opened(10), done(11), is(FILE), done(0)]);
    assert!(matches!(removal.step(), Step::Settle));
    assert!(matches!(removal.stage, RemovalStage::Settle { fd: Some(11), key: FILE }));
}

#[test]
fn linux_removal_failures() {
    let removal = unlinking(LINUX, &[Reply::Opened(Err(9))]);
    assert_eq!(finished(removal.step()), (Err(Errno::Guest(9)), None));
    let removal = unlinking(LINUX, &[opened(10), done(11), Reply::Identity(Err(5))]);
    assert_eq!(finished(removal.step()), (Err(Errno::Guest(5)), Some(11)));
    let removal = unlinking(LINUX, &[opened(10), done(11), is(FILE), refused(1)]);
    assert_eq!(finished(removal.step()), (Err(Errno::Host(1)), Some(11)));
    // Where the probe fails the removal goes on without a descriptor.
    let removal = unlinking(LINUX, &[opened(10), refused(13)]);
    assert!(matches!(call(removal.step()), Call::UnlinkAt { .. }));
    let removal = unlinking(LINUX, &[opened(10), refused(13), done(0)]);
    assert_eq!(finished(removal.step()), (Ok(()), None));
    let removal = unlinking(LINUX, &[opened(10), refused(2), refused(2)]);
    assert_eq!(finished(removal.step()), (Err(Errno::Host(2)), None));
}

#[test]
fn linux_rmdir_probes_a_directory() {
    let removal = removing_dir(LINUX, &[opened(10)]);
    assert_eq!(removal.kind, EntryKind::Directory);
    match call(removal.step()) {
        Call::OpenAt { flags, .. } => assert!(flags.path && flags.directory),
        other => panic!("{other:?}"),
    }
    let removal = removing_dir(LINUX, &[opened(10), done(11), is(FILE)]);
    assert!(matches!(call(removal.step()), Call::UnlinkAt { remove_dir: true, .. }));
    // The error is read after the close, which puts its own in the place if it fails.
    let refusal = [opened(10), done(11), is(FILE), refused(39)];
    let removal = removing_dir(LINUX, &refusal);
    assert!(matches!(call(removal.step()), Call::Close { fd: 11 }));
    let removal = removing_dir(LINUX, &[&refusal[..], &[Reply::Closed(Ok(()))]].concat());
    assert_eq!(finished(removal.step()), (Err(Errno::Host(39)), None));
    let removal = removing_dir(LINUX, &[&refusal[..], &[Reply::Closed(Err(5))]].concat());
    assert_eq!(finished(removal.step()), (Err(Errno::Host(5)), None));
    let removal = removing_dir(LINUX, &[opened(10), refused(20), refused(20)]);
    assert_eq!(finished(removal.step()), (Err(Errno::Host(20)), None));
}

#[test]
fn a_reply_of_another_kind_changes_nothing() {
    let removal = unlinking(LINUX, &[is(FILE), done(3), opened(10), opened(12)]);
    assert!(matches!(call(removal.step()), Call::OpenAt { dir: 10, .. }));
    let rename = renaming(LINUX, 0, &[done(3), opened(10), Reply::Closed(Err(5))]);
    assert!(matches!(call(rename.step()), Call::OpenInode { inode: 5 }));
}

#[test]
fn a_replaced_target_with_another_name_is_let_go() {
    for host in [LINUX, ANCHOR] {
        let mut inodes = table(host);
        inodes.register_alias(4, NamespaceAlias::new(1, b"second"));
        let outcome = settle(host, 0, Some(Target { key: OTHER, fd: Some(12) }), &mut inodes);
        assert_eq!(outcome.close, Some(12));
        assert_eq!(names(&inodes, 4), vec![(1, b"second".to_vec())]);
        assert_eq!(inodes.get(4).unwrap().unlinked, None);
    }
}

#[test]
fn an_exchange_of_forgotten_directories_swaps_and_swaps_back() {
    for host in [LINUX, ANCHOR] {
        // `f` and `d/g` are directories that only their children hold.
        let mut inodes = table(host);
        let under = |parent: u64| NamespaceAlias::new(parent, b"child");
        assert_eq!(inodes.record_lookup(host, under(2), InodeAltKey::new(60, 9)), Some(5));
        assert_eq!(inodes.record_lookup(host, under(4), InodeAltKey::new(61, 9)), Some(6));
        assert!(inodes.forget(2, 1).is_empty() && inodes.forget(4, 1).is_empty());
        settle(host, 2, Some(Target { key: OTHER, fd: None }), &mut inodes);
        assert_eq!(names(&inodes, 2), vec![(3, b"g".to_vec())]);
        assert_eq!(names(&inodes, 4), vec![(1, b"f".to_vec())]);
        let back = Rename {
            host,
            flags: 2,
            from: NamespaceAlias::new(1, b"f"),
            to: NamespaceAlias::new(3, b"g"),
            stage: RenameStage::Settle {
                source: OTHER,
                target: Some(Target { key: FILE, fd: None }),
            },
        };
        assert!(back.settle(&mut inodes).gone.is_empty());
        assert_eq!(names(&inodes, 2), vec![(1, b"f".to_vec())]);
        assert_eq!(names(&inodes, 4), vec![(3, b"g".to_vec())]);
    }
}

#[test]
fn anchored_unlink_keeps_only_the_file_it_identified() {
    let removal = unlinking(ANCHOR, &[opened(10)]);
    assert!(matches!(call(removal.step()), Call::IdentifyAt { dir: 10, .. }));
    let removal = unlinking(ANCHOR, &[opened(10), is(FILE)]);
    match call(removal.step()) {
        Call::OpenAt { flags, .. } => assert!(!flags.path && !flags.nonblock && flags.nofollow),
        other => panic!("{other:?}"),
    }
    let so_far = [opened(10), is(FILE), done(11), done(0)];
    let removal = unlinking(ANCHOR, &so_far);
    assert!(matches!(call(removal.step()), Call::Identify { fd: 11 }));

    let mut same = unlinking(ANCHOR, &so_far);
    same.advance(is(FILE));
    assert!(matches!(same.stage, RemovalStage::Settle { fd: Some(11), key: FILE }));

    // Another file took the name between the two calls: its descriptor is closed, and the
    // alias of the file that was identified still goes.
    for answer in [is(OTHER), Reply::Identity(Err(5))] {
        let mut replaced = unlinking(ANCHOR, &so_far);
        replaced.advance(answer);
        assert!(matches!(call(replaced.step()), Call::Close { fd: 11 }));
        replaced.advance(Reply::Closed(Ok(())));
        assert!(matches!(replaced.stage, RemovalStage::Settle { fd: None, key: FILE }));
        let mut inodes = table(ANCHOR);
        let outcome = replaced.settle(&mut inodes);
        assert_eq!(outcome.close, None);
        assert!(outcome.gone.is_empty());
        let data = inodes.get(2).unwrap();
        assert!(data.aliases.is_empty());
        assert_eq!(data.unlinked_fd(), -1);
    }
}

#[test]
fn anchored_unlink_of_an_unidentified_entry() {
    let replies = [opened(10), Reply::Identity(Err(5)), done(11), done(0), is(FILE)];
    let mut removal = unlinking(ANCHOR, &replies);
    assert!(matches!(call(removal.step()), Call::Close { fd: 11 }));
    removal.advance(Reply::Closed(Ok(())));
    assert_eq!(finished(removal.step()), (Ok(()), None));
}

#[test]
fn anchored_unlink_refused_by_the_host() {
    let removal = unlinking(ANCHOR, &[opened(10), is(FILE), done(11), refused(13)]);
    assert_eq!(finished(removal.step()), (Err(Errno::Host(13)), Some(11)));
}

#[test]
fn macos_rmdir_opens_nothing() {
    let removal = removing_dir(VOLFS, &[opened(10)]);
    assert!(matches!(call(removal.step()), Call::UnlinkAt { dir: 10, remove_dir: true, .. }));
    let removal = removing_dir(VOLFS, &[opened(10), done(0)]);
    assert_eq!(finished(removal.step()), (Ok(()), None));
    let removal = removing_dir(ANCHOR, &[opened(10), is(FILE)]);
    assert!(matches!(call(removal.step()), Call::UnlinkAt { remove_dir: true, .. }));
    let removal = removing_dir(ANCHOR, &[opened(10), is(FILE), done(0)]);
    assert!(matches!(removal.stage, RemovalStage::Settle { fd: None, key: FILE }));
    let removal = removing_dir(ANCHOR, &[opened(10), is(FILE), refused(66)]);
    assert_eq!(finished(removal.step()), (Err(Errno::Host(66)), None));
}

#[test]
fn volfs_unlink_asks_which_file_it_holds() {
    let removal = unlinking(VOLFS, &[opened(10)]);
    assert!(matches!(call(removal.step()), Call::OpenAt { .. }));
    let removal = unlinking(VOLFS, &[opened(10), done(11), done(0)]);
    assert!(matches!(call(removal.step()), Call::Identify { fd: 11 }));
    let removal = unlinking(VOLFS, &[opened(10), done(11), done(0), Reply::Identity(Err(5))]);
    assert_eq!(finished(removal.step()), (Ok(()), Some(11)));
    let removal = unlinking(VOLFS, &[opened(10), done(11), done(0), is(FILE)]);
    let mut inodes = table(VOLFS);
    let outcome = removal.settle(&mut inodes);
    assert_eq!(outcome.close, None);
    assert_eq!(inodes.get(2).unwrap().unlinked_fd(), 11);
}

#[test]
fn settled_removal_of_an_unknown_file_closes() {
    for host in [LINUX, VOLFS] {
        let mut inodes = table(host);
        let removal = Removal {
            host,
            kind: EntryKind::File,
            entry: NamespaceAlias::new(1, b"x"),
            stage: RemovalStage::Settle { fd: Some(11), key: InodeAltKey::new(77, 9) },
        };
        let outcome = removal.settle(&mut inodes);
        assert_eq!(outcome.close, Some(11));
        assert!(outcome.gone.is_empty());
    }
}

#[test]
fn settled_removal_of_an_unrecorded_entry() {
    // The entry was never looked up: the other alias stays and nothing is kept.
    let mut inodes = table(LINUX);
    let removal = Removal {
        host: LINUX,
        kind: EntryKind::File,
        entry: NamespaceAlias::new(1, b"second name"),
        stage: RemovalStage::Settle { fd: Some(11), key: FILE },
    };
    let outcome = removal.settle(&mut inodes);
    assert_eq!(outcome.close, Some(11));
    assert_eq!(inodes.get(2).unwrap().aliases.len(), 1);
    assert_eq!(inodes.get(2).unwrap().unlinked, None);
}

#[test]
fn a_displaced_descriptor_is_closed() {
    let mut inodes = table(VOLFS);
    assert_eq!(inodes.store_unlinked_fd(2, 8), None);
    let removal = Removal {
        host: VOLFS,
        kind: EntryKind::File,
        entry: NamespaceAlias::new(1, b"f"),
        stage: RemovalStage::Settle { fd: Some(11), key: FILE },
    };
    assert_eq!(removal.settle(&mut inodes).close, Some(8));
    assert_eq!(inodes.get(2).unwrap().unlinked_fd(), 11);
}

#[test]
fn flags_are_translated() {
    assert_eq!(translate_flags(0), 0);
    assert_eq!(translate_flags(1), 4);
    assert_eq!(translate_flags(2), 2);
    assert_eq!(translate_flags(3), 6);
    assert_eq!(translate_flags(4), 0);
    assert_eq!(translate_flags(0xffff_fffd), 4);
}

#[test]
fn each_host_has_its_rename_call() {
    let of = |rename: Rename| match call(rename.step()) {
        Call::Rename { old_dir, old_name, new_dir, new_name, call } => {
            assert_eq!((old_dir, &old_name[..]), (10, &b"f"[..]));
            assert_eq!((new_dir, &new_name[..]), (20, &b"g"[..]));
            call
        }
        other => panic!("{other:?}"),
    };
    let dirs = [opened(10), opened(20)];
    assert_eq!(of(renaming(VOLFS, 0, &dirs)), RenameCall::Renameat);
    assert_eq!(of(renaming(VOLFS, 1, &dirs)), RenameCall::RenameatxNp { flags: 4 });
    assert_eq!(of(renaming(VOLFS, 8, &dirs)), RenameCall::RenameatxNp { flags: 0 });
    let known = [opened(10), opened(20), done(11), is(FILE), Reply::Closed(Ok(())), refused(2)];
    assert_eq!(of(renaming(LINUX, 5, &known)), RenameCall::Renameat2 { flags: 5 });
    assert_eq!(of(renaming(LINUX, 0, &known)), RenameCall::Renameat2 { flags: 0 });
    let known = [opened(10), opened(20), is(FILE), Reply::Identity(Err(2))];
    assert_eq!(of(renaming(ANCHOR, 2, &known)), RenameCall::RenameatxNp { flags: 2 });
}

#[test]
fn linux_rename_step_by_step() {
    let rename = renaming(LINUX, 0, &[]);
    assert!(matches!(call(rename.step()), Call::OpenInode { inode: 1 }));
    let rename = renaming(LINUX, 0, &[opened(10)]);
    assert!(matches!(call(rename.step()), Call::OpenInode { inode: 5 }));
    let mut replies = vec![opened(10), opened(20)];
    match call(renaming(LINUX, 0, &replies).step()) {
        Call::OpenAt { dir: 10, name, flags } => {
            assert_eq!(name, b"f");
            assert!(flags.path && !flags.nonblock && flags.nofollow && flags.cloexec);
        }
        other => panic!("{other:?}"),
    }
    replies.push(done(11));
    assert!(matches!(call(renaming(LINUX, 0, &replies).step()), Call::Identify { fd: 11 }));
    replies.push(is(FILE));
    assert!(matches!(call(renaming(LINUX, 0, &replies).step()), Call::Close { fd: 11 }));
    replies.push(Reply::Closed(Ok(())));
    match call(renaming(LINUX, 0, &replies).step()) {
        Call::OpenAt { dir: 20, name, .. } => assert_eq!(name, b"g"),
        other => panic!("{other:?}"),
    }
    replies.push(done(12));
    assert!(matches!(call(renaming(LINUX, 0, &replies).step()), Call::Identify { fd: 12 }));
    replies.push(is(OTHER));
    replies.push(done(0));
    let rename = renaming(LINUX, 0, &replies);
    assert!(matches!(
        rename.stage,
        RenameStage::Settle { source: FILE, target: Some(Target { key: OTHER, fd: Some(12) }) }
    ));
}

#[test]
fn linux_rename_failures() {
    let guest = |errno: i32, close: Option<i32>| (Err(Errno::Guest(errno)), close);
    let host = |errno: i32, close: Option<i32>| (Err(Errno::Host(errno)), close);
    let end = |replies: &[Reply]| finished(renaming(LINUX, 0, replies).step());
    let failed = Reply::Identity(Err(5));
    assert_eq!(end(&[Reply::Opened(Err(9))]), guest(9, None));
    assert_eq!(end(&[opened(10), Reply::Opened(Err(2))]), guest(2, None));
    let dirs = [opened(10), opened(20)];
    assert_eq!(end(&[&dirs[..], &[refused(2)]].concat()), host(2, None));
    assert_eq!(end(&[&dirs[..], &[done(11), failed]].concat()), guest(5, Some(11)));
    let source = [&dirs[..], &[done(11), is(FILE), Reply::Closed(Ok(()))]].concat();
    assert_eq!(end(&[&source[..], &[refused(13)]].concat()), host(13, None));
    assert_eq!(end(&[&source[..], &[done(12), failed]].concat()), guest(5, Some(12)));
    let target = [&source[..], &[done(12), is(OTHER), refused(18)]].concat();
    assert!(matches!(call(renaming(LINUX, 0, &target).step()), Call::Close { fd: 12 }));
    // The error is read after the close, which puts its own in the place if it fails.
    let closed = [&target[..], &[Reply::Closed(Ok(()))]].concat();
    assert_eq!(end(&closed), host(18, None));
    let unclosed = [&target[..], &[Reply::Closed(Err(5))]].concat();
    assert_eq!(end(&unclosed), host(5, None));
    assert_eq!(end(&[&source[..], &[refused(2), refused(18)]].concat()), host(18, None));
}

#[test]
fn anchored_rename_keeps_only_the_file_it_identified() {
    let so_far = [opened(10), opened(20), is(FILE), is(OTHER)];
    match call(renaming(ANCHOR, 0, &so_far).step()) {
        Call::OpenAt { dir: 20, flags, .. } => assert!(!flags.path && flags.nonblock),
        other => panic!("{other:?}"),
    }
    let probed = [&so_far[..], &[done(12)]].concat();
    assert!(matches!(call(renaming(ANCHOR, 0, &probed).step()), Call::Identify { fd: 12 }));
    let same = renaming(ANCHOR, 0, &[&probed[..], &[is(OTHER), done(0)]].concat());
    assert!(matches!(
        same.stage,
        RenameStage::Settle { source: FILE, target: Some(Target { key: OTHER, fd: Some(12) }) }
    ));
    for answer in [is(FILE), Reply::Identity(Err(5))] {
        let mut replaced = renaming(ANCHOR, 0, &[&probed[..], &[answer]].concat());
        assert!(matches!(call(replaced.step()), Call::Close { fd: 12 }));
        replaced.advance(Reply::Closed(Ok(())));
        replaced.advance(done(0));
        assert!(matches!(
            replaced.stage,
            RenameStage::Settle { source: FILE, target: Some(Target { key: OTHER, fd: None }) }
        ));
    }
    // A target that cannot be opened is replaced all the same.
    let unopened = renaming(ANCHOR, 0, &[&so_far[..], &[refused(62), done(0)]].concat());
    assert!(matches!(
        unopened.stage,
        RenameStage::Settle { target: Some(Target { key: OTHER, fd: None }), .. }
    ));
}

#[test]
fn anchored_rename_failures() {
    let end = |replies: &[Reply]| finished(renaming(ANCHOR, 0, replies).step());
    let dirs = [opened(10), opened(20)];
    let missing = Reply::Identity(Err(2));
    let failed = Reply::Identity(Err(5));
    assert_eq!(end(&[&dirs[..], &[missing]].concat()), (Err(Errno::Guest(2)), None));
    assert_eq!(end(&[&dirs[..], &[is(FILE), failed]].concat()), (Err(Errno::Guest(5)), None));
    let known = [&dirs[..], &[is(FILE), is(OTHER), done(12), is(OTHER)]].concat();
    assert_eq!(end(&[&known[..], &[refused(66)]].concat()), (Err(Errno::Host(66)), Some(12)));
    let absent = [&dirs[..], &[is(FILE), missing]].concat();
    assert_eq!(end(&[&absent[..], &[refused(18)]].concat()), (Err(Errno::Host(18)), None));
}

#[test]
fn volfs_rename_ends_without_the_table() {
    let rename = renaming(VOLFS, 0, &[opened(10), opened(20), done(0)]);
    assert_eq!(finished(rename.step()), (Ok(()), None));
    let rename = renaming(VOLFS, 3, &[opened(10), opened(20), refused(22)]);
    assert_eq!(finished(rename.step()), (Err(Errno::Host(22)), None));
}

/// Settles a rename of `f` in the root, which is `FILE`, to `g` in inode 3.
fn settle(host: Host, flags: u32, target: Option<Target>, inodes: &mut InodeTable) -> Outcome {
    let rename = Rename {
        host,
        flags,
        from: NamespaceAlias::new(1, b"f"),
        to: NamespaceAlias::new(3, b"g"),
        stage: RenameStage::Settle { source: FILE, target },
    };
    rename.settle(inodes)
}

fn names(inodes: &InodeTable, inode: u64) -> Vec<(u64, Vec<u8>)> {
    inodes.get(inode).unwrap().aliases.iter().map(|a| (a.parent, a.name.clone())).collect()
}

#[test]
fn settled_rename_moves_the_source() {
    for host in [LINUX, ANCHOR] {
        let mut inodes = table(host);
        let target = Target { key: OTHER, fd: Some(12) };
        let outcome = settle(host, 0, Some(target), &mut inodes);
        assert_eq!(outcome.close, None);
        assert!(outcome.gone.is_empty());
        assert_eq!(names(&inodes, 2), vec![(3, b"g".to_vec())]);
        assert!(names(&inodes, 4).is_empty());
        assert_eq!(inodes.get(4).unwrap().unlinked_fd(), 12);
        assert_eq!(names(&inodes, 3), vec![(1, b"d".to_vec())]);
    }
}

#[test]
fn settled_rename_without_a_descriptor_or_target() {
    let mut inodes = table(ANCHOR);
    let outcome = settle(ANCHOR, 0, Some(Target { key: OTHER, fd: None }), &mut inodes);
    assert_eq!(outcome.close, None);
    assert!(names(&inodes, 4).is_empty());
    assert_eq!(inodes.get(4).unwrap().unlinked, None);

    let mut inodes = table(LINUX);
    let outcome = settle(LINUX, 0, None, &mut inodes);
    assert_eq!(outcome.close, None);
    assert_eq!(names(&inodes, 2), vec![(3, b"g".to_vec())]);
    assert_eq!(names(&inodes, 4), vec![(3, b"g".to_vec())]);

    // A target that the guest does not know is let go.
    let mut inodes = table(LINUX);
    let unknown = Target { key: InodeAltKey::new(77, 9), fd: Some(12) };
    assert_eq!(settle(LINUX, 0, Some(unknown), &mut inodes).close, Some(12));
    assert_eq!(names(&inodes, 2), vec![(3, b"g".to_vec())]);
}

#[test]
fn settled_exchange_closes_the_target() {
    for host in [LINUX, ANCHOR] {
        let mut inodes = table(host);
        let target = Target { key: OTHER, fd: Some(12) };
        let outcome = settle(host, 2, Some(target), &mut inodes);
        assert_eq!(outcome.close, Some(12));
        assert_eq!(names(&inodes, 2), vec![(3, b"g".to_vec())]);
        assert_eq!(names(&inodes, 4), vec![(1, b"f".to_vec())]);
        assert_eq!(inodes.get(4).unwrap().unlinked, None);
    }
}

#[test]
fn settled_rename_of_one_file_onto_itself() {
    let target = Some(Target { key: FILE, fd: Some(12) });
    for (host, flags) in [(ANCHOR, 0), (ANCHOR, 2), (LINUX, 2)] {
        let mut inodes = table(host);
        assert_eq!(settle(host, flags, target, &mut inodes).close, Some(12));
        assert_eq!(names(&inodes, 2), vec![(1, b"f".to_vec())]);
    }
    let mut inodes = table(LINUX);
    assert_eq!(settle(LINUX, 0, target, &mut inodes).close, Some(12));
    assert_eq!(names(&inodes, 2), vec![(3, b"g".to_vec())]);
}

#[test]
fn anchored_rename_into_a_forgotten_directory_keeps_it() {
    let mut inodes = table(ANCHOR);
    // Only `g` holds the directory, and the rename takes that alias away.
    assert!(inodes.forget(3, 1).is_empty());
    let target = Target { key: OTHER, fd: Some(12) };
    let outcome = settle(ANCHOR, 0, Some(target), &mut inodes);
    assert!(outcome.gone.is_empty());
    assert!(inodes.get(3).is_some());
    assert_eq!(names(&inodes, 2), vec![(3, b"g".to_vec())]);
}

#[test]
fn dropped_records_hand_out_their_descriptors() {
    let mut inodes = table(ANCHOR);
    assert_eq!(inodes.store_unlinked_fd(3, 30), None);
    assert!(inodes.forget(3, 1).is_empty());
    let removal = Removal {
        host: ANCHOR,
        kind: EntryKind::File,
        entry: NamespaceAlias::new(3, b"g"),
        stage: RemovalStage::Settle { fd: Some(11), key: OTHER },
    };
    let outcome = removal.settle(&mut inodes);
    assert_eq!(outcome.close, None);
    assert_eq!(outcome.gone.len(), 1);
    let dropped = &outcome.gone[0];
    assert_eq!((dropped.inode, dropped.unlinked, dropped.lookups), (3, Some(30), 0));
    assert_eq!(dropped.key, InodeAltKey::new(50, 9));
    assert_eq!((dropped.anchor_parent(), dropped.anchor_name()), (1, &b"d"[..]));
    assert_eq!(inodes.get(4).unwrap().unlinked_fd(), 11);
}
