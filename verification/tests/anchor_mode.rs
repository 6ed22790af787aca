//! The operations on a small host file system held in memory.

use std::cell::RefCell;
use std::collections::BTreeMap;

use passthroughfs::calls::{Call, OpenFlags, Outcome, RenameCall, Reply, Step};
use passthroughfs::fs::{init_entry, PassthroughFs};
use passthroughfs::inode_table::{InodeData, InodeTable};
use passthroughfs::remove_ops::{do_rename, do_rmdir, do_unlink};
use passthroughfs::types::{
    Errno, Host, InodeAltKey, NamespaceAlias, EACCES, EROFS, ENOENT, ROOT_INODE,
};

const DEV: u64 = 7;
const FIRST_INO: u64 = 100;

enum Content {
    Dir(BTreeMap<Vec<u8>, usize>),
    File(Vec<u8>),
    Symlink,
}

/// Files by number, and the open descriptors.
struct Disk {
    nodes: Vec<Content>,
    fds: BTreeMap<i32, usize>,
    next_fd: i32,
    log: Vec<String>,
}

impl Disk {
    fn new() -> Disk {
        Disk {
            nodes: vec![Content::Dir(BTreeMap::new())],
            fds: BTreeMap::new(),
            next_fd: 3,
            log: Vec::new(),
        }
    }

    fn key(&self, node: usize) -> InodeAltKey {
        InodeAltKey::new(FIRST_INO + node as u64, DEV)
    }

    fn node_of(&self, key: InodeAltKey) -> usize {
        (key.ino - FIRST_INO) as usize
    }

    fn entries(&self, node: usize) -> Result<&BTreeMap<Vec<u8>, usize>, i32> {
        match &self.nodes[node] {
            Content::Dir(entries) => Ok(entries),
            _ => Err(libc::ENOTDIR),
        }
    }

    fn entries_mut(&mut self, node: usize) -> &mut BTreeMap<Vec<u8>, usize> {
        match &mut self.nodes[node] {
            Content::Dir(entries) => entries,
            _ => panic!("no directory"),
        }
    }

    fn child(&self, dir: usize, name: &[u8]) -> Result<usize, i32> {
        self.entries(dir)?.get(name).copied().ok_or(libc::ENOENT)
    }

    /// The node of a path below the root, directories on the way made as needed.
    fn make(&mut self, path: &str, content: Content) -> usize {
        let mut content = Some(content);
        let parts: Vec<&str> = path.split('/').collect();
        let mut at = 0;
        for (depth, part) in parts.iter().enumerate() {
            at = match self.child(at, part.as_bytes()) {
                Ok(node) => node,
                Err(_) => {
                    let node = self.nodes.len();
                    if depth + 1 == parts.len() {
                        self.nodes.push(content.take().unwrap());
                    } else {
                        self.nodes.push(Content::Dir(BTreeMap::new()));
                    }
                    self.entries_mut(at).insert(part.as_bytes().to_vec(), node);
                    node
                }
            };
        }
        at
    }

    fn open(&mut self, node: usize) -> i32 {
        let fd = self.next_fd;
        self.next_fd += 1;
        self.fds.insert(fd, node);
        fd
    }

    fn open_at(&mut self, dir: i32, name: &[u8], flags: OpenFlags) -> Result<i32, i32> {
        let node = self.child(self.fds[&dir], name)?;
        match self.nodes[node] {
            Content::Symlink if !flags.path => return Err(libc::ELOOP),
            Content::Dir(_) => {}
            _ if flags.directory => return Err(libc::ENOTDIR),
            _ => {}
        }
        Ok(self.open(node))
    }

    fn unlink_at(&mut self, dir: i32, name: &[u8], remove_dir: bool) -> Result<(), i32> {
        let dir = self.fds[&dir];
        let node = self.child(dir, name)?;
        match (&self.nodes[node], remove_dir) {
            (Content::Dir(_), false) => return Err(libc::EISDIR),
            (Content::Dir(entries), true) if !entries.is_empty() => return Err(libc::ENOTEMPTY),
            (Content::Dir(_), true) => {}
            (_, true) => return Err(libc::ENOTDIR),
            (_, false) => {}
        }
        self.entries_mut(dir).remove(name);
        Ok(())
    }

    fn rename(
        &mut self,
        old: (i32, &[u8]),
        new: (i32, &[u8]),
        no_replace: bool,
        exchange: bool,
    ) -> Result<(), i32> {
        let (old_dir, new_dir) = (self.fds[&old.0], self.fds[&new.0]);
        let source = self.child(old_dir, old.1)?;
        let target = self.child(new_dir, new.1);
        if exchange {
            let target = target?;
            self.entries_mut(old_dir).insert(old.1.to_vec(), target);
            self.entries_mut(new_dir).insert(new.1.to_vec(), source);
            return Ok(());
        }
        if no_replace && target.is_ok() {
            return Err(libc::EEXIST);
        }
        if target == Ok(source) {
            return Ok(());
        }
        self.entries_mut(old_dir).remove(old.1);
        self.entries_mut(new_dir).insert(new.1.to_vec(), source);
        Ok(())
    }

    fn close(&mut self, fd: i32) {
        assert!(self.fds.remove(&fd).is_some(), "descriptor {fd} closed twice");
    }
}

struct Found {
    inode: u64,
}

struct Stat {
    st_size: i64,
    st_mode: u32,
}

struct DirEntry {
    name: Vec<u8>,
}

struct TestSandbox {
    fs: PassthroughFs,
    inodes: RefCell<InodeTable>,
    disk: RefCell<Disk>,
}

impl TestSandbox {
    fn on(host: Host) -> TestSandbox {
        let disk = Disk::new();
        let table = InodeTable::new(disk.key(0));
        TestSandbox {
            fs: PassthroughFs { host, readonly: false, reserved: Some(init_entry()) },
            inodes: RefCell::new(table),
            disk: RefCell::new(disk),
        }
    }

    fn new() -> TestSandbox {
        TestSandbox::on(Host::MacOs { anchor: false })
    }

    fn with_anchor_mode() -> TestSandbox {
        TestSandbox::on(Host::MacOs { anchor: true })
    }

    fn on_linux() -> TestSandbox {
        TestSandbox::on(Host::Linux)
    }

    fn host_create_dir(&self, path: &str) {
        self.disk.borrow_mut().make(path, Content::Dir(BTreeMap::new()));
    }

    fn host_create_file(&self, path: &str, data: &[u8]) -> usize {
        self.disk.borrow_mut().make(path, Content::File(data.to_vec()))
    }

    fn host_symlink(&self, path: &str) {
        self.disk.borrow_mut().make(path, Content::Symlink);
    }

    fn host_hard_link(&self, node: usize, name: &str) {
        self.disk.borrow_mut().entries_mut(0).insert(name.as_bytes().to_vec(), node);
    }

    fn host_has(&self, name: &str) -> bool {
        self.disk.borrow().child(0, name.as_bytes()).is_ok()
    }

    fn lookup_root(&self, name: &str) -> Result<Found, i32> {
        self.lookup(ROOT_INODE, name)
    }

    fn lookup(&self, parent: u64, name: &str) -> Result<Found, i32> {
        let dir = self.open_inode(parent)?;
        let found = self.identify_at(dir, name.as_bytes());
        self.disk.borrow_mut().close(dir);
        let alias = NamespaceAlias::new(parent, name.as_bytes());
        let inode = self.inodes.borrow_mut().record_lookup(self.fs.host, alias, found?).unwrap();
        Ok(Found { inode })
    }

    fn identify_at(&self, dir: i32, name: &[u8]) -> Result<InodeAltKey, i32> {
        let disk = self.disk.borrow();
        Ok(disk.key(disk.child(disk.fds[&dir], name)?))
    }

    /// The file of an inode: the descriptor kept for it, or in anchor mode what its recorded
    /// entry names, provided that it is still the same file.
    fn node(&self, inode: u64) -> Result<usize, i32> {
        if inode == ROOT_INODE {
            return Ok(0);
        }
        let inodes = self.inodes.borrow();
        let data: &InodeData = inodes.get(inode).ok_or(libc::EBADF)?;
        let disk = self.disk.borrow();
        if data.unlinked_fd() >= 0 {
            return Ok(disk.fds[&data.unlinked_fd()]);
        }
        if self.fs.anchor_mode() {
            let dir = self.node(data.anchor_parent())?;
            let node = disk.child(dir, data.anchor_name())?;
            if disk.key(node) == data.key {
                Ok(node)
            } else {
                Err(libc::ENOENT)
            }
        } else {
            Ok(disk.node_of(data.key))
        }
    }

    fn open_inode(&self, inode: u64) -> Result<i32, i32> {
        let node = self.node(inode)?;
        Ok(self.disk.borrow_mut().open(node))
    }

    fn fuse_open(&self, inode: u64, _flags: u32) -> Result<i32, i32> {
        self.open_inode(inode)
    }

    fn fuse_opendir(&self, inode: u64) -> Result<i32, i32> {
        self.open_inode(inode)
    }

    fn fuse_read(
        &self,
        _inode: u64,
        handle: i32,
        size: usize,
        offset: usize,
    ) -> Result<Vec<u8>, i32> {
        let disk = self.disk.borrow();
        match &disk.nodes[disk.fds[&handle]] {
            Content::File(data) => {
                Ok(data.iter().skip(offset).take(size).copied().collect())
            }
            _ => Err(libc::EISDIR),
        }
    }

    fn getattr(&self, inode: u64) -> Result<(Stat, ()), i32> {
        let node = self.node(inode)?;
        let disk = self.disk.borrow();
        let st = match &disk.nodes[node] {
            Content::Dir(_) => Stat { st_size: 0, st_mode: libc::S_IFDIR as u32 | 0o755 },
            Content::File(data) => {
                Stat { st_size: data.len() as i64, st_mode: libc::S_IFREG as u32 | 0o644 }
            }
            Content::Symlink => Stat { st_size: 0, st_mode: libc::S_IFLNK as u32 | 0o777 },
        };
        Ok((st, ()))
    }

    fn readdir(&self, _inode: u64, handle: i32) -> Result<Vec<DirEntry>, i32> {
        let disk = self.disk.borrow();
        let entries = disk.entries(disk.fds[&handle])?;
        Ok(entries.keys().map(|name| DirEntry { name: name.clone() }).collect())
    }

    fn forget(&self, inode: u64, count: u64) {
        let gone = self.inodes.borrow_mut().forget(inode, count);
        self.release(gone);
    }

    fn release(&self, gone: Vec<InodeData>) {
        for data in gone {
            if let Some(fd) = data.unlinked {
                self.disk.borrow_mut().close(fd);
            }
        }
    }

    fn perform(&self, call: Call<Vec<u8>>, dirs: &mut Vec<i32>) -> Reply {
        fn sys(done: Result<i32, i32>) -> Reply {
            match done {
                Ok(ret) => Reply::Sys { ret, errno: 0 },
                Err(errno) => Reply::Sys { ret: -1, errno },
            }
        }
        self.disk.borrow_mut().log.push(format!("{call:?}"));
        match call {
            Call::OpenInode { inode } => {
                let opened = self.open_inode(inode);
                if let Ok(fd) = opened {
                    dirs.push(fd);
                }
                Reply::Opened(opened)
            }
            Call::OpenAt { dir, name, flags } => {
                sys(self.disk.borrow_mut().open_at(dir, &name, flags))
            }
            Call::IdentifyAt { dir, name } => Reply::Identity(self.identify_at(dir, &name)),
            Call::Identify { fd } => {
                let disk = self.disk.borrow();
                Reply::Identity(Ok(disk.key(disk.fds[&fd])))
            }
            Call::UnlinkAt { dir, name, remove_dir } => {
                sys(self.disk.borrow_mut().unlink_at(dir, &name, remove_dir).map(|()| 0))
            }
            Call::Rename { old_dir, old_name, new_dir, new_name, call } => {
                let (no_replace, exchange) = match call {
                    RenameCall::Renameat2 { flags } => (flags & 1 != 0, flags & 2 != 0),
                    RenameCall::Renameat => (false, false),
                    RenameCall::RenameatxNp { flags } => (flags & 4 != 0, flags & 2 != 0),
                };
                let done = self.disk.borrow_mut().rename(
                    (old_dir, &old_name),
                    (new_dir, &new_name),
                    no_replace,
                    exchange,
                );
                sys(done.map(|()| 0))
            }
            Call::Close { fd } => {
                self.disk.borrow_mut().close(fd);
                Reply::Closed(Ok(()))
            }
        }
    }

    fn finish(&self, dirs: Vec<i32>, outcome: Outcome) {
        for fd in dirs.into_iter().chain(outcome.close) {
            self.disk.borrow_mut().close(fd);
        }
        self.release(outcome.gone);
    }

    fn unlink(&self, parent: u64, name: &str) -> Result<(), i32> {
        self.remove(do_unlink(&self.fs, parent, name.as_bytes(), Ok(())))
    }

    fn rmdir(&self, parent: u64, name: &str) -> Result<(), i32> {
        self.remove(do_rmdir(&self.fs, parent, name.as_bytes(), Ok(())))
    }

    fn remove(&self, begun: Result<passthroughfs::removal::Removal, Errno>) -> Result<(), i32> {
        let mut removal = begun.map_err(number)?;
        let mut dirs = Vec::new();
        loop {
            match removal.step() {
                Step::Call(call) => {
                    let reply = self.perform(call, &mut dirs);
                    removal.advance(reply);
                }
                Step::Settle => {
                    let outcome = removal.settle(&mut self.inodes.borrow_mut());
                    self.finish(dirs, outcome);
                    return Ok(());
                }
                Step::Finished { result, close } => {
                    self.finish(dirs, Outcome { close, gone: Vec::new() });
                    return result.map_err(number);
                }
            }
        }
    }

    fn rename(
        &self,
        olddir: u64,
        oldname: &str,
        newdir: u64,
        newname: &str,
        flags: u32,
    ) -> Result<(), i32> {
        let mut rename = do_rename(
            &self.fs,
            olddir,
            oldname.as_bytes(),
            newdir,
            newname.as_bytes(),
            flags,
            Ok(()),
            Ok(()),
        )
        .map_err(number)?;
        let mut dirs = Vec::new();
        loop {
            match rename.step() {
                Step::Call(call) => {
                    let reply = self.perform(call, &mut dirs);
                    rename.advance(reply);
                }
                Step::Settle => {
                    let outcome = rename.settle(&mut self.inodes.borrow_mut());
                    self.finish(dirs, outcome);
                    return Ok(());
                }
                Step::Finished { result, close } => {
                    self.finish(dirs, Outcome { close, gone: Vec::new() });
                    return result.map_err(number);
                }
            }
        }
    }

    /// How many descriptors are open.
    fn open_fds(&self) -> usize {
        self.disk.borrow().fds.len()
    }

    fn calls(&self) -> usize {
        self.disk.borrow().log.len()
    }

    /// The aliases of an inode, as parent and name.
    fn aliases(&self, inode: u64) -> Vec<(u64, String)> {
        let inodes = self.inodes.borrow();
        let data = inodes.get(inode).unwrap();
        data.aliases
            .iter()
            .map(|a| (a.parent, String::from_utf8(a.name.clone()).unwrap()))
            .collect()
    }
}

fn number(errno: Errno) -> i32 {
    match errno {
        Errno::Host(number) | Errno::Guest(number) => number,
    }
}

/// Without anchor mode the share does not report it.
#[test]
fn test_probe_reports_volfs_on_apfs_tempdir() {
    let sb = TestSandbox::new();
    assert!(!sb.fs.anchor_mode());
}

/// A share in anchor mode reports it.
#[test]
fn test_with_anchor_mode_forces_anchor_mode() {
    let sb = TestSandbox::with_anchor_mode();
    assert!(sb.fs.anchor_mode());
}

/// In anchor mode a lookup records the entry on the inode.
#[test]
fn test_lookup_registers_alias_in_anchor_mode() {
    let sb = TestSandbox::with_anchor_mode();
    sb.host_create_dir("a");
    sb.host_create_file("a/f.txt", b"x");
    let a = sb.lookup_root("a").unwrap();
    let f = sb.lookup(a.inode, "f.txt").unwrap();

    let inodes = sb.inodes.borrow();
    let data = inodes.get(f.inode).unwrap();
    assert_eq!(data.anchor_parent(), a.inode);
    assert_eq!(data.anchor_name(), b"f.txt");
    assert_eq!(data.aliases.len(), 1);
}

/// In volfs mode no alias is recorded.
#[test]
fn test_lookup_records_no_alias_in_volfs_mode() {
    let sb = TestSandbox::new();
    sb.host_create_file("f.txt", b"x");
    let f = sb.lookup_root("f.txt").unwrap();
    let inodes = sb.inodes.borrow();
    let data = inodes.get(f.inode).unwrap();
    assert_eq!(data.anchor_parent(), 0);
    assert!(data.aliases.is_empty());
}

/// A nested file is read by way of its recorded entries.
#[test]
fn test_anchor_read_nested_file() {
    let sb = TestSandbox::with_anchor_mode();
    sb.host_create_dir("a/b/c");
    sb.host_create_file("a/b/c/deep.txt", b"deep");
    let a = sb.lookup_root("a").unwrap();
    let b = sb.lookup(a.inode, "b").unwrap();
    let c = sb.lookup(b.inode, "c").unwrap();
    let f = sb.lookup(c.inode, "deep.txt").unwrap();
    let h = sb.fuse_open(f.inode, libc::O_RDONLY as u32).unwrap();
    assert_eq!(&sb.fuse_read(f.inode, h, 64, 0).unwrap()[..], b"deep");
}

/// Attributes are read by way of the recorded entry.
#[test]
fn test_anchor_getattr_after_lookup() {
    let sb = TestSandbox::with_anchor_mode();
    sb.host_create_file("g.txt", b"12345");
    let g = sb.lookup_root("g.txt").unwrap();
    let (st, _) = sb.getattr(g.inode).unwrap();
    assert_eq!(st.st_size, 5);
}

/// A nested directory is listed by way of its recorded entry.
#[test]
fn test_anchor_readdir_nested() {
    let sb = TestSandbox::with_anchor_mode();
    sb.host_create_dir("d");
    sb.host_create_file("d/one", b"1");
    sb.host_create_file("d/two", b"2");
    let d = sb.lookup_root("d").unwrap();
    let h = sb.fuse_opendir(d.inode).unwrap();
    let entries = sb.readdir(d.inode, h).unwrap();
    let mut names: Vec<Vec<u8>> = entries.iter().map(|e| e.name.to_vec()).collect();
    names.sort();
    assert!(names.contains(&b"one".to_vec()));
    assert!(names.contains(&b"two".to_vec()));
}

/// A path of twelve levels resolves.
#[test]
fn test_anchor_twelve_levels() {
    let sb = TestSandbox::with_anchor_mode();
    let path = "l1/l2/l3/l4/l5/l6/l7/l8/l9/l10/l11";
    sb.host_create_dir(path);
    sb.host_create_file(&format!("{path}/leaf"), b"leaf");
    let mut parent = ROOT_INODE;
    for comp in path.split('/') {
        parent = sb.lookup(parent, comp).unwrap().inode;
    }
    let leaf = sb.lookup(parent, "leaf").unwrap();
    let h = sb.fuse_open(leaf.inode, libc::O_RDONLY as u32).unwrap();
    assert_eq!(&sb.fuse_read(leaf.inode, h, 16, 0).unwrap()[..], b"leaf");
}

/// The root has no recorded entry and resolves all the same.
#[test]
fn test_anchor_root_getattr() {
    let sb = TestSandbox::with_anchor_mode();
    let (st, _) = sb.getattr(ROOT_INODE).unwrap();
    assert_eq!(st.st_mode & libc::S_IFMT as u32, libc::S_IFDIR as u32);
}

/// The root can be listed.
#[test]
fn test_anchor_root_readdir() {
    let sb = TestSandbox::with_anchor_mode();
    sb.host_create_file("marker.txt", b"x");
    let h = sb.fuse_opendir(ROOT_INODE).unwrap();
    let entries = sb.readdir(ROOT_INODE, h).unwrap();
    let names: Vec<Vec<u8>> = entries.iter().map(|e| e.name.to_vec()).collect();
    assert!(names.contains(&b"marker.txt".to_vec()));
}

/// A forgotten directory stays while a child is found through it.
#[test]
fn test_anchor_parent_survives_forget_while_child_lives() {
    let sb = TestSandbox::with_anchor_mode();
    sb.host_create_dir("p");
    sb.host_create_file("p/child", b"c");
    let p = sb.lookup_root("p").unwrap();
    let child = sb.lookup(p.inode, "child").unwrap();

    sb.forget(p.inode, 1);
    assert!(sb.inodes.borrow().get(p.inode).is_some());

    let h = sb.fuse_open(child.inode, libc::O_RDONLY as u32).unwrap();
    assert_eq!(&sb.fuse_read(child.inode, h, 8, 0).unwrap()[..], b"c");

    // Forgetting the child releases the parent too.
    sb.forget(child.inode, 1);
    assert!(sb.inodes.borrow().get(child.inode).is_none());
    assert!(sb.inodes.borrow().get(p.inode).is_none());
}

/// In volfs mode a forgotten inode goes at once.
#[test]
fn test_volfs_forget_removes_immediately() {
    let sb = TestSandbox::new();
    sb.host_create_dir("q");
    sb.host_create_file("q/child", b"c");
    let q = sb.lookup_root("q").unwrap();
    let _child = sb.lookup(q.inode, "child").unwrap();
    sb.forget(q.inode, 1);
    assert!(sb.inodes.borrow().get(q.inode).is_none());
}

/// After a rename the inode is reopened through its new name.
#[test]
fn test_anchor_rename_then_read() {
    let sb = TestSandbox::with_anchor_mode();
    sb.host_create_file("old.txt", b"same");
    let f = sb.lookup_root("old.txt").unwrap();
    sb.rename(ROOT_INODE, "old.txt", ROOT_INODE, "new.txt", 0).unwrap();
    let h = sb.fuse_open(f.inode, libc::O_RDONLY as u32).unwrap();
    assert_eq!(&sb.fuse_read(f.inode, h, 8, 0).unwrap()[..], b"same");
    let inodes = sb.inodes.borrow();
    let data = inodes.get(f.inode).unwrap();
    assert_eq!(data.anchor_name(), b"new.txt");
}

/// Renaming a directory moves what is found below it.
#[test]
fn test_anchor_rename_directory_moves_children() {
    let sb = TestSandbox::with_anchor_mode();
    sb.host_create_dir("dir1");
    sb.host_create_file("dir1/inner", b"in");
    let d = sb.lookup_root("dir1").unwrap();
    let inner = sb.lookup(d.inode, "inner").unwrap();
    sb.rename(ROOT_INODE, "dir1", ROOT_INODE, "dir2", 0).unwrap();
    let h = sb.fuse_open(inner.inode, libc::O_RDONLY as u32).unwrap();
    assert_eq!(&sb.fuse_read(inner.inode, h, 8, 0).unwrap()[..], b"in");
}

/// A replaced target stays readable through an open handle.
#[test]
fn test_anchor_rename_replaces_target() {
    let sb = TestSandbox::with_anchor_mode();
    sb.host_create_file("src", b"source");
    sb.host_create_file("dst", b"target");
    let src = sb.lookup_root("src").unwrap();
    let dst = sb.lookup_root("dst").unwrap();
    let dst_h = sb.fuse_open(dst.inode, libc::O_RDONLY as u32).unwrap();
    sb.rename(ROOT_INODE, "src", ROOT_INODE, "dst", 0).unwrap();
    assert_eq!(&sb.fuse_read(dst.inode, dst_h, 8, 0).unwrap()[..], b"target");
    let src_h = sb.fuse_open(src.inode, libc::O_RDONLY as u32).unwrap();
    assert_eq!(&sb.fuse_read(src.inode, src_h, 8, 0).unwrap()[..], b"source");
}

/// Unlinking drops the alias; a handle opened before still reads.
#[test]
fn test_anchor_unlink_keeps_open_handle() {
    let sb = TestSandbox::with_anchor_mode();
    sb.host_create_file("gone", b"kept");
    let g = sb.lookup_root("gone").unwrap();
    let h = sb.fuse_open(g.inode, libc::O_RDONLY as u32).unwrap();
    sb.unlink(ROOT_INODE, "gone").unwrap();
    assert_eq!(&sb.fuse_read(g.inode, h, 8, 0).unwrap()[..], b"kept");
    let inodes = sb.inodes.borrow();
    let data = inodes.get(g.inode).unwrap();
    assert!(data.aliases.is_empty());
    assert!(data.unlinked_fd() >= 0);
}

/// Removing a directory drops its alias.
#[test]
fn test_anchor_rmdir_drops_alias() {
    let sb = TestSandbox::with_anchor_mode();
    sb.host_create_dir("empty");
    let e = sb.lookup_root("empty").unwrap();
    sb.rmdir(ROOT_INODE, "empty").unwrap();
    let inodes = sb.inodes.borrow();
    let data = inodes.get(e.inode).unwrap();
    assert!(data.aliases.is_empty());
    assert_eq!(data.anchor_parent(), 0);
}

/// Exchanging two links of one file leaves both aliases.
#[test]
fn test_anchor_exchange_same_inode_keeps_both_aliases() {
    let sb = TestSandbox::with_anchor_mode();
    let a = sb.host_create_file("a", b"linked");
    sb.host_hard_link(a, "b");
    let entry_a = sb.lookup_root("a").unwrap();
    let entry_b = sb.lookup_root("b").unwrap();
    assert_eq!(entry_a.inode, entry_b.inode);

    sb.rename(ROOT_INODE, "a", ROOT_INODE, "b", 2).unwrap();

    let inodes = sb.inodes.borrow();
    let data = inodes.get(entry_a.inode).unwrap();
    assert_eq!(data.aliases.len(), 2);
    drop(inodes);

    let h_a = sb.fuse_open(entry_a.inode, libc::O_RDONLY as u32).unwrap();
    assert_eq!(&sb.fuse_read(entry_a.inode, h_a, 8, 0).unwrap()[..], b"linked");
    let h_b = sb.fuse_open(entry_b.inode, libc::O_RDONLY as u32).unwrap();
    assert_eq!(&sb.fuse_read(entry_b.inode, h_b, 8, 0).unwrap()[..], b"linked");
}

/// A file unlinked by its last name is read through the descriptor that the table kept, and
/// that descriptor is released with the inode.
#[test]
fn unlinked_file_is_read_until_it_is_forgotten() {
    for host in [Host::Linux, Host::MacOs { anchor: true }, Host::MacOs { anchor: false }] {
        let sb = TestSandbox::on(host);
        sb.host_create_file("gone", b"kept");
        let g = sb.lookup_root("gone").unwrap();
        sb.unlink(ROOT_INODE, "gone").unwrap();
        assert!(!sb.host_has("gone"));
        assert_eq!(sb.open_fds(), 1);
        let h = sb.fuse_open(g.inode, 0).unwrap();
        assert_eq!(&sb.fuse_read(g.inode, h, 8, 0).unwrap()[..], b"kept");
        sb.disk.borrow_mut().close(h);
        sb.forget(g.inode, 1);
        assert!(sb.inodes.borrow().get(g.inode).is_none());
        assert_eq!(sb.open_fds(), 0);
    }
}

/// A file with another recorded name keeps no descriptor, and is found through that name.
#[test]
fn unlinking_one_of_two_names_keeps_the_other() {
    for sb in [TestSandbox::with_anchor_mode(), TestSandbox::on_linux()] {
        let node = sb.host_create_file("one", b"data");
        sb.host_hard_link(node, "two");
        let f = sb.lookup_root("one").unwrap();
        sb.lookup_root("two").unwrap();
        sb.unlink(ROOT_INODE, "one").unwrap();
        assert_eq!(sb.aliases(f.inode), vec![(ROOT_INODE, "two".to_string())]);
        assert_eq!(sb.inodes.borrow().get(f.inode).unwrap().unlinked_fd(), -1);
        assert_eq!(sb.open_fds(), 0);
        assert_eq!(sb.getattr(f.inode).unwrap().0.st_size, 4);
    }
}

/// A symbolic link cannot be opened for reading in anchor mode; its alias goes all the same.
#[test]
fn unlinking_a_symlink_drops_its_alias() {
    let sb = TestSandbox::with_anchor_mode();
    sb.host_symlink("link");
    let l = sb.lookup_root("link").unwrap();
    assert_eq!(sb.getattr(l.inode).unwrap().0.st_mode & libc::S_IFMT as u32, libc::S_IFLNK as u32);
    sb.unlink(ROOT_INODE, "link").unwrap();
    assert!(sb.aliases(l.inode).is_empty());
    assert_eq!(sb.inodes.borrow().get(l.inode).unwrap().unlinked, None);
    assert_eq!(sb.open_fds(), 0);
}

/// On Linux a removed directory is kept, on macOS it is not.
#[test]
fn rmdir_keeps_a_descriptor_on_linux_only() {
    for (host, kept) in [
        (Host::Linux, true),
        (Host::MacOs { anchor: true }, false),
        (Host::MacOs { anchor: false }, false),
    ] {
        let sb = TestSandbox::on(host);
        sb.host_create_dir("empty");
        let e = sb.lookup_root("empty").unwrap();
        sb.rmdir(ROOT_INODE, "empty").unwrap();
        assert!(!sb.host_has("empty"));
        assert_eq!(sb.inodes.borrow().get(e.inode).unwrap().unlinked_fd() >= 0, kept);
        assert_eq!(sb.open_fds(), if kept { 1 } else { 0 });
    }
}

/// What the host refuses is reported, and changes neither the table nor the descriptors.
#[test]
fn refused_removals_change_nothing() {
    for host in [Host::Linux, Host::MacOs { anchor: true }, Host::MacOs { anchor: false }] {
        let sb = TestSandbox::on(host);
        sb.host_create_file("d/inner", b"x");
        sb.host_create_file("f", b"x");
        let d = sb.lookup_root("d").unwrap();
        let before = sb.aliases(d.inode);
        assert_eq!(sb.rmdir(ROOT_INODE, "d"), Err(libc::ENOTEMPTY));
        assert_eq!(sb.unlink(ROOT_INODE, "d"), Err(libc::EISDIR));
        assert_eq!(sb.rmdir(ROOT_INODE, "f"), Err(libc::ENOTDIR));
        assert_eq!(sb.unlink(ROOT_INODE, "missing"), Err(libc::ENOENT));
        assert_eq!(sb.unlink(99, "f"), Err(libc::EBADF));
        assert_eq!(sb.aliases(d.inode), before);
        assert_eq!(sb.open_fds(), 0);
    }
}

/// The reserved entry is refused before the host is asked anything; the same name elsewhere
/// is not reserved.
#[test]
fn reserved_entry_is_left_alone() {
    let sb = TestSandbox::with_anchor_mode();
    sb.host_create_file("init.krun", b"init");
    sb.host_create_file("d/init.krun", b"other");
    sb.host_create_file("f", b"x");
    assert_eq!(sb.unlink(ROOT_INODE, "init.krun"), Err(EACCES));
    assert_eq!(sb.rmdir(ROOT_INODE, "init.krun"), Err(EACCES));
    assert_eq!(sb.rename(ROOT_INODE, "init.krun", ROOT_INODE, "g", 0), Err(EACCES));
    assert_eq!(sb.rename(ROOT_INODE, "f", ROOT_INODE, "init.krun", 0), Err(EACCES));
    assert_eq!(sb.calls(), 0);
    assert!(sb.host_has("init.krun") && sb.host_has("f"));
    let d = sb.lookup_root("d").unwrap();
    assert_eq!(sb.unlink(d.inode, "init.krun"), Ok(()));
}

/// A share that is read-only refuses every change.
#[test]
fn readonly_share_refuses_changes() {
    let mut sb = TestSandbox::on_linux();
    sb.fs.readonly = true;
    sb.host_create_file("f", b"x");
    sb.host_create_dir("d");
    assert_eq!(sb.unlink(ROOT_INODE, "f"), Err(EROFS));
    assert_eq!(sb.rmdir(ROOT_INODE, "d"), Err(EROFS));
    assert_eq!(sb.rename(ROOT_INODE, "f", ROOT_INODE, "g", 0), Err(EROFS));
    assert_eq!(sb.unlink(ROOT_INODE, "init.krun"), Err(EROFS));
    assert_eq!(sb.calls(), 0);
}

/// A replaced target keeps its data through the table, and the source takes the name.
#[test]
fn replaced_target_is_read_through_the_table() {
    for sb in [TestSandbox::with_anchor_mode(), TestSandbox::on_linux()] {
        sb.host_create_file("src", b"source");
        sb.host_create_file("dst", b"target");
        let src = sb.lookup_root("src").unwrap();
        let dst = sb.lookup_root("dst").unwrap();
        sb.rename(ROOT_INODE, "src", ROOT_INODE, "dst", 0).unwrap();
        assert_eq!(sb.aliases(src.inode), vec![(ROOT_INODE, "dst".to_string())]);
        assert!(sb.aliases(dst.inode).is_empty());
        assert_eq!(sb.open_fds(), 1);
        let h = sb.fuse_open(dst.inode, 0).unwrap();
        assert_eq!(&sb.fuse_read(dst.inode, h, 8, 0).unwrap()[..], b"target");
        sb.disk.borrow_mut().close(h);
        sb.forget(dst.inode, 1);
        assert_eq!(sb.open_fds(), 0);
    }
}

/// In volfs mode a rename asks for nothing but the rename, and leaves the table alone.
#[test]
fn volfs_rename_leaves_the_table_alone() {
    let sb = TestSandbox::new();
    sb.host_create_file("src", b"source");
    sb.host_create_file("dst", b"target");
    let src = sb.lookup_root("src").unwrap();
    sb.rename(ROOT_INODE, "src", ROOT_INODE, "dst", 0).unwrap();
    assert_eq!(sb.calls(), 3);
    assert!(!sb.host_has("src"));
    assert!(sb.aliases(src.inode).is_empty());
    assert_eq!(sb.open_fds(), 0);
}

/// An exchange swaps the aliases, and a second one undoes it.
#[test]
fn exchange_swaps_and_swaps_back() {
    for sb in [TestSandbox::with_anchor_mode(), TestSandbox::on_linux()] {
        sb.host_create_file("a", b"first");
        sb.host_create_file("d/b", b"second");
        let d = sb.lookup_root("d").unwrap();
        let a = sb.lookup_root("a").unwrap();
        let b = sb.lookup(d.inode, "b").unwrap();
        sb.rename(ROOT_INODE, "a", d.inode, "b", 2).unwrap();
        assert_eq!(sb.aliases(a.inode), vec![(d.inode, "b".to_string())]);
        assert_eq!(sb.aliases(b.inode), vec![(ROOT_INODE, "a".to_string())]);
        assert_eq!(sb.getattr(a.inode).unwrap().0.st_size, 5);
        assert_eq!(sb.getattr(b.inode).unwrap().0.st_size, 6);
        sb.rename(ROOT_INODE, "a", d.inode, "b", 2).unwrap();
        assert_eq!(sb.aliases(a.inode), vec![(ROOT_INODE, "a".to_string())]);
        assert_eq!(sb.aliases(b.inode), vec![(d.inode, "b".to_string())]);
        assert_eq!(sb.open_fds(), 0);
    }
}

/// An exchange with a missing target fails, as does a rename that must not replace.
#[test]
fn rename_flags_reach_the_host() {
    for host in [Host::Linux, Host::MacOs { anchor: true }, Host::MacOs { anchor: false }] {
        let sb = TestSandbox::on(host);
        sb.host_create_file("a", b"1");
        sb.host_create_file("b", b"2");
        assert_eq!(sb.rename(ROOT_INODE, "a", ROOT_INODE, "c", 2), Err(libc::ENOENT));
        assert_eq!(sb.rename(ROOT_INODE, "a", ROOT_INODE, "b", 1), Err(libc::EEXIST));
        assert_eq!(sb.rename(ROOT_INODE, "missing", ROOT_INODE, "b", 0), Err(libc::ENOENT));
        assert_eq!(sb.rename(ROOT_INODE, "a", 99, "b", 0), Err(libc::EBADF));
        assert_eq!(sb.rename(99, "a", ROOT_INODE, "b", 0), Err(libc::EBADF));
        assert_eq!(sb.open_fds(), 0);
        assert_eq!(sb.rename(ROOT_INODE, "a", ROOT_INODE, "c", 1), Ok(()));
        assert!(sb.host_has("c") && !sb.host_has("a"));
    }
}

/// In anchor mode renaming one link of a file onto another leaves both names.
#[test]
fn renaming_onto_another_link_keeps_both_aliases() {
    let sb = TestSandbox::with_anchor_mode();
    let node = sb.host_create_file("a", b"linked");
    sb.host_hard_link(node, "b");
    let a = sb.lookup_root("a").unwrap();
    sb.lookup_root("b").unwrap();
    sb.rename(ROOT_INODE, "a", ROOT_INODE, "b", 0).unwrap();
    assert!(sb.host_has("a") && sb.host_has("b"));
    assert_eq!(
        sb.aliases(a.inode),
        vec![(ROOT_INODE, "a".to_string()), (ROOT_INODE, "b".to_string())]
    );
    assert_eq!(sb.open_fds(), 0);
}

/// A forgotten directory stays when the only file found through it moves within it, and the
/// file stays readable.
#[test]
fn anchored_move_keeps_a_forgotten_parent() {
    let sb = TestSandbox::with_anchor_mode();
    sb.host_create_file("p/f", b"data");
    let p = sb.lookup_root("p").unwrap();
    let f = sb.lookup(p.inode, "f").unwrap();
    sb.forget(p.inode, 1);
    sb.rename(p.inode, "f", p.inode, "g", 0).unwrap();
    assert!(sb.inodes.borrow().get(p.inode).is_some());
    assert_eq!(sb.aliases(f.inode), vec![(p.inode, "g".to_string())]);
    assert_eq!(sb.getattr(f.inode).unwrap().0.st_size, 4);
}

/// A forgotten directory goes when the last file found through it moves away.
#[test]
fn move_releases_a_forgotten_old_parent() {
    for sb in [TestSandbox::with_anchor_mode(), TestSandbox::on_linux()] {
        sb.host_create_file("p/f", b"data");
        let p = sb.lookup_root("p").unwrap();
        let f = sb.lookup(p.inode, "f").unwrap();
        sb.forget(p.inode, 1);
        sb.rename(p.inode, "f", ROOT_INODE, "f", 0).unwrap();
        assert!(sb.inodes.borrow().get(p.inode).is_none());
        assert_eq!(sb.aliases(f.inode), vec![(ROOT_INODE, "f".to_string())]);
    }
}

/// Unlinking the last file found through a forgotten directory releases the directory.
#[test]
fn unlink_releases_a_forgotten_parent() {
    let sb = TestSandbox::with_anchor_mode();
    sb.host_create_file("p/f", b"data");
    let p = sb.lookup_root("p").unwrap();
    let f = sb.lookup(p.inode, "f").unwrap();
    sb.forget(p.inode, 1);
    sb.unlink(p.inode, "f").unwrap();
    assert!(sb.inodes.borrow().get(p.inode).is_none());
    assert!(sb.inodes.borrow().get(f.inode).is_some());
    assert_eq!(sb.open_fds(), 1);
}

/// A second link made by the guest is the same inode.
#[test]
fn linked_file_is_one_inode() {
    let sb = TestSandbox::with_anchor_mode();
    let node = sb.host_create_file("lnk/orig", b"linked");
    let d = sb.lookup_root("lnk").unwrap();
    let orig = sb.lookup(d.inode, "orig").unwrap();
    sb.host_hard_link(node, "copy");
    let copy = sb.lookup_root("copy").unwrap();
    assert_eq!(copy.inode, orig.inode);
    assert_eq!(
        sb.aliases(orig.inode),
        vec![(d.inode, "orig".to_string()), (ROOT_INODE, "copy".to_string())]
    );
    assert_eq!(ENOENT, libc::ENOENT);
}

/// A forgotten directory that a live child holds stays in the table when it moves, and the
/// child is found below it.
#[test]
fn moved_directory_is_held_by_its_child() {
    for sb in [TestSandbox::with_anchor_mode(), TestSandbox::on_linux()] {
        sb.host_create_file("d/e/f", b"data");
        sb.host_create_dir("other");
        let x = sb.host_create_file("x", b"x");
        let d = sb.lookup_root("d").unwrap();
        let e = sb.lookup(d.inode, "e").unwrap();
        let f = sb.lookup(e.inode, "f").unwrap();
        let other = sb.lookup_root("other").unwrap();
        sb.forget(d.inode, 1);
        sb.forget(e.inode, 1);
        sb.rename(d.inode, "e", other.inode, "g", 0).unwrap();
        assert_eq!(sb.aliases(e.inode), vec![(other.inode, "g".to_string())]);
        assert!(sb.inodes.borrow().get(d.inode).is_none());
        assert_eq!(sb.getattr(f.inode).unwrap().0.st_size, 4);
        sb.rename(other.inode, "g", ROOT_INODE, "x", 2).unwrap();
        assert_eq!(sb.aliases(e.inode), vec![(ROOT_INODE, "x".to_string())]);
        assert_eq!(sb.disk.borrow().child(0, b"other").and_then(|node| {
            sb.disk.borrow().child(node, b"g")
        }), Ok(x));
        assert_eq!(sb.aliases(f.inode), vec![(e.inode, "f".to_string())]);
    }
}
