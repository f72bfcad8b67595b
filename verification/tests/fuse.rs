use ferumfs::fuse::attr::AttrHandler;
use ferumfs::fuse::convert::FuseFileType;
use ferumfs::fuse::dir::DirHandler;
use ferumfs::fuse::file::FileHandler;
use ferumfs::fuse::filesystem::DistributedFUSE;
use ferumfs::fuse::handles::HandleManager;
use ferumfs::fuse::inode::{InodeInfo, InodeManager};
use std::sync::Arc;

fn file_info(ino: u64, parent: u64, name: &str, size: u64) -> InodeInfo {
    InodeInfo { ino, parent, name: name.to_string(), kind: FuseFileType::RegularFile, size, mode: 0o644 }
}

#[test]
fn new_manager_holds_root() {
    let m = InodeManager::new();
    let root = m.get_inode(1).unwrap();
    assert_eq!(root.ino, 1);
    assert_eq!(root.parent, 1);
    assert_eq!(root.name, "");
    assert_eq!(root.kind, FuseFileType::Directory);
    assert_eq!(root.mode, 0o755);
    assert!(m.get_inode(2).is_none());
}

#[test]
fn add_lookup_remove() {
    let mut m = InodeManager::new();
    let ino = m.alloc_inode();
    // the root holds 1, so numbering starts after it
    assert_eq!(ino, 2);
    assert_eq!(m.alloc_inode(), 3);
    m.add_inode(1, "a.txt".to_string(), file_info(5, 1, "a.txt", 10)).unwrap();
    assert_eq!(m.lookup(1, "a.txt"), Some(5));
    assert_eq!(m.lookup(2, "a.txt"), None);
    assert_eq!(m.get_inode(5).unwrap().size, 10);
    m.remove_inode(1, "a.txt").unwrap();
    assert_eq!(m.lookup(1, "a.txt"), None);
    assert!(m.get_inode(5).is_none());
    m.remove_inode(1, "missing").unwrap();
    assert!(m.get_inode(1).is_some());
}

#[test]
fn handles_open_and_release() {
    let mut h = HandleManager::new();
    let a = h.alloc_handle(10);
    let b = h.alloc_handle(20);
    assert_eq!(a, 1);
    assert_eq!(b, 2);
    assert_eq!(h.get_inode(a), Some(10));
    assert_eq!(h.get_inode(b), Some(20));
    h.release_handle(a);
    assert_eq!(h.get_inode(a), None);
    assert_eq!(h.get_inode(b), Some(20));
}

#[test]
fn getattr_rounds_blocks_up() {
    let mut m = InodeManager::new();
    m.add_inode(1, "f".to_string(), file_info(2, 1, "f", 513)).unwrap();
    m.add_inode(1, "g".to_string(), file_info(3, 1, "g", 512)).unwrap();
    let h = AttrHandler::new(Arc::new(m));
    let f = h.getattr(2).unwrap();
    assert_eq!(f.blocks, 2);
    assert_eq!(f.nlink, 1);
    assert_eq!(f.perm, 0o644);
    assert_eq!(f.blksize, 4096);
    assert_eq!(h.getattr(3).unwrap().blocks, 1);
    let root = h.getattr(1).unwrap();
    assert_eq!(root.blocks, 0);
    assert_eq!(root.nlink, 2);
    assert!(h.getattr(9).is_none());
    assert_eq!(h.init(), 16384);
}

#[test]
fn lookup_reports_zero_blocks() {
    let mut m = InodeManager::new();
    m.add_inode(1, "f".to_string(), file_info(2, 1, "f", 5000)).unwrap();
    m.add_inode(1, "dangling".to_string(), file_info(7, 1, "dangling", 0)).unwrap();
    m.remove_inode(1, "dangling").unwrap();
    let d = DirHandler::new(Arc::new(m));
    let a = d.lookup(1, "f").unwrap();
    assert_eq!(a.ino, 2);
    assert_eq!(a.size, 5000);
    assert_eq!(a.blocks, 0);
    assert!(d.lookup(1, "dangling").is_none());
    assert!(d.lookup(2, "f").is_none());
}

#[test]
fn readdir_lists_dot_entries_from_offset() {
    let mut m = InodeManager::new();
    m.add_inode(1, "d".to_string(), InodeInfo {
        ino: 4,
        parent: 1,
        name: "d".to_string(),
        kind: FuseFileType::Directory,
        size: 0,
        mode: 0o755,
    })
    .unwrap();
    let d = DirHandler::new(Arc::new(m));
    let all = d.readdir(4, 0);
    assert_eq!(all.len(), 2);
    assert_eq!(all[0].name, ".");
    assert_eq!(all[0].inode, 4);
    assert_eq!(all[0].offset, 1);
    assert_eq!(all[1].name, "..");
    assert_eq!(all[1].inode, 1);
    assert_eq!(all[1].offset, 2);
    let rest = d.readdir(4, 1);
    assert_eq!(rest.len(), 1);
    assert_eq!(rest[0].name, "..");
    assert!(d.readdir(4, 2).is_empty());
    assert!(d.readdir(4, -1).is_empty());
    // an unknown inode lists the root as its parent
    assert_eq!(d.readdir(99, 0)[1].inode, 1);
}

#[test]
fn file_handler_opens_fresh_handles() {
    let mut f = FileHandler::new(Arc::new(InodeManager::new()), HandleManager::new());
    assert_eq!(f.open(1, 0o2), (1, 0o2));
    assert_eq!(f.open(1, 0), (2, 0));
}

#[test]
fn filesystem_delegates() {
    let mut fs = DistributedFUSE::new();
    assert_eq!(fs.init(), 16384);
    let root = fs.getattr(1).unwrap();
    assert_eq!(root.kind, FuseFileType::Directory);
    assert!(fs.lookup(1, "nothing").is_none());
    assert_eq!(fs.open(1, 0).0, 1);
    assert_eq!(fs.open(1, 0).0, 2);
    let listing = fs.readdir(1, 0);
    assert_eq!(listing[1].inode, 1);
}

#[test]
fn released_handle_is_not_reissued() {
    let mut h = HandleManager::new();
    let a = h.alloc_handle(3);
    h.release_handle(a);
    let b = h.alloc_handle(3);
    assert_ne!(a, b);
    assert_eq!(b, 2);
}

#[test]
fn allocated_inode_is_not_the_root() {
    let mut m = InodeManager::new();
    let ino = m.alloc_inode();
    assert!(m.get_inode(ino).is_none());
    assert_ne!(ino, 1);
}
