use crate::fuse::attr::{attr_of, blocks_for, AttrHandler, NodeAttr, MAX_WRITE};
use crate::fuse::dir::{listing, parent_of, skipped, DirEntry, DirHandler};
use crate::fuse::convert::FuseFileType;
use crate::fuse::file::FileHandler;
use crate::fuse::handles::{alloc_handle_post, HandleManager, HandleManagerView};
use crate::fuse::inode::{root_info, InodeManager, InodeManagerView, ROOT_INODE};
use std::sync::Arc;
use vstd::prelude::*;

verus! {

/// Calls `Arc::clone`: another pointer to the same inode manager.
#[verifier::external_body]
fn share(m: &Arc<InodeManager>) -> (r: Arc<InodeManager>)
    ensures
        r == *m,
{
    Arc::clone(m)
}

/// The filesystem: one inode manager shared by the attribute, directory and
/// file handlers, to which each request is delegated.
pub struct DistributedFUSE {
    inode_manager: Arc<InodeManager>,
    attr_handler: AttrHandler,
    dir_handler: DirHandler,
    file_handler: FileHandler,
}

impl DistributedFUSE {
    /// The inode tables the filesystem answers from.
    pub closed spec fn inodes(&self) -> InodeManagerView {
        self.inode_manager@
    }

    /// The file handles the filesystem has open.
    pub closed spec fn handles(&self) -> HandleManagerView {
        self.file_handler.handles()
    }

    /// All handlers read the one inode manager the filesystem holds.
    pub closed spec fn wf(&self) -> bool {
        &&& self.attr_handler@ == self.inode_manager@
        &&& self.dir_handler@ == self.inode_manager@
        &&& self.file_handler.inodes() == self.inode_manager@
    }

    /// A filesystem holding only its root directory, with no handle open.
    pub fn new() -> (fs: Self)
        ensures
            fs.wf(),
            fs.inodes().inodes == map![ROOT_INODE => root_info()],
            fs.inodes().names == Map::<(u64, Seq<char>), u64>::empty(),
            fs.handles().next == 1,
            fs.handles().handles == Map::<u64, u64>::empty(),
            fs.handles().wf(),
            fs.inodes().wf(),
            fs.inodes().next == ROOT_INODE + 1,
    {
        let inode_manager = Arc::new(InodeManager::new());
        let handle_manager = HandleManager::new();
        let attr_handler = AttrHandler::new(share(&inode_manager));
        let dir_handler = DirHandler::new(share(&inode_manager));
        let file_handler = FileHandler::new(share(&inode_manager), handle_manager);
        Self { inode_manager, attr_handler, dir_handler, file_handler }
    }

    /// The largest write the filesystem accepts, announced at mount time.
    pub fn init(&self) -> (max_write: u32)
        ensures
            max_write == MAX_WRITE,
    {
        self.attr_handler.init()
    }

    /// See [`AttrHandler::getattr`].
    pub fn getattr(&self, inode: u64) -> (r: Option<NodeAttr>)
        requires
            self.wf(),
        ensures
            match r {
                Some(a) => self.inodes().inodes.contains_key(inode) && a == attr_of(
                    self.inodes().inodes[inode],
                    blocks_for(self.inodes().inodes[inode].size) as u64,
                ),
                None => !self.inodes().inodes.contains_key(inode),
            },
            r matches Some(a) ==> {
                let info = self.inodes().inodes[inode];
                &&& a.ino == info.ino
                &&& a.kind == info.kind
                &&& a.size == info.size
                &&& a.perm == info.mode
                &&& a.blocks as int == (info.size + 511) / 512
                &&& a.nlink == (if info.kind == FuseFileType::Directory { 2u32 } else { 1u32 })
            },
    {
        self.attr_handler.getattr(inode)
    }

    /// See [`DirHandler::lookup`].
    pub fn lookup(&self, parent: u64, name: &str) -> (r: Option<NodeAttr>)
        requires
            self.wf(),
        ensures
            match r {
                Some(a) => {
                    &&& self.inodes().names.contains_key((parent, name@))
                    &&& self.inodes().inodes.contains_key(self.inodes().names[(parent, name@)])
                    &&& a == attr_of(self.inodes().inodes[self.inodes().names[(parent, name@)]], 0)
                },
                None => !self.inodes().names.contains_key((parent, name@))
                    || !self.inodes().inodes.contains_key(self.inodes().names[(parent, name@)]),
            },
            r matches Some(a) ==> {
                let info = self.inodes().inodes[self.inodes().names[(parent, name@)]];
                &&& a.ino == info.ino
                &&& a.kind == info.kind
                &&& a.size == info.size
                &&& a.perm == info.mode
                &&& a.blocks == 0
            },
    {
        self.dir_handler.lookup(parent, name)
    }

    /// See [`FileHandler::open`].
    pub fn open(&mut self, inode: u64, flags: u32) -> (r: (u64, u32))
        requires
            old(self).wf(),
        ensures
            final(self).wf(),
            alloc_handle_post(old(self).handles(), inode, final(self).handles(), r.0),
            forall|k: u64|
                k != r.0 ==> (#[trigger] final(self).handles().handles.contains_key(k) == old(self).handles().handles.contains_key(k)
                    && (old(self).handles().handles.contains_key(k) ==> final(self).handles().handles[k] == old(self).handles().handles[k])),
            final(self).handles().handles.contains_key(r.0) && final(self).handles().handles[r.0] == inode,
            old(self).handles().wf() ==> !old(self).handles().handles.contains_key(r.0),
            old(self).handles().wf() && 1 <= old(self).handles().next < u64::MAX ==> final(self).handles().wf(),
            r.1 == flags,
            final(self).inodes() == old(self).inodes(),
    {
        self.file_handler.open(inode, flags)
    }

    /// See [`DirHandler::readdir`].
    pub fn readdir(&self, inode: u64, offset: i64) -> (r: Vec<DirEntry>)
        requires
            self.wf(),
        ensures
            r@.map_values(|e: DirEntry| e@) == listing(inode, parent_of(self.inodes(), inode)).skip(
                skipped(offset),
            ),
            r@.len() > 0 ==> r@.last().inode == (if self.inodes().inodes.contains_key(inode) {
                self.inodes().inodes[inode].parent
            } else {
                ROOT_INODE
            }),
            r@.len() > 0 ==> r@.last().name@ == seq!['.', '.'],
            r@.len() == 2 ==> r@[0].inode == inode && r@[0].name@ == seq!['.'],
    {
        self.dir_handler.readdir(inode, offset)
    }
}

} // verus!
