use crate::fuse::convert::FuseFileType;
use crate::fuse::inode::{InodeInfoView, InodeManager, InodeManagerView};
use std::sync::Arc;
use vstd::prelude::*;

verus! {

/// How long, in seconds, the kernel may cache attributes it was given.
pub const ATTR_TTL_SECS: u64 = 1;

/// The largest write, in bytes, the filesystem accepts in one request.
pub const MAX_WRITE: u32 = 16 * 1024;

/// The preferred I/O block size reported for every inode.
pub const BLKSIZE: u32 = 4096;

/// The attributes reported for an inode, less its timestamps.
#[derive(Debug, Clone, Copy, PartialEq, Eq, Structural)]
pub struct NodeAttr {
    pub ino: u64,
    pub size: u64,
    pub blocks: u64,
    pub kind: FuseFileType,
    pub perm: u16,
    pub nlink: u32,
    pub uid: u32,
    pub gid: u32,
    pub rdev: u32,
    pub blksize: u32,
}

/// The number of 512-byte units that `size` bytes occupy, rounded up.
pub open spec fn blocks_for(size: u64) -> int {
    (size + 511) / 512
}

/// The attributes reported for the inode `info`, with `blocks` as its
/// block count: directories have two links, everything else one, and
/// owner and device are all zero.
pub open spec fn attr_of(info: InodeInfoView, blocks: u64) -> NodeAttr {
    NodeAttr {
        ino: info.ino,
        size: info.size,
        blocks: blocks,
        kind: info.kind,
        perm: info.mode,
        nlink: if info.kind == FuseFileType::Directory { 2 } else { 1 },
        uid: 0,
        gid: 0,
        rdev: 0,
        blksize: BLKSIZE,
    }
}

/// The attributes reported for a record carry the record's own inode
/// number, kind, size and permission bits, the block count given, two links
/// for a directory and one for anything else, and no owner or device.
pub proof fn lemma_attr_reports_record(info: InodeInfoView, blocks: u64)
    ensures
        attr_of(info, blocks).ino == info.ino,
        attr_of(info, blocks).kind == info.kind,
        attr_of(info, blocks).size == info.size,
        attr_of(info, blocks).perm == info.mode,
        attr_of(info, blocks).blocks == blocks,
        info.kind == FuseFileType::Directory ==> attr_of(info, blocks).nlink == 2,
        info.kind != FuseFileType::Directory ==> attr_of(info, blocks).nlink == 1,
        attr_of(info, blocks).uid == 0 && attr_of(info, blocks).gid == 0 && attr_of(info, blocks).rdev == 0,
        attr_of(info, blocks).blksize == BLKSIZE,
{
}

/// A byte count's block count is the least number of 512-byte units that
/// hold it.
pub proof fn lemma_blocks_cover_size(size: u64)
    ensures
        blocks_for(size) * 512 >= size,
        blocks_for(size) == 0 || (blocks_for(size) - 1) * 512 < size,
{
}

/// The attributes of an inode record, with the given block count.
pub(crate) fn node_attr(info: &crate::fuse::inode::InodeInfo, blocks: u64) -> (a: NodeAttr)
    ensures
        a == attr_of(info@, blocks),
{
    NodeAttr {
        ino: info.ino,
        size: info.size,
        blocks,
        kind: info.kind,
        perm: info.mode,
        nlink: if info.kind == FuseFileType::Directory { 2 } else { 1 },
        uid: 0,
        gid: 0,
        rdev: 0,
        blksize: BLKSIZE,
    }
}

/// Answers attribute requests from the inode table.
pub struct AttrHandler {
    inode_manager: Arc<InodeManager>,
}

impl View for AttrHandler {
    type V = InodeManagerView;

    closed spec fn view(&self) -> InodeManagerView {
        self.inode_manager@
    }
}

impl AttrHandler {
    pub fn new(inode_manager: Arc<InodeManager>) -> (h: Self)
        ensures
            h@ == inode_manager@,
    {
        Self { inode_manager }
    }

    /// The largest write the filesystem accepts, announced at mount time.
    pub fn init(&self) -> (max_write: u32)
        ensures
            max_write == MAX_WRITE,
    {
        MAX_WRITE
    }

    /// The attributes of inode `inode`, with its size counted in 512-byte
    /// blocks rounded up; `None` when there is no such inode.
    pub fn getattr(&self, inode: u64) -> (r: Option<NodeAttr>)
        ensures
            match r {
                Some(a) => self@.inodes.contains_key(inode) && a == attr_of(
                    self@.inodes[inode],
                    blocks_for(self@.inodes[inode].size) as u64,
                ),
                None => !self@.inodes.contains_key(inode),
            },
            r matches Some(a) ==> {
                let info = self@.inodes[inode];
                &&& a.ino == info.ino
                &&& a.kind == info.kind
                &&& a.size == info.size
                &&& a.perm == info.mode
                &&& a.blocks as int == (info.size + 511) / 512
                &&& a.nlink == (if info.kind == FuseFileType::Directory { 2u32 } else { 1u32 })
            },
    {
        match self.inode_manager.get_inode(inode) {
            Some(info) => {
                let blocks = info.size / 512 + if info.size % 512 != 0 { 1 } else { 0 };
                assert(blocks == blocks_for(info.size));
                Some(node_attr(&info, blocks))
            },
            None => None,
        }
    }
}

} // verus!
