use crate::fuse::handles::{alloc_handle_post, HandleManager, HandleManagerView};
use crate::fuse::inode::{InodeManager, InodeManagerView};
use std::sync::Arc;
use vstd::prelude::*;

verus! {

/// Answers open requests: hands out a file handle per open.
pub struct FileHandler {
    inode_manager: Arc<InodeManager>,
    handle_manager: HandleManager,
}

impl FileHandler {
    /// The inode tables this handler reads.
    pub closed spec fn inodes(&self) -> InodeManagerView {
        self.inode_manager@
    }

    /// The handles this handler has open.
    pub closed spec fn handles(&self) -> HandleManagerView {
        self.handle_manager@
    }

    pub fn new(inode_manager: Arc<InodeManager>, handle_manager: HandleManager) -> (h: Self)
        ensures
            h.inodes() == inode_manager@,
            h.handles() == handle_manager@,
    {
        Self { inode_manager, handle_manager }
    }

    /// Opens inode `inode`: a fresh handle on it, and the open flags given.
    pub fn open(&mut self, inode: u64, flags: u32) -> (r: (u64, u32))
        ensures
            alloc_handle_post(old(self).handles(), inode, final(self).handles(), r.0),
            forall|k: u64|
                k != r.0 ==> (#[trigger] final(self).handles().handles.contains_key(k) == old(self).handles().handles.contains_key(k)
                    && (old(self).handles().handles.contains_key(k) ==> final(self).handles().handles[k] == old(self).handles().handles[k])),
            final(self).handles().handles.contains_key(r.0) && final(self).handles().handles[r.0] == inode,
            old(self).handles().wf() ==> !old(self).handles().handles.contains_key(r.0),
            old(self).handles().wf() && 1 <= old(self).handles().next < u64::MAX ==> final(self).handles().wf(),
            r.1 == flags,
            final(self).inodes() == old(self).inodes(),
    {
        let fh = self.handle_manager.alloc_handle(inode);
        (fh, flags)
    }
}

} // verus!
