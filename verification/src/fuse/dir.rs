use crate::fuse::attr::{attr_of, node_attr, NodeAttr};
use crate::fuse::convert::FuseFileType;
use crate::fuse::inode::{InodeManager, InodeManagerView, ROOT_INODE};
use std::sync::Arc;
use vstd::prelude::*;

verus! {

/// One entry of a directory listing; `offset` is the position of the entry
/// that follows it.
pub struct DirEntry {
    pub inode: u64,
    pub kind: FuseFileType,
    pub name: String,
    pub offset: i64,
}

pub struct DirEntryView {
    pub inode: u64,
    pub kind: FuseFileType,
    pub name: Seq<char>,
    pub offset: i64,
}

impl View for DirEntry {
    type V = DirEntryView;

    open spec fn view(&self) -> DirEntryView {
        DirEntryView { inode: self.inode, kind: self.kind, name: self.name@, offset: self.offset }
    }
}

/// The parent of inode `inode`: the one its record names, or the root when
/// it has no record.
pub open spec fn parent_of(m: InodeManagerView, inode: u64) -> u64 {
    if m.inodes.contains_key(inode) {
        m.inodes[inode].parent
    } else {
        ROOT_INODE
    }
}

/// The parent that a listing reports for an inode with a record is the
/// parent recorded for it; an inode without a record is listed under the
/// root.
pub proof fn lemma_parent_is_recorded_parent(m: InodeManagerView, i: u64)
    ensures
        m.inodes.contains_key(i) ==> parent_of(m, i) == m.inodes[i].parent,
        !m.inodes.contains_key(i) ==> parent_of(m, i) == ROOT_INODE,
{
}

/// The full listing of a directory is `.` naming the directory itself and
/// `..` naming the given parent, both directories, at offsets 1 and 2.
pub proof fn lemma_listing_entries(inode: u64, parent: u64)
    ensures
        listing(inode, parent).len() == 2,
        listing(inode, parent)[0].inode == inode,
        listing(inode, parent)[0].name == seq!['.'],
        listing(inode, parent)[0].offset == 1,
        listing(inode, parent)[1].inode == parent,
        listing(inode, parent)[1].name == seq!['.', '.'],
        listing(inode, parent)[1].offset == 2,
{
}

/// The full listing of directory `inode` whose parent is `parent`: the
/// entries `.` and `..`.
pub open spec fn listing(inode: u64, parent: u64) -> Seq<DirEntryView> {
    seq![
        DirEntryView { inode: inode, kind: FuseFileType::Directory, name: seq!['.'], offset: 1 },
        DirEntryView { inode: parent, kind: FuseFileType::Directory, name: seq!['.', '.'], offset: 2 },
    ]
}

/// How many entries of a listing are skipped for a request at `offset`:
/// the offset taken as an unsigned count, at most the whole listing.
pub open spec fn skipped(offset: i64) -> int {
    let k = #[verifier::truncate] (offset as usize);
    if k >= 2 {
        2
    } else {
        k as int
    }
}

/// Answers name lookups and directory listings from the inode tables.
pub struct DirHandler {
    inode_manager: Arc<InodeManager>,
}

impl View for DirHandler {
    type V = InodeManagerView;

    closed spec fn view(&self) -> InodeManagerView {
        self.inode_manager@
    }
}

impl DirHandler {
    pub fn new(inode_manager: Arc<InodeManager>) -> (h: Self)
        ensures
            h@ == inode_manager@,
    {
        Self { inode_manager }
    }

    /// The attributes (block count zero) of the inode that entry `name` of
    /// directory `parent` names; `None` when there is no such entry or the
    /// inode it names has no record.
    pub fn lookup(&self, parent: u64, name: &str) -> (r: Option<NodeAttr>)
        ensures
            match r {
                Some(a) => {
                    &&& self@.names.contains_key((parent, name@))
                    &&& self@.inodes.contains_key(self@.names[(parent, name@)])
                    &&& a == attr_of(self@.inodes[self@.names[(parent, name@)]], 0)
                },
                None => !self@.names.contains_key((parent, name@)) || !self@.inodes.contains_key(
                    self@.names[(parent, name@)],
                ),
            },
            r matches Some(a) ==> {
                let info = self@.inodes[self@.names[(parent, name@)]];
                &&& a.ino == info.ino
                &&& a.kind == info.kind
                &&& a.size == info.size
                &&& a.perm == info.mode
                &&& a.blocks == 0
            },
    {
        if let Some(ino) = self.inode_manager.lookup(parent, name) {
            if let Some(info) = self.inode_manager.get_inode(ino) {
                return Some(node_attr(&info, 0));
            }
        }
        None
    }

    /// The listing of directory `inode` from position `offset` on: `.`
    /// (the directory itself) and `..` (its parent), less the first
    /// `offset` entries.
    pub fn readdir(&self, inode: u64, offset: i64) -> (r: Vec<DirEntry>)
        ensures
            r@.map_values(|e: DirEntry| e@) == listing(inode, parent_of(self@, inode)).skip(skipped(offset)),
            r@.len() > 0 ==> r@.last().inode == (if self@.inodes.contains_key(inode) {
                self@.inodes[inode].parent
            } else {
                ROOT_INODE
            }),
            r@.len() > 0 ==> r@.last().name@ == seq!['.', '.'],
            r@.len() == 2 ==> r@[0].inode == inode && r@[0].name@ == seq!['.'],
    {
        let parent = self.get_parent(inode);
        let skip = #[verifier::truncate] (offset as usize);
        let mut entries: Vec<DirEntry> = Vec::new();
        proof {
            reveal_strlit(".");
            reveal_strlit("..");
            assert("."@ =~= seq!['.']);
            assert(".."@ =~= seq!['.', '.']);
        }
        if skip < 1 {
            let dot = String::from_str(".");
            entries.push(DirEntry { inode, kind: FuseFileType::Directory, name: dot, offset: 1 });
        }
        if skip < 2 {
            let dotdot = String::from_str("..");
            entries.push(DirEntry { inode: parent, kind: FuseFileType::Directory, name: dotdot, offset: 2 });
        }
        proof {
            let full = listing(inode, parent);
            if skip < 1 {
                assert(entries@.map_values(|e: DirEntry| e@) =~= full);
                assert(full.skip(0) =~= full);
            } else if skip < 2 {
                assert(entries@.map_values(|e: DirEntry| e@) =~= full.skip(1));
            } else {
                assert(entries@.map_values(|e: DirEntry| e@) =~= full.skip(2));
            }
        }
        entries
    }

    /// The parent of inode `inode`, or the root when it has no record.
    fn get_parent(&self, inode: u64) -> (p: u64)
        ensures
            p == parent_of(self@, inode),
    {
        match self.inode_manager.get_inode(inode) {
            Some(info) => info.parent,
            None => ROOT_INODE,
        }
    }
}

} // verus!
