use vstd::prelude::*;

verus! {

pub type InodeId = u64;

pub type BlockId = u64;

/// The kind of a filesystem object.
#[derive(Debug, Clone, Copy, PartialEq, Eq, Hash, Structural)]
pub enum FileType {
    File,
    Directory,
    Symlink,
}

/// What the metadata layer records about one filesystem object.
#[derive(Debug, Clone)]
pub struct InodeInfo {
    pub ino: InodeId,
    pub parent: InodeId,
    pub name: String,
    pub kind: FileType,
    pub size: u64,
    pub mode: u16,
}

} // verus!
