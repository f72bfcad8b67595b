use crate::common::types::FileType as CommonFileType;
use vstd::prelude::*;

verus! {

/// The kinds of filesystem object that the kernel's FUSE protocol knows,
/// one for one with the variants of `fuse3::FileType`.
#[derive(Debug, Clone, Copy, PartialEq, Eq, Hash, Structural)]
pub enum FuseFileType {
    NamedPipe,
    CharDevice,
    BlockDevice,
    Directory,
    RegularFile,
    Symlink,
    Socket,
}

/// The FUSE kind that stands for a filesystem object kind.
pub open spec fn fuse_kind_of(k: CommonFileType) -> FuseFileType {
    match k {
        CommonFileType::File => FuseFileType::RegularFile,
        CommonFileType::Directory => FuseFileType::Directory,
        CommonFileType::Symlink => FuseFileType::Symlink,
    }
}

/// The filesystem object kind that a FUSE kind is taken as; the kinds this
/// filesystem does not model (pipes, devices, sockets) count as regular
/// files.
pub open spec fn common_kind_of(k: FuseFileType) -> CommonFileType {
    match k {
        FuseFileType::RegularFile => CommonFileType::File,
        FuseFileType::Directory => CommonFileType::Directory,
        FuseFileType::Symlink => CommonFileType::Symlink,
        _ => CommonFileType::File,
    }
}

/// The FUSE kind of a filesystem object kind.
pub fn to_fuse_type(k: CommonFileType) -> (f: FuseFileType)
    ensures
        f == fuse_kind_of(k),
{
    match k {
        CommonFileType::File => FuseFileType::RegularFile,
        CommonFileType::Directory => FuseFileType::Directory,
        CommonFileType::Symlink => FuseFileType::Symlink,
    }
}

/// The filesystem object kind of a FUSE kind.
pub fn to_common_type(k: FuseFileType) -> (c: CommonFileType)
    ensures
        c == common_kind_of(k),
{
    match k {
        FuseFileType::RegularFile => CommonFileType::File,
        FuseFileType::Directory => CommonFileType::Directory,
        FuseFileType::Symlink => CommonFileType::Symlink,
        _ => CommonFileType::File,
    }
}

/// Converting a filesystem object kind to its FUSE kind and back gives the
/// kind back.
pub proof fn lemma_kind_round_trip(k: CommonFileType)
    ensures
        common_kind_of(fuse_kind_of(k)) == k,
{
}

/// Each object kind goes to the FUSE kind of the same meaning, and the
/// FUSE kinds this filesystem does not model are taken as regular files.
pub proof fn lemma_kinds_correspond()
    ensures
        fuse_kind_of(CommonFileType::File) == FuseFileType::RegularFile,
        fuse_kind_of(CommonFileType::Directory) == FuseFileType::Directory,
        fuse_kind_of(CommonFileType::Symlink) == FuseFileType::Symlink,
        common_kind_of(FuseFileType::RegularFile) == CommonFileType::File,
        common_kind_of(FuseFileType::Directory) == CommonFileType::Directory,
        common_kind_of(FuseFileType::Symlink) == CommonFileType::Symlink,
        common_kind_of(FuseFileType::NamedPipe) == CommonFileType::File,
        common_kind_of(FuseFileType::CharDevice) == CommonFileType::File,
        common_kind_of(FuseFileType::BlockDevice) == CommonFileType::File,
        common_kind_of(FuseFileType::Socket) == CommonFileType::File,
{
}

} // verus!
