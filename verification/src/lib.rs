//! FerumFS: the storage, metadata and filesystem-bookkeeping core of a
//! distributed filesystem, with its behaviour stated and proved in Verus.

pub mod common;
pub mod fuse;
pub mod storage;
