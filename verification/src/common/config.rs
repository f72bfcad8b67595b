use std::path::PathBuf;
use vstd::prelude::*;

verus! {

#[verifier::external_type_specification]
#[verifier::external_body]
pub struct ExPathBuf(PathBuf);

/// The block size used unless configured otherwise.
pub const DEFAULT_BLOCK_SIZE: usize = 4096;

/// Where the storage layer keeps its write-ahead log and its data, and the
/// block size it works with.
pub struct StorageConfig {
    pub wal_path: PathBuf,
    pub data_path: PathBuf,
    pub blk_sz: usize,
}

impl StorageConfig {
    /// A configuration with the given paths and the default block size.
    pub fn new(wal_path: PathBuf, data_path: PathBuf) -> (c: Self)
        ensures
            c.wal_path == wal_path,
            c.data_path == data_path,
            c.blk_sz == DEFAULT_BLOCK_SIZE,
    {
        Self { wal_path, data_path, blk_sz: DEFAULT_BLOCK_SIZE }
    }
}

} // verus!
