pub mod block;
pub mod block_allocator;
pub mod recovery;
pub mod wal;
