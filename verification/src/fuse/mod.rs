pub mod attr;
pub mod concurrent_map;
pub mod convert;
pub mod handles;
pub mod inode;
pub mod dir;
pub mod file;
pub mod filesystem;
