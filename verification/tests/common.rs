use ferumfs::common::config::StorageConfig;
use ferumfs::common::metric::{Counter, Metric};
use ferumfs::common::types::FileType;
use ferumfs::fuse::convert::{to_common_type, to_fuse_type, FuseFileType};
use std::path::PathBuf;

#[test]
fn storage_config_defaults_block_size() {
    let c = StorageConfig::new(PathBuf::from("/var/wal"), PathBuf::from("/var/data"));
    assert_eq!(c.blk_sz, 4096);
    assert_eq!(c.wal_path, PathBuf::from("/var/wal"));
    assert_eq!(c.data_path, PathBuf::from("/var/data"));
}

#[test]
fn metric_counts_increments() {
    let mut m = Metric::new();
    let zero = m.snapshot();
    assert_eq!(zero.reads_total, 0);
    assert_eq!(zero.bytes_written_total, 0);
    m.increment(Counter::ReadsTotal);
    m.increment(Counter::ReadsTotal);
    m.increment(Counter::WalAppendsTotal);
    let s = m.snapshot();
    assert_eq!(s.reads_total, 2);
    assert_eq!(s.wal_appends_total, 1);
    assert_eq!(s.writes_total, 0);
    assert_eq!(s.leader_changes_total, 0);
}

#[test]
fn kinds_convert_both_ways() {
    assert_eq!(to_fuse_type(FileType::File), FuseFileType::RegularFile);
    assert_eq!(to_fuse_type(FileType::Directory), FuseFileType::Directory);
    assert_eq!(to_fuse_type(FileType::Symlink), FuseFileType::Symlink);
    for k in [FileType::File, FileType::Directory, FileType::Symlink] {
        assert_eq!(to_common_type(to_fuse_type(k)), k);
    }
    assert_eq!(to_common_type(FuseFileType::Socket), FileType::File);
    assert_eq!(to_common_type(FuseFileType::NamedPipe), FileType::File);
    assert_eq!(to_common_type(FuseFileType::BlockDevice), FileType::File);
}
