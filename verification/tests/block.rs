use ferumfs::storage::block::Block;

#[test]
fn new_block_records_size_and_no_checksum() {
    let b = Block::new(7, vec![1, 2, 3]);
    assert_eq!(b.id, 7);
    assert_eq!(b.size, 3);
    assert_eq!(b.checksum, 0);
    assert_eq!(b.data, vec![1, 2, 3]);
}

#[test]
fn crc32_check_value() {
    assert_eq!(Block::crc32(b"123456789"), 0xCBF4_3926);
    assert_eq!(Block::crc32(b""), 0);
}

#[test]
fn verify_checks_stored_checksum() {
    let mut b = Block::new(1, b"123456789".to_vec());
    assert!(!b.verify());
    b.checksum = 0xCBF4_3926;
    assert!(b.verify());
    b.data[0] = b'0';
    assert!(!b.verify());
}

#[test]
fn empty_block_verifies_with_zero_checksum() {
    let b = Block::new(2, Vec::new());
    assert!(b.verify());
}
