use ferumfs::storage::block::Block;
use ferumfs::storage::wal::{frame_record, scan_records};

fn crc_be(p: &[u8]) -> Vec<u8> {
    Block::crc32(p).to_be_bytes().to_vec()
}

#[test]
fn frame_layout() {
    let f = frame_record(b"abc");
    let mut expected = vec![0u8, 0, 0, 3, b'a', b'b', b'c'];
    expected.extend_from_slice(&0x3524_41C2u32.to_be_bytes());
    assert_eq!(f, expected);
}

#[test]
fn empty_payload_frame() {
    assert_eq!(frame_record(b""), vec![0u8; 8]);
    let recs = scan_records(&frame_record(b""));
    assert_eq!(recs.len(), 1);
    assert!(recs[0].payload.is_empty());
    assert_eq!(recs[0].checksum, 0);
}

#[test]
fn appended_records_read_back_in_order() {
    let mut log = frame_record(b"first");
    log.extend(frame_record(b"second"));
    log.extend(frame_record(b""));
    let recs = scan_records(&log);
    assert_eq!(recs.len(), 3);
    assert_eq!(recs[0].payload, b"first".to_vec());
    assert_eq!(recs[1].payload, b"second".to_vec());
    assert!(recs[2].payload.is_empty());
    assert_eq!(recs[1].checksum, Block::crc32(b"second"));
}

#[test]
fn torn_last_record_is_dropped() {
    let mut log = frame_record(b"kept");
    let torn = frame_record(b"torn record");
    for cut in 0..torn.len() {
        let mut l = log.clone();
        l.extend_from_slice(&torn[..cut]);
        let recs = scan_records(&l);
        assert_eq!(recs.len(), 1);
        assert_eq!(recs[0].payload, b"kept".to_vec());
    }
    log.extend(torn);
    assert_eq!(scan_records(&log).len(), 2);
}

#[test]
fn mismatched_checksum_is_skipped() {
    let mut log = Vec::new();
    log.extend_from_slice(&3u32.to_be_bytes());
    log.extend_from_slice(b"bad");
    log.extend_from_slice(&(Block::crc32(b"bad") ^ 1).to_be_bytes());
    log.extend(frame_record(b"good"));
    let recs = scan_records(&log);
    assert_eq!(recs.len(), 1);
    assert_eq!(recs[0].payload, b"good".to_vec());
    let mut direct = vec![0u8, 0, 0, 4];
    direct.extend_from_slice(b"good");
    direct.extend(crc_be(b"good"));
    assert_eq!(frame_record(b"good"), direct);
}

#[test]
fn empty_log_has_no_records() {
    assert!(scan_records(&[]).is_empty());
    assert!(scan_records(&[0, 0, 1]).is_empty());
}

#[test]
fn torn_tail_after_any_complete_records_is_dropped() {
    let mut log = Vec::new();
    log.extend_from_slice(&2u32.to_be_bytes());
    log.extend_from_slice(b"xy");
    log.extend_from_slice(&0u32.to_be_bytes());
    log.extend(frame_record(b"ok"));
    let before = scan_records(&log);
    assert_eq!(before.len(), 1);
    let mut torn = log.clone();
    torn.extend_from_slice(&100u32.to_be_bytes());
    torn.extend_from_slice(b"partial");
    let after = scan_records(&torn);
    assert_eq!(after.len(), 1);
    assert_eq!(after[0].payload, b"ok".to_vec());
    let mut appended = log.clone();
    appended.extend(frame_record(b"new"));
    let recs = scan_records(&appended);
    assert_eq!(recs.len(), 2);
    assert_eq!(recs[1].payload, b"new".to_vec());
}
