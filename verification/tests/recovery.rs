use ferumfs::common::error::FfsError;
use ferumfs::storage::recovery::{replay, sort_by_sequence, ApplyWalEntry};
use ferumfs::storage::wal::{WalEntry, WalOperation};

fn entry(sequence: u64, inode_id: u64) -> WalEntry {
    WalEntry { sequence, operation: WalOperation::WriteBlob { inode_id }, checksum: 0 }
}

fn inode_of(e: &WalEntry) -> u64 {
    match &e.operation {
        WalOperation::WriteBlob { inode_id } => *inode_id,
        _ => panic!("unexpected operation"),
    }
}

struct Recorder {
    seen: Vec<(u64, u64)>,
    fail_at: Option<u64>,
}

impl ApplyWalEntry for Recorder {
    fn applied(&self) -> vstd::seq::Seq<WalEntry> {
        unreachable!()
    }

    fn attempted(&self) -> vstd::seq::Seq<(WalEntry, Result<(), FfsError>)> {
        unreachable!()
    }

    fn apply(&mut self, entry: WalEntry) -> Result<(), FfsError> {
        if self.fail_at == Some(entry.sequence) {
            return Err(FfsError::StorageError("rejected".to_string()));
        }
        self.seen.push((entry.sequence, inode_of(&entry)));
        Ok(())
    }
}

#[test]
fn sort_orders_by_sequence_and_is_stable() {
    let sorted = sort_by_sequence(vec![entry(3, 30), entry(1, 10), entry(3, 31), entry(0, 0), entry(1, 11)]);
    let got: Vec<(u64, u64)> = sorted.iter().map(|e| (e.sequence, inode_of(e))).collect();
    assert_eq!(got, vec![(0, 0), (1, 10), (1, 11), (3, 30), (3, 31)]);
}

#[test]
fn sort_of_empty_is_empty() {
    assert!(sort_by_sequence(Vec::new()).is_empty());
}

#[test]
fn replay_applies_in_sequence_order() {
    let mut r = Recorder { seen: Vec::new(), fail_at: None };
    replay(vec![entry(2, 20), entry(0, 0), entry(1, 10)], &mut r).unwrap();
    assert_eq!(r.seen, vec![(0, 0), (1, 10), (2, 20)]);
}

#[test]
fn replay_stops_at_first_rejected_entry() {
    let mut r = Recorder { seen: Vec::new(), fail_at: Some(1) };
    let res = replay(vec![entry(2, 20), entry(0, 0), entry(1, 10)], &mut r);
    assert_eq!(res, Err(FfsError::StorageError("rejected".to_string())));
    assert_eq!(r.seen, vec![(0, 0)]);
}

#[test]
fn already_ordered_log_is_unchanged() {
    let sorted = sort_by_sequence(vec![entry(0, 1), entry(1, 2), entry(1, 3), entry(5, 4)]);
    let got: Vec<u64> = sorted.iter().map(inode_of).collect();
    assert_eq!(got, vec![1, 2, 3, 4]);
}

#[test]
fn replay_of_nothing_succeeds() {
    let mut r = Recorder { seen: Vec::new(), fail_at: Some(0) };
    assert_eq!(replay(Vec::new(), &mut r), Ok(()));
    assert!(r.seen.is_empty());
}

#[test]
fn replay_succeeds_when_every_entry_is_accepted() {
    let mut r = Recorder { seen: Vec::new(), fail_at: None };
    assert_eq!(replay(vec![entry(4, 40), entry(4, 41), entry(2, 20)], &mut r), Ok(()));
    assert_eq!(r.seen, vec![(2, 20), (4, 40), (4, 41)]);
}
