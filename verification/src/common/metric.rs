use vstd::prelude::*;

verus! {

/// Names one of the counters of a [`Metric`].
#[derive(Debug, Clone, Copy, PartialEq, Eq, Structural)]
pub enum Counter {
    ReadsTotal,
    WritesTotal,
    WalAppendsTotal,
    ChecksumTotal,
    ElectionsStartedTotal,
    LeaderChangesTotal,
    BytesReadTotal,
    BytesWrittenTotal,
}

/// A point-in-time copy of all counters.
#[derive(Debug, Clone, Copy, PartialEq, Eq, Structural)]
pub struct MetricsSnapshot {
    pub reads_total: u64,
    pub writes_total: u64,
    pub wal_appends_total: u64,
    pub checksum_total: u64,
    pub elections_started_total: u64,
    pub leader_changes_total: u64,
    pub bytes_read_total: u64,
    pub bytes_written_total: u64,
}

impl MetricsSnapshot {
    /// The value of one counter.
    pub open spec fn get(self, c: Counter) -> u64 {
        match c {
            Counter::ReadsTotal => self.reads_total,
            Counter::WritesTotal => self.writes_total,
            Counter::WalAppendsTotal => self.wal_appends_total,
            Counter::ChecksumTotal => self.checksum_total,
            Counter::ElectionsStartedTotal => self.elections_started_total,
            Counter::LeaderChangesTotal => self.leader_changes_total,
            Counter::BytesReadTotal => self.bytes_read_total,
            Counter::BytesWrittenTotal => self.bytes_written_total,
        }
    }
}

/// Operation counters of the storage and consensus layers.
pub struct Metric {
    reads_total: u64,
    writes_total: u64,
    wal_appends_total: u64,
    checksum_total: u64,
    elections_started_total: u64,
    leader_changes_total: u64,
    bytes_read_total: u64,
    bytes_written_total: u64,
}

impl View for Metric {
    type V = MetricsSnapshot;

    closed spec fn view(&self) -> MetricsSnapshot {
        MetricsSnapshot {
            reads_total: self.reads_total,
            writes_total: self.writes_total,
            wal_appends_total: self.wal_appends_total,
            checksum_total: self.checksum_total,
            elections_started_total: self.elections_started_total,
            leader_changes_total: self.leader_changes_total,
            bytes_read_total: self.bytes_read_total,
            bytes_written_total: self.bytes_written_total,
        }
    }
}

impl Metric {
    /// All counters at zero.
    pub fn new() -> (m: Metric)
        ensures
            forall|c: Counter| #[trigger] m@.get(c) == 0,
    {
        Self {
            reads_total: 0,
            writes_total: 0,
            wal_appends_total: 0,
            checksum_total: 0,
            elections_started_total: 0,
            leader_changes_total: 0,
            bytes_read_total: 0,
            bytes_written_total: 0,
        }
    }

    /// Adds one to `counter` (wrapping at `u64::MAX`); the others keep
    /// their values.
    pub fn increment(&mut self, counter: Counter)
        ensures
            final(self)@.get(counter) == old(self)@.get(counter).wrapping_add(1),
            forall|c: Counter| c != counter ==> #[trigger] final(self)@.get(c) == old(self)@.get(c),
            final(self)@.reads_total == if counter == Counter::ReadsTotal {
                old(self)@.reads_total.wrapping_add(1)
            } else {
                old(self)@.reads_total
            },
            final(self)@.writes_total == if counter == Counter::WritesTotal {
                old(self)@.writes_total.wrapping_add(1)
            } else {
                old(self)@.writes_total
            },
            final(self)@.wal_appends_total == if counter == Counter::WalAppendsTotal {
                old(self)@.wal_appends_total.wrapping_add(1)
            } else {
                old(self)@.wal_appends_total
            },
            final(self)@.checksum_total == if counter == Counter::ChecksumTotal {
                old(self)@.checksum_total.wrapping_add(1)
            } else {
                old(self)@.checksum_total
            },
            final(self)@.elections_started_total == if counter == Counter::ElectionsStartedTotal {
                old(self)@.elections_started_total.wrapping_add(1)
            } else {
                old(self)@.elections_started_total
            },
            final(self)@.leader_changes_total == if counter == Counter::LeaderChangesTotal {
                old(self)@.leader_changes_total.wrapping_add(1)
            } else {
                old(self)@.leader_changes_total
            },
            final(self)@.bytes_read_total == if counter == Counter::BytesReadTotal {
                old(self)@.bytes_read_total.wrapping_add(1)
            } else {
                old(self)@.bytes_read_total
            },
            final(self)@.bytes_written_total == if counter == Counter::BytesWrittenTotal {
                old(self)@.bytes_written_total.wrapping_add(1)
            } else {
                old(self)@.bytes_written_total
            },
    {
        match counter {
            Counter::ReadsTotal => self.reads_total = self.reads_total.wrapping_add(1),
            Counter::WritesTotal => self.writes_total = self.writes_total.wrapping_add(1),
            Counter::WalAppendsTotal => self.wal_appends_total = self.wal_appends_total.wrapping_add(1),
            Counter::ChecksumTotal => self.checksum_total = self.checksum_total.wrapping_add(1),
            Counter::ElectionsStartedTotal => self.elections_started_total =
                self.elections_started_total.wrapping_add(1),
            Counter::LeaderChangesTotal => self.leader_changes_total =
                self.leader_changes_total.wrapping_add(1),
            Counter::BytesReadTotal => self.bytes_read_total = self.bytes_read_total.wrapping_add(1),
            Counter::BytesWrittenTotal => self.bytes_written_total =
                self.bytes_written_total.wrapping_add(1),
        }
    }

    /// The current value of every counter.
    pub fn snapshot(&self) -> (s: MetricsSnapshot)
        ensures
            s == self@,
    {
        MetricsSnapshot {
            reads_total: self.reads_total,
            writes_total: self.writes_total,
            wal_appends_total: self.wal_appends_total,
            checksum_total: self.checksum_total,
            elections_started_total: self.elections_started_total,
            leader_changes_total: self.leader_changes_total,
            bytes_read_total: self.bytes_read_total,
            bytes_written_total: self.bytes_written_total,
        }
    }
}

/// Each counter name reads the snapshot field of the same name.
pub proof fn lemma_counter_names_its_field(s: MetricsSnapshot)
    ensures
        s.get(Counter::ReadsTotal) == s.reads_total,
        s.get(Counter::WritesTotal) == s.writes_total,
        s.get(Counter::WalAppendsTotal) == s.wal_appends_total,
        s.get(Counter::ChecksumTotal) == s.checksum_total,
        s.get(Counter::ElectionsStartedTotal) == s.elections_started_total,
        s.get(Counter::LeaderChangesTotal) == s.leader_changes_total,
        s.get(Counter::BytesReadTotal) == s.bytes_read_total,
        s.get(Counter::BytesWrittenTotal) == s.bytes_written_total,
{
}

} // verus!
