use crate::common::types::InodeId;
use crate::storage::block::{crc32_hash, crc32_of};
use vstd::prelude::*;
use vstd::slice::{slice_subrange, slice_to_vec};

verus! {

/// A metadata operation recorded in the write-ahead log.
#[derive(Debug, Clone)]
pub enum WalOperation {
    Create { inode_id: InodeId, parent_id: InodeId, name: String },
    Unlink { parent_id: InodeId, name: String },
    Mkdir { inode_id: InodeId, parent_id: InodeId, name: String },
    Rmdir { parent_id: InodeId, name: String },
    Rename { old_parent: InodeId, old_name: String, new_parent: InodeId, new_name: String },
    WriteBlob { inode_id: InodeId },
}

/// One decoded log entry: its sequence number, its operation, and the
/// checksum its record carried on disk.
pub struct WalEntry {
    pub sequence: u64,
    pub operation: WalOperation,
    pub checksum: u32,
}

/// One record of the log file whose stored checksum matched its payload.
pub struct WalRecord {
    pub payload: Vec<u8>,
    pub checksum: u32,
}

impl View for WalRecord {
    type V = (Seq<u8>, u32);

    open spec fn view(&self) -> (Seq<u8>, u32) {
        (self.payload@, self.checksum)
    }
}

/// Big-endian bytes of a `u32`.
pub open spec fn u32_be_bytes(x: u32) -> Seq<u8> {
    seq![
        ((x >> 24u32) & 0xffu32) as u8,
        ((x >> 16u32) & 0xffu32) as u8,
        ((x >> 8u32) & 0xffu32) as u8,
        (x & 0xffu32) as u8,
    ]
}

/// The `u32` whose big-endian bytes are the first four of `s`.
pub open spec fn u32_from_be(s: Seq<u8>) -> u32 {
    ((s[0] as u32) << 24u32) | ((s[1] as u32) << 16u32) | ((s[2] as u32) << 8u32) | (s[3] as u32)
}

/// One framed record: the payload length (big-endian, 32 bits), the
/// payload, and the payload's CRC-32 (big-endian).
pub open spec fn frame(payload: Seq<u8>) -> Seq<u8> {
    u32_be_bytes(payload.len() as u32) + payload + u32_be_bytes(crc32_of(payload))
}

/// The records that reading the log `log` from its start yields. Reading
/// stops at a torn record (too few bytes left for its length field, its
/// payload or its checksum); a record whose checksum does not match its
/// payload is skipped and reading goes on after it.
pub open spec fn scan(log: Seq<u8>) -> Seq<(Seq<u8>, u32)>
    decreases log.len(),
{
    if log.len() < 4 {
        Seq::empty()
    } else {
        let len = u32_from_be(log) as int;
        if log.len() < len + 8 {
            Seq::empty()
        } else {
            let payload = log.subrange(4, 4 + len);
            let stored = u32_from_be(log.subrange(4 + len, 8 + len));
            let rest = scan(log.subrange(8 + len, log.len() as int));
            if crc32_of(payload) == stored {
                seq![(payload, stored)] + rest
            } else {
                rest
            }
        }
    }
}

/// The log bytes written for the encoded entries `ps`, one framed record each.
pub open spec fn frames(ps: Seq<Seq<u8>>) -> Seq<u8>
    decreases ps.len(),
{
    if ps.len() == 0 {
        Seq::empty()
    } else {
        frame(ps[0]) + frames(ps.drop_first())
    }
}

/// The records that reading back the encoded entries `ps` should yield.
pub open spec fn records_of(ps: Seq<Seq<u8>>) -> Seq<(Seq<u8>, u32)> {
    ps.map_values(|p: Seq<u8>| (p, crc32_of(p)))
}

/// Every payload fits the 32-bit length field.
pub open spec fn all_fit_u32(ps: Seq<Seq<u8>>) -> bool {
    forall|i: int| 0 <= i < ps.len() ==> #[trigger] ps[i].len() <= u32::MAX
}

proof fn lemma_u32_from_be_prefix(s: Seq<u8>, t: Seq<u8>)
    requires
        s.len() >= 4,
        t.len() >= 4,
        s[0] == t[0],
        s[1] == t[1],
        s[2] == t[2],
        s[3] == t[3],
    ensures
        u32_from_be(s) == u32_from_be(t),
{
}

/// A framed record followed by anything reads back as that record followed
/// by whatever the rest reads back as.
pub proof fn lemma_scan_frame(p: Seq<u8>, rest: Seq<u8>)
    requires
        p.len() <= u32::MAX,
    ensures
        scan(frame(p) + rest) == seq![(p, crc32_of(p))] + scan(rest),
{
    let len = p.len() as int;
    let f = frame(p) + rest;
    let hb = u32_be_bytes(p.len() as u32);
    let cb = u32_be_bytes(crc32_of(p));
    lemma_u32_be_round_trip(p.len() as u32);
    lemma_u32_be_round_trip(crc32_of(p));
    assert(f[0] == hb[0] && f[1] == hb[1] && f[2] == hb[2] && f[3] == hb[3]);
    lemma_u32_from_be_prefix(f, hb);
    assert(u32_from_be(f) as int == len);
    assert(f.subrange(4, 4 + len) =~= p);
    let cs = f.subrange(4 + len, 8 + len);
    assert(cs =~= cb);
    assert(f.subrange(8 + len, f.len() as int) =~= rest);
}

/// A record whose stored checksum does not match its payload is skipped;
/// the records after it are still read.
pub proof fn lemma_scan_skips_mismatched_record(p: Seq<u8>, stored: u32, rest: Seq<u8>)
    requires
        p.len() <= u32::MAX,
        stored != crc32_of(p),
    ensures
        scan(u32_be_bytes(p.len() as u32) + p + u32_be_bytes(stored) + rest) == scan(rest),
{
    let len = p.len() as int;
    let f = u32_be_bytes(p.len() as u32) + p + u32_be_bytes(stored) + rest;
    let hb = u32_be_bytes(p.len() as u32);
    lemma_u32_be_round_trip(p.len() as u32);
    lemma_u32_be_round_trip(stored);
    assert(f[0] == hb[0] && f[1] == hb[1] && f[2] == hb[2] && f[3] == hb[3]);
    lemma_u32_from_be_prefix(f, hb);
    assert(f.subrange(4, 4 + len) =~= p);
    assert(f.subrange(4 + len, 8 + len) =~= u32_be_bytes(stored));
    assert(f.subrange(8 + len, f.len() as int) =~= rest);
}

/// Appended entries followed by anything read back as those entries, in
/// order, followed by whatever the rest reads back as.
pub proof fn lemma_scan_frames_then(ps: Seq<Seq<u8>>, tail: Seq<u8>)
    requires
        all_fit_u32(ps),
    ensures
        scan(frames(ps) + tail) == records_of(ps) + scan(tail),
    decreases ps.len(),
{
    if ps.len() == 0 {
        assert(frames(ps) + tail =~= tail);
        assert(records_of(ps) + scan(tail) =~= scan(tail));
    } else {
        let rest = ps.drop_first();
        assert(all_fit_u32(rest)) by {
            assert forall|i: int| 0 <= i < rest.len() implies #[trigger] rest[i].len() <= u32::MAX by {
                assert(rest[i] == ps[i + 1]);
            }
        }
        lemma_scan_frames_then(rest, tail);
        assert(frames(ps) + tail =~= frame(ps[0]) + (frames(rest) + tail));
        assert(ps[0].len() <= u32::MAX);
        lemma_scan_frame(ps[0], frames(rest) + tail);
        assert(records_of(ps) =~= seq![(ps[0], crc32_of(ps[0]))] + records_of(rest));
    }
}

/// What is appended is what is read back: the log made of the framed
/// entries `ps` reads back as exactly those entries, in order, each with its
/// checksum.
pub proof fn lemma_read_back_appended(ps: Seq<Seq<u8>>)
    requires
        all_fit_u32(ps),
    ensures
        scan(frames(ps)) == records_of(ps),
{
    lemma_scan_frames_then(ps, Seq::empty());
    assert(frames(ps) + Seq::<u8>::empty() =~= frames(ps));
    assert(records_of(ps) + scan(Seq::<u8>::empty()) =~= records_of(ps));
}

/// A torn last append (any proper prefix of its record) is dropped, and
/// every entry appended before it still reads back.
pub proof fn lemma_torn_append_dropped(ps: Seq<Seq<u8>>, p: Seq<u8>, k: int)
    requires
        all_fit_u32(ps),
        p.len() <= u32::MAX,
        0 <= k < frame(p).len(),
    ensures
        scan(frames(ps) + frame(p).take(k)) == records_of(ps),
{
    let t = frame(p).take(k);
    lemma_scan_frames_then(ps, t);
    if t.len() >= 4 {
        let hb = u32_be_bytes(p.len() as u32);
        lemma_u32_be_round_trip(p.len() as u32);
        assert(t[0] == hb[0] && t[1] == hb[1] && t[2] == hb[2] && t[3] == hb[3]);
        lemma_u32_from_be_prefix(t, hb);
    }
    assert(scan(t) == Seq::<(Seq<u8>, u32)>::empty());
    assert(records_of(ps) + scan(t) =~= records_of(ps));
}

/// `b` is made of complete records, each with its full length field,
/// payload and checksum (whether or not the checksum matches).
pub open spec fn whole_records(b: Seq<u8>) -> bool
    decreases b.len(),
{
    if b.len() == 0 {
        true
    } else if b.len() < 4 {
        false
    } else {
        let len = u32_from_be(b) as int;
        if b.len() < len + 8 {
            false
        } else {
            whole_records(b.subrange(len + 8, b.len() as int))
        }
    }
}

/// `t` is a torn record: some bytes, but too few for its length field, or
/// fewer than the payload and checksum that its length field announces.
pub open spec fn torn(t: Seq<u8>) -> bool {
    &&& t.len() > 0
    &&& t.len() < 4 || t.len() < u32_from_be(t) as int + 8
}

/// Reading complete records followed by anything reads the records, then
/// whatever follows.
pub proof fn lemma_scan_whole_then(b: Seq<u8>, rest: Seq<u8>)
    requires
        whole_records(b),
    ensures
        scan(b + rest) == scan(b) + scan(rest),
    decreases b.len(),
{
    if b.len() == 0 {
        assert(b + rest =~= rest);
        assert(scan(b) + scan(rest) =~= scan(rest));
    } else {
        let f = b + rest;
        assert(f[0] == b[0] && f[1] == b[1] && f[2] == b[2] && f[3] == b[3]);
        lemma_u32_from_be_prefix(f, b);
        let len = u32_from_be(b) as int;
        assert(f.subrange(4, 4 + len) =~= b.subrange(4, 4 + len));
        assert(f.subrange(4 + len, 8 + len) =~= b.subrange(4 + len, 8 + len));
        let bt = b.subrange(len + 8, b.len() as int);
        assert(f.subrange(len + 8, f.len() as int) =~= bt + rest);
        lemma_scan_whole_then(bt, rest);
        let payload = b.subrange(4, 4 + len);
        let stored = u32_from_be(b.subrange(4 + len, 8 + len));
        if crc32_of(payload) == stored {
            assert(scan(f) =~= seq![(payload, stored)] + (scan(bt) + scan(rest)));
            assert(scan(b) =~= seq![(payload, stored)] + scan(bt));
        }
    }
}

/// A torn last write is dropped silently: the records before it read back
/// exactly as without it, whatever they are.
pub proof fn lemma_torn_tail_dropped(b: Seq<u8>, t: Seq<u8>)
    requires
        whole_records(b),
        torn(t),
    ensures
        scan(b + t) == scan(b),
{
    lemma_scan_whole_then(b, t);
    assert(scan(t) == Seq::<(Seq<u8>, u32)>::empty());
    assert(scan(b) + scan(t) =~= scan(b));
}

/// Appending framed entries to any log with no torn tail: the log then
/// reads back as before, followed by the appended entries in order.
pub proof fn lemma_append_to_intact_log(b: Seq<u8>, ps: Seq<Seq<u8>>)
    requires
        whole_records(b),
        all_fit_u32(ps),
    ensures
        scan(b + frames(ps)) == scan(b) + records_of(ps),
{
    lemma_scan_whole_then(b, frames(ps));
    lemma_read_back_appended(ps);
}

proof fn lemma_u32_be_round_trip(x: u32)
    ensures
        u32_from_be(u32_be_bytes(x)) == x,
{
    let b0 = ((x >> 24u32) & 0xffu32) as u8;
    let b1 = ((x >> 16u32) & 0xffu32) as u8;
    let b2 = ((x >> 8u32) & 0xffu32) as u8;
    let b3 = (x & 0xffu32) as u8;
    assert(((b0 as u32) << 24u32) | ((b1 as u32) << 16u32) | ((b2 as u32) << 8u32) | (b3 as u32) == x)
        by (bit_vector)
        requires
            b0 == ((x >> 24u32) & 0xffu32) as u8,
            b1 == ((x >> 16u32) & 0xffu32) as u8,
            b2 == ((x >> 8u32) & 0xffu32) as u8,
            b3 == (x & 0xffu32) as u8,
    ;
}

fn push_u32_be(out: &mut Vec<u8>, x: u32)
    ensures
        final(out)@ == old(out)@ + u32_be_bytes(x),
{
    out.push(((x >> 24u32) & 0xffu32) as u8);
    out.push(((x >> 16u32) & 0xffu32) as u8);
    out.push(((x >> 8u32) & 0xffu32) as u8);
    out.push((x & 0xffu32) as u8);
    assert(final(out)@ =~= old(out)@ + u32_be_bytes(x));
}

fn read_u32_be(log: &[u8], pos: usize) -> (x: u32)
    requires
        pos + 4 <= log@.len(),
    ensures
        x == u32_from_be(log@.subrange(pos as int, pos + 4)),
{
    ((log[pos] as u32) << 24u32) | ((log[pos + 1] as u32) << 16u32) | ((log[pos + 2] as u32) << 8u32)
        | (log[pos + 3] as u32)
}

/// The bytes appended to the log for one entry whose encoded form is
/// `payload`: its length, the payload, and its CRC-32. A length above
/// `u32::MAX` is written truncated to 32 bits.
pub fn frame_record(payload: &[u8]) -> (out: Vec<u8>)
    ensures
        out@ == frame(payload@),
{
    let mut out: Vec<u8> = Vec::new();
    push_u32_be(&mut out, payload.len() as u32);
    let mut i: usize = 0;
    while i < payload.len()
        invariant
            i <= payload@.len(),
            out@ == u32_be_bytes(payload@.len() as u32) + payload@.subrange(0, i as int),
        decreases payload@.len() - i,
    {
        out.push(payload[i]);
        i = i + 1;
        assert(out@ =~= u32_be_bytes(payload@.len() as u32) + payload@.subrange(0, i as int));
    }
    assert(payload@.subrange(0, payload@.len() as int) =~= payload@);
    let sum = crc32_hash(payload);
    push_u32_be(&mut out, sum);
    out
}

/// The records of a log file, in file order: every complete record whose
/// checksum matches its payload, up to the first torn record.
pub fn scan_records(log: &[u8]) -> (recs: Vec<WalRecord>)
    ensures
        recs@.map_values(|r: WalRecord| r@) == scan(log@),
{
    let mut out: Vec<WalRecord> = Vec::new();
    let mut pos: usize = 0;
    assert(log@.subrange(0, log@.len() as int) =~= log@);
    assert(out@.map_values(|r: WalRecord| r@) + scan(log@) =~= scan(log@));
    while log.len() - pos >= 4
        invariant
            pos <= log@.len(),
            out@.map_values(|r: WalRecord| r@) + scan(log@.subrange(pos as int, log@.len() as int))
                == scan(log@),
        ensures
            out@.map_values(|r: WalRecord| r@) == scan(log@),
        decreases log@.len() - pos,
    {
        let ghost rest = log@.subrange(pos as int, log@.len() as int);
        let ghost before = out@.map_values(|r: WalRecord| r@);
        let len32 = read_u32_be(log, pos);
        assert(u32_from_be(rest) == len32);
        let len = len32 as usize;
        let avail = log.len() - pos - 4;
        if avail < len || avail - len < 4 {
            assert(scan(rest) == Seq::<(Seq<u8>, u32)>::empty());
            assert(before + Seq::<(Seq<u8>, u32)>::empty() =~= before);
            break;
        }
        let payload = slice_to_vec(slice_subrange(log, pos + 4, pos + 4 + len));
        let stored = read_u32_be(log, pos + 4 + len);
        let sum = crc32_hash(payload.as_slice());
        proof {
            assert(payload@ =~= rest.subrange(4, 4 + len as int));
            assert(u32_from_be(rest.subrange(4 + len as int, 8 + len as int)) == stored);
            assert(rest.subrange(8 + len as int, rest.len() as int) =~= log@.subrange(
                pos + 8 + len as int,
                log@.len() as int,
            ));
        }
        if sum == stored {
            let ghost rec = (payload@, stored);
            out.push(WalRecord { payload, checksum: stored });
            assert(out@.map_values(|r: WalRecord| r@) =~= before.push(rec));
            assert(before.push(rec) + scan(log@.subrange(pos + 8 + len as int, log@.len() as int))
                =~= before + scan(rest));
        }
        pos = pos + 8 + len;
    }
    out
}

} // verus!
