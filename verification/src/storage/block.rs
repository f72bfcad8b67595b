use vstd::prelude::*;

verus! {

/// The CRC-32 (IEEE) checksum of a byte sequence, as `crc32fast` computes it.
pub uninterp spec fn crc32_of(data: Seq<u8>) -> u32;

/// Calls `crc32fast::hash`, which returns the CRC-32 (IEEE) checksum of
/// `data`; the contract claims only that the result is that checksum, a
/// function of the bytes alone.
#[verifier::external_body]
pub(crate) fn crc32_hash(data: &[u8]) -> (sum: u32)
    ensures
        sum == crc32_of(data@),
{
    crc32fast::hash(data)
}

/// A block of file data together with the checksum that guards it.
pub struct Block {
    pub id: u64,
    pub data: Vec<u8>,
    pub checksum: u32,
    pub size: usize,
}

impl Block {
    /// A fresh block: its size is the length of its data and its checksum is
    /// not yet set (zero).
    pub fn new(id: u64, data: Vec<u8>) -> (b: Self)
        ensures
            b.id == id,
            b.data@ == data@,
            b.checksum == 0,
            b.size == data@.len(),
    {
        let size = data.len();
        Block { id, data, checksum: 0, size }
    }

    /// The CRC-32 checksum of `data`.
    pub fn crc32(data: &[u8]) -> (sum: u32)
        ensures
            sum == crc32_of(data@),
    {
        crc32_hash(data)
    }

    /// Whether the stored checksum matches the checksum of the block's data.
    pub fn verify(&self) -> (ok: bool)
        ensures
            ok == (crc32_of(self.data@) == self.checksum),
    {
        Self::crc32(self.data.as_slice()) == self.checksum
    }
}

} // verus!
