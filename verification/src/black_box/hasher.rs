//! A pass-through hasher: the first eight bytes written become the hash
//! value unchanged.  Keys of the storage map are already well-distributed
//! machine words, so no mixing is wanted.

use vstd::prelude::*;

verus! {

/// Builds [`PassthroughHasher`]s.
#[derive(Debug, Clone, Copy)]
pub struct PassthroughHasherBuilder;

/// Keeps the last eight bytes written, read as a little-endian word.
#[derive(Debug, Clone, Copy)]
pub struct PassthroughHasher(pub u64);

/// The little-endian word formed by the first eight elements of `bytes`.
pub open spec fn le_word_of(bytes: Seq<u8>) -> u64
    recommends
        bytes.len() >= 8,
{
    (bytes[0] as u64) | (bytes[1] as u64) << 8 | (bytes[2] as u64) << 16 | (bytes[3] as u64) << 24
        | (bytes[4] as u64) << 32 | (bytes[5] as u64) << 40 | (bytes[6] as u64) << 48 | (
    bytes[7] as u64) << 56
}

impl PassthroughHasherBuilder {
    /// Returns a hasher whose state starts at zero.
    pub fn build_hasher(&self) -> (r: PassthroughHasher)
        ensures
            r.0 == 0,
    {
        PassthroughHasher(0)
    }
}

impl PassthroughHasher {
    /// The accumulated hash value.
    pub fn finish(&self) -> (r: u64)
        ensures
            r == self.0,
    {
        self.0
    }

    /// Replaces the state with the first eight bytes of `bytes`, read as a
    /// little-endian word.
    pub fn write(&mut self, bytes: &[u8])
        requires
            bytes@.len() >= 8,
        ensures
            final(self).0 == le_word_of(bytes@),
    {
        self.0 = (bytes[0] as u64) | (bytes[1] as u64) << 8 | (bytes[2] as u64) << 16 | (bytes[3]
            as u64) << 24 | (bytes[4] as u64) << 32 | (bytes[5] as u64) << 40 | (bytes[6]
            as u64) << 48 | (bytes[7] as u64) << 56;
    }
}

} // verus!
