//! FNV-1a 64-bit hashing, used to fingerprint byte sequences.

use vstd::prelude::*;

verus! {

/// Offset basis of the 64-bit FNV-1a hash.
pub const FNV_OFFSET_BASIS: u64 = 0xcbf29ce484222325;

/// Prime of the 64-bit FNV-1a hash.
pub const FNV_PRIME: u64 = 0x100000001b3;

/// One FNV-1a round: absorb byte `b` into state `h`.
pub open spec fn fnv1a_step(h: u64, b: u8) -> u64 {
    vstd::wrapping::u64_specs::wrapping_mul(h ^ (b as u64), FNV_PRIME)
}

/// FNV-1a state after absorbing all of `data` into state `h`, front to back.
pub open spec fn fnv1a_from(h: u64, data: Seq<u8>) -> u64
    decreases data.len(),
{
    if data.len() == 0 {
        h
    } else {
        fnv1a_from(fnv1a_step(h, data.first()), data.drop_first())
    }
}

/// The 64-bit FNV-1a hash of `data`.
pub open spec fn fnv1a(data: Seq<u8>) -> u64 {
    fnv1a_from(FNV_OFFSET_BASIS, data)
}

/// A restartable FNV-1a hasher.  Each call to [`FnvHash::hash`] starts from
/// the offset basis again; the field keeps the result of the last call.
pub struct FnvHash {
    offset: u64,
}

impl View for FnvHash {
    type V = u64;

    /// The hasher's state.
    closed spec fn view(&self) -> u64 {
        self.offset
    }
}

impl FnvHash {
    /// Create a hasher whose state is the offset basis.
    pub fn new() -> (r: FnvHash)
        ensures
            r@ == FNV_OFFSET_BASIS,
    {
        FnvHash { offset: FNV_OFFSET_BASIS }
    }

    /// Hash `data` with 64-bit FNV-1a, restarting from the offset basis.
    pub fn hash(&mut self, data: &[u8]) -> (r: u64)
        ensures
            r == fnv1a(data@),
            final(self)@ == r,
    {
        let mut hash: u64 = FNV_OFFSET_BASIS;
        let mut i: usize = 0;
        proof {
            assert(data@.skip(0) == data@);
        }
        while i < data.len()
            invariant
                i <= data@.len(),
                fnv1a(data@) == fnv1a_from(hash, data@.skip(i as int)),
            decreases data@.len() - i,
        {
            let byte = data[i];
            hash = (hash ^ (byte as u64)).wrapping_mul(FNV_PRIME);
            proof {
                assert(data@.skip(i as int).first() == data@[i as int]);
                assert(data@.skip(i as int).drop_first() == data@.skip(i + 1));
            }
            i = i + 1;
        }
        self.offset = hash;
        hash
    }
}

} // verus!
