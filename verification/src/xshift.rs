//! Xorshift64 pseudo-random number generator.

use vstd::prelude::*;

verus! {

/// One xorshift64 step: `x ^= x << 13; x ^= x >> 7; x ^= x << 17`.
pub open spec fn xorshift64_step(x: u64) -> u64 {
    let a = x ^ (x << 13u64);
    let b = a ^ (a >> 7u64);
    b ^ (b << 17u64)
}

/// The generator state after `k` steps from state `x`.
pub open spec fn xorshift64_iter(x: u64, k: nat) -> u64
    decreases k,
{
    if k == 0 {
        x
    } else {
        xorshift64_step(xorshift64_iter(x, (k - 1) as nat))
    }
}

/// A single xorshift64 step never maps a non-zero state to zero: each of the
/// three xor-shift substeps is an invertible linear map on the bits.
pub proof fn lemma_xorshift64_step_nonzero(x: u64)
    requires
        x != 0,
    ensures
        xorshift64_step(x) != 0,
{
    assert(xorshift64_step(x) != 0) by (bit_vector)
        requires
            x != 0,
    ;
}

/// From a non-zero seed, no number of steps reaches the zero state; hence a
/// run of calls to [`XorShift64::rand`] never returns zero.
pub proof fn lemma_xorshift64_iter_nonzero(x: u64, k: nat)
    requires
        x != 0,
    ensures
        xorshift64_iter(x, k) != 0,
    decreases k,
{
    if k > 0 {
        lemma_xorshift64_iter_nonzero(x, (k - 1) as nat);
        lemma_xorshift64_step_nonzero(xorshift64_iter(x, (k - 1) as nat));
    }
}

/// Xorshift64 generator for fast pseudo-random numbers.
#[derive(Clone)]
pub struct XorShift64 {
    /// The internal state; never zero.
    x: u64,
}

impl View for XorShift64 {
    type V = u64;

    /// The internal state.
    closed spec fn view(&self) -> u64 {
        self.x
    }
}

impl XorShift64 {
    /// The states a generator may be in: zero is unreachable.
    pub open spec fn wf(&self) -> bool {
        self@ != 0
    }

    /// Create a generator from `seed`.  Zero is an invalid seed and yields
    /// `None`; any other seed yields `Some`.
    pub fn new(seed: u64) -> (r: Option<XorShift64>)
        ensures
            r is Some <==> seed != 0,
            r matches Some(g) ==> g@ == seed && g.wf(),
    {
        if seed == 0 {
            return None;
        }
        Some(XorShift64 { x: seed })
    }

    /// Advance the state by one xorshift64 step and return it.
    pub fn rand(&mut self) -> (r: u64)
        ensures
            final(self)@ == xorshift64_step(old(self)@),
            r == final(self)@,
            old(self).wf() ==> r != 0 && final(self).wf(),
    {
        proof {
            if old(self).wf() {
                lemma_xorshift64_step_nonzero(old(self)@);
            }
        }
        self.x = self.x ^ (self.x << 13u64);
        self.x = self.x ^ (self.x >> 7u64);
        self.x = self.x ^ (self.x << 17u64);
        self.x
    }

    /// A pseudo-random number in `[lo, hi)`, computed as `lo + rand() % (hi - lo)`.
    /// The slight modulo bias is acceptable for fuzzing.
    pub fn rand_range(&mut self, lo: u64, hi: u64) -> (r: u64)
        requires
            lo < hi,
        ensures
            final(self)@ == xorshift64_step(old(self)@),
            r == lo + xorshift64_step(old(self)@) % ((hi - lo) as u64),
            lo <= r < hi,
            old(self).wf() ==> final(self).wf(),
    {
        let raw = self.rand();
        lo + raw % (hi - lo)
    }

    /// The low 8 bits of the next pseudo-random number.
    pub fn rand_byte(&mut self) -> (r: u8)
        ensures
            final(self)@ == xorshift64_step(old(self)@),
            r == xorshift64_step(old(self)@) as u8,
            old(self).wf() ==> final(self).wf(),
    {
        let raw = self.rand();
        raw as u8
    }
}

} // verus!
