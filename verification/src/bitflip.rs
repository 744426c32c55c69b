//! Staged deterministic bit-flip cycles, as a walk over an input.

use vstd::prelude::*;

use crate::bytes::copy_bytes;
use crate::xshift::{XorShift64, xorshift64_step, xorshift64_iter};

verus! {

/// The stages of a bit-flip walk, in their running order.
#[derive(Clone, Copy, Debug, PartialEq, Eq, Structural)]
pub enum BitFlipCycle {
    /// Flip 1 bit of the byte at the cursor.
    Cycle1_1,
    /// Flip 2 bits of the byte at the cursor.
    Cycle2_1,
    /// Flip 4 bits of the byte at the cursor.
    Cycle4_1,
    /// Flip 8 bits in the 8-byte block at the cursor.
    Cycle8_8,
    /// Flip 16 bits in the 8-byte block at the cursor.
    Cycle16_8,
    /// Flip 32 bits in the 8-byte block at the cursor.
    Cycle32_8,
    /// The walk has exhausted its schedule.
    CyclesDone,
}

/// The stage that follows `c`; the final stage repeats itself.
pub open spec fn next_cycle(c: BitFlipCycle) -> BitFlipCycle {
    match c {
        BitFlipCycle::Cycle1_1 => BitFlipCycle::Cycle2_1,
        BitFlipCycle::Cycle2_1 => BitFlipCycle::Cycle4_1,
        BitFlipCycle::Cycle4_1 => BitFlipCycle::Cycle8_8,
        BitFlipCycle::Cycle8_8 => BitFlipCycle::Cycle16_8,
        BitFlipCycle::Cycle16_8 => BitFlipCycle::Cycle32_8,
        BitFlipCycle::Cycle32_8 => BitFlipCycle::CyclesDone,
        BitFlipCycle::CyclesDone => BitFlipCycle::CyclesDone,
    }
}

/// Whether stage `c` works on a whole 8-byte block.
pub open spec fn is_block_cycle(c: BitFlipCycle) -> bool {
    c is Cycle8_8 || c is Cycle16_8 || c is Cycle32_8
}

/// Whether stage `c` works on the single byte at the cursor.
pub open spec fn is_byte_cycle(c: BitFlipCycle) -> bool {
    c is Cycle1_1 || c is Cycle2_1 || c is Cycle4_1
}

/// The cursor step a stage takes per call: 1 for byte stages, 8 for block
/// stages, 0 once done.
pub open spec fn cycle_step(c: BitFlipCycle) -> nat {
    if is_byte_cycle(c) {
        1
    } else if is_block_cycle(c) {
        8
    } else {
        0
    }
}

/// The `(stage, cursor)` pair after one call to [`BitWalk::walk`] in stage
/// `c` with cursor `idx` on an input of length `len`.
pub open spec fn walk_next(c: BitFlipCycle, idx: nat, len: nat) -> (BitFlipCycle, nat) {
    if is_block_cycle(c) && len < 8 {
        (c, idx)
    } else if idx + cycle_step(c) >= len {
        (next_cycle(c), 0)
    } else {
        (c, idx + cycle_step(c))
    }
}

/// `count` single-bit flips drawn from generator state `x`: each draw `r`
/// is `rand() % 64` and flips bit `r % 8` of the byte at
/// `(cursor + r / 8) % len`.
pub open spec fn block_walk(v: Seq<u8>, cursor: nat, x: u64, count: nat) -> Seq<u8>
    decreases count,
{
    if count == 0 || v.len() == 0 {
        v
    } else {
        let r = xorshift64_step(x) % 64;
        let i = (cursor + (r / 8) as nat) % v.len();
        block_walk(
            v.update(i as int, v[i as int] ^ (1u8 << ((r % 8) as usize))),
            cursor,
            xorshift64_step(x),
            (count - 1) as nat,
        )
    }
}

/// A bit walk is applied to a single input: it flips bits deterministically
/// in staged cycles until every stage has run over the input once.
#[derive(Clone)]
pub struct BitWalk {
    /// The current stage.
    cycle: BitFlipCycle,
    /// The byte cursor into the input.
    idx: usize,
}

impl BitWalk {
    /// The current stage.
    pub closed spec fn state(&self) -> BitFlipCycle {
        self.cycle
    }

    /// The byte cursor.
    pub closed spec fn cursor(&self) -> nat {
        self.idx as nat
    }

    /// Start a walk at the first stage with the cursor at zero.
    pub fn new() -> (r: BitWalk)
        ensures
            r.state() is Cycle1_1,
            r.cursor() == 0,
    {
        BitWalk { cycle: BitFlipCycle::Cycle1_1, idx: 0 }
    }

    /// Return to the first stage with the cursor at zero.  The result is
    /// observationally identical to a freshly constructed walk: stage and
    /// cursor are the walk's whole state, and they match [`BitWalk::new`].
    pub fn reset(&mut self)
        ensures
            final(self).state() is Cycle1_1,
            final(self).cursor() == 0,
    {
        self.cycle = BitFlipCycle::Cycle1_1;
        self.idx = 0;
    }

    /// A short description of the current stage.
    pub fn show_state(&mut self) -> (r: String)
        ensures
            *final(self) == *old(self),
            old(self).state() is Cycle1_1 ==> r@ == "Bitflip 1/1"@,
            old(self).state() is Cycle2_1 ==> r@ == "Bitflip 2/1"@,
            old(self).state() is Cycle4_1 ==> r@ == "Bitflip 4/1"@,
            old(self).state() is Cycle8_8 ==> r@ == "Bitflip 8/8"@,
            old(self).state() is Cycle16_8 ==> r@ == "Bitflip 16/8"@,
            old(self).state() is Cycle32_8 ==> r@ == "Bitflip 32/8"@,
            old(self).state() is CyclesDone ==> r@ == "Bitflip Cycle Done"@,
    {
        match self.cycle {
            BitFlipCycle::Cycle1_1 => "Bitflip 1/1".to_owned(),
            BitFlipCycle::Cycle2_1 => "Bitflip 2/1".to_owned(),
            BitFlipCycle::Cycle4_1 => "Bitflip 4/1".to_owned(),
            BitFlipCycle::Cycle8_8 => "Bitflip 8/8".to_owned(),
            BitFlipCycle::Cycle16_8 => "Bitflip 16/8".to_owned(),
            BitFlipCycle::Cycle32_8 => "Bitflip 32/8".to_owned(),
            BitFlipCycle::CyclesDone => "Bitflip Cycle Done".to_owned(),
        }
    }

    /// Move the cursor by `step`; at or past the end of the input, advance
    /// to the next stage and reset the cursor.
    fn next_state(&mut self, step: usize, input_size: usize)
        ensures
            old(self).cursor() + step >= input_size ==> final(self).state() == next_cycle(
                old(self).state(),
            ) && final(self).cursor() == 0,
            old(self).cursor() + step < input_size ==> final(self).state() == old(self).state()
                && final(self).cursor() == old(self).cursor() + step,
    {
        if self.idx >= input_size || input_size - self.idx <= step {
            self.idx = 0;
            self.cycle = match self.cycle {
                BitFlipCycle::Cycle1_1 => BitFlipCycle::Cycle2_1,
                BitFlipCycle::Cycle2_1 => BitFlipCycle::Cycle4_1,
                BitFlipCycle::Cycle4_1 => BitFlipCycle::Cycle8_8,
                BitFlipCycle::Cycle8_8 => BitFlipCycle::Cycle16_8,
                BitFlipCycle::Cycle16_8 => BitFlipCycle::Cycle32_8,
                BitFlipCycle::Cycle32_8 => BitFlipCycle::CyclesDone,
                BitFlipCycle::CyclesDone => BitFlipCycle::CyclesDone,
            };
        } else {
            self.idx = self.idx + step;
        }
    }

    /// Flip one pseudo-random bit of the byte at the cursor.
    fn bitflip_1_1(&self, rand: &mut XorShift64, input: &Vec<u8>) -> (v: Vec<u8>)
        requires
            self.cursor() < input@.len(),
        ensures
            ({
                let c = self.cursor() as int;
                let b0 = (xorshift64_step(old(rand)@) % 8) as usize;
                v@ == input@.update(c, input@[c] ^ (1u8 << b0))
            }),
            final(rand)@ == xorshift64_step(old(rand)@),
            old(rand).wf() ==> final(rand).wf(),
    {
        let mut v = copy_bytes(input);
        let r = rand.rand_range(0, 8);
        let x = v[self.idx] ^ (1u8 << (r as usize));
        v.set(self.idx, x);
        v
    }

    /// Flip two independently drawn pseudo-random bits of the byte at the
    /// cursor; equal draws cancel out.
    fn bitflip_2_1(&self, rand: &mut XorShift64, input: &Vec<u8>) -> (v: Vec<u8>)
        requires
            self.cursor() < input@.len(),
        ensures
            ({
                let c = self.cursor() as int;
                let b0 = (xorshift64_step(old(rand)@) % 8) as usize;
                let b1 = (xorshift64_step(xorshift64_step(old(rand)@)) % 8) as usize;
                v@ == input@.update(c, input@[c] ^ (1u8 << b0) ^ (1u8 << b1))
            }),
            final(rand)@ == xorshift64_step(xorshift64_step(old(rand)@)),
            old(rand).wf() ==> final(rand).wf(),
    {
        let mut v = copy_bytes(input);
        let r0 = rand.rand_range(0, 8);
        let r1 = rand.rand_range(0, 8);
        let x = v[self.idx] ^ (1u8 << (r0 as usize)) ^ (1u8 << (r1 as usize));
        v.set(self.idx, x);
        v
    }

    /// Flip four independently drawn pseudo-random bits of the byte at the
    /// cursor.
    fn bitflip_4_1(&self, rand: &mut XorShift64, input: &Vec<u8>) -> (v: Vec<u8>)
        requires
            self.cursor() < input@.len(),
        ensures
            ({
                let c = self.cursor() as int;
                let s1 = xorshift64_step(old(rand)@);
                let s2 = xorshift64_step(s1);
                let s3 = xorshift64_step(s2);
                let s4 = xorshift64_step(s3);
                v@ == input@.update(
                    c,
                    input@[c] ^ (1u8 << ((s1 % 8) as usize)) ^ (1u8 << ((s2 % 8) as usize)) ^ (1u8
                        << ((s3 % 8) as usize)) ^ (1u8 << ((s4 % 8) as usize)),
                )
            }),
            final(rand)@ == xorshift64_step(
                xorshift64_step(xorshift64_step(xorshift64_step(old(rand)@))),
            ),
            old(rand).wf() ==> final(rand).wf(),
    {
        let mut v = copy_bytes(input);
        let r0 = rand.rand_range(0, 8);
        let r1 = rand.rand_range(0, 8);
        let r2 = rand.rand_range(0, 8);
        let r3 = rand.rand_range(0, 8);
        let x = v[self.idx] ^ (1u8 << (r0 as usize)) ^ (1u8 << (r1 as usize)) ^ (1u8 << (
        r2 as usize)) ^ (1u8 << (r3 as usize));
        v.set(self.idx, x);
        v
    }

    /// Flip `count` pseudo-random bits in the 8-byte block rooted at the
    /// cursor, wrapping at the end of the input.  The wrapped-index form is
    /// used uniformly for all three block stages.
    fn flip_block(&self, rand: &mut XorShift64, input: &Vec<u8>, count: usize) -> (v: Vec<u8>)
        requires
            input@.len() >= 8,
        ensures
            v@ == block_walk(input@, self.cursor(), old(rand)@, count as nat),
            v@.len() == input@.len(),
            final(rand)@ == xorshift64_iter(old(rand)@, count as nat),
            old(rand).wf() ==> final(rand).wf(),
    {
        let mut v = copy_bytes(input);
        let ghost x0: u64 = rand@;
        let mut k: usize = 0;
        while k < count
            invariant
                k <= count,
                v@.len() == input@.len() >= 8,
                block_walk(input@, self.cursor(), x0, count as nat) == block_walk(
                    v@,
                    self.cursor(),
                    rand@,
                    (count - k) as nat,
                ),
                rand@ == xorshift64_iter(x0, k as nat),
                old(rand).wf() ==> rand.wf(),
            decreases count - k,
        {
            let r = rand.rand_range(0, 64);
            let bi = ((self.idx as u128 + (r / 8) as u128) % (input.len() as u128)) as usize;
            proof {
                assert(bi as nat == (self.cursor() + ((r % 64) / 8) as nat) % v@.len());
            }
            let x = v[bi] ^ (1u8 << ((r % 8) as usize));
            v.set(bi, x);
            k = k + 1;
        }
        v
    }

    /// One step of the walk.  Byte stages mutate the byte at the cursor and
    /// move it by one; block stages need at least 8 input bytes (else the
    /// step is skipped with no state change) and move the cursor by eight;
    /// when the cursor leaves the input, the walk advances to the next
    /// stage.  Returns `None` when nothing was mutated.
    pub fn walk(&mut self, rand: &mut XorShift64, input: &Vec<u8>) -> (r: Option<Vec<u8>>)
        requires
            is_byte_cycle(old(self).state()) ==> old(self).cursor() < input@.len(),
        ensures
            ({
                let (c2, i2) = walk_next(old(self).state(), old(self).cursor(), input@.len());
                final(self).state() == c2 && final(self).cursor() == i2
            }),
            r is None <==> (old(self).state() is CyclesDone || (is_block_cycle(old(self).state())
                && input@.len() < 8)),
            r matches Some(v) ==> v@.len() == input@.len(),
            old(self).state() is Cycle1_1 ==> (r matches Some(v) && {
                let c = old(self).cursor() as int;
                let b0 = (xorshift64_step(old(rand)@) % 8) as usize;
                v@ == input@.update(c, input@[c] ^ (1u8 << b0))
            }),
            old(self).state() is Cycle2_1 ==> (r matches Some(v) && {
                let c = old(self).cursor() as int;
                let b0 = (xorshift64_step(old(rand)@) % 8) as usize;
                let b1 = (xorshift64_step(xorshift64_step(old(rand)@)) % 8) as usize;
                v@ == input@.update(c, input@[c] ^ (1u8 << b0) ^ (1u8 << b1))
            }),
            old(self).state() is Cycle4_1 ==> (r matches Some(v) && {
                let c = old(self).cursor() as int;
                let s1 = xorshift64_step(old(rand)@);
                let s2 = xorshift64_step(s1);
                let s3 = xorshift64_step(s2);
                let s4 = xorshift64_step(s3);
                v@ == input@.update(
                    c,
                    input@[c] ^ (1u8 << ((s1 % 8) as usize)) ^ (1u8 << ((s2 % 8) as usize)) ^ (1u8
                        << ((s3 % 8) as usize)) ^ (1u8 << ((s4 % 8) as usize)),
                )
            }),
            old(self).state() is Cycle8_8 && input@.len() >= 8 ==> (r matches Some(v) && v@
                == block_walk(input@, old(self).cursor(), old(rand)@, 8)),
            old(self).state() is Cycle16_8 && input@.len() >= 8 ==> (r matches Some(v) && v@
                == block_walk(input@, old(self).cursor(), old(rand)@, 16)),
            old(self).state() is Cycle32_8 && input@.len() >= 8 ==> (r matches Some(v) && v@
                == block_walk(input@, old(self).cursor(), old(rand)@, 32)),
            old(rand).wf() ==> final(rand).wf(),
    {
        let res: Option<Vec<u8>> = match self.cycle {
            BitFlipCycle::Cycle1_1 => Some(self.bitflip_1_1(rand, input)),
            BitFlipCycle::Cycle2_1 => Some(self.bitflip_2_1(rand, input)),
            BitFlipCycle::Cycle4_1 => Some(self.bitflip_4_1(rand, input)),
            BitFlipCycle::Cycle8_8 => {
                if input.len() < 8 {
                    return None;
                }
                Some(self.flip_block(rand, input, 8))
            },
            BitFlipCycle::Cycle16_8 => {
                if input.len() < 8 {
                    return None;
                }
                Some(self.flip_block(rand, input, 16))
            },
            BitFlipCycle::Cycle32_8 => {
                if input.len() < 8 {
                    return None;
                }
                Some(self.flip_block(rand, input, 32))
            },
            BitFlipCycle::CyclesDone => None,
        };

        let step: usize = match self.cycle {
            BitFlipCycle::Cycle1_1 => 1,
            BitFlipCycle::Cycle2_1 => 1,
            BitFlipCycle::Cycle4_1 => 1,
            BitFlipCycle::Cycle8_8 => 8,
            BitFlipCycle::Cycle16_8 => 8,
            BitFlipCycle::Cycle32_8 => 8,
            BitFlipCycle::CyclesDone => 0,
        };
        self.next_state(step, input.len());
        res
    }
}


/// The `(stage, cursor)` pair after `k` walk steps on inputs of length
/// `len`, starting from stage `c` with cursor `idx`.
pub open spec fn walk_iter(c: BitFlipCycle, idx: nat, len: nat, k: nat) -> (BitFlipCycle, nat)
    decreases k,
{
    if k == 0 {
        (c, idx)
    } else {
        let prev = walk_iter(c, idx, len, (k - 1) as nat);
        walk_next(prev.0, prev.1, len)
    }
}

/// Splitting a walk run: `a + b` steps equal `b` steps after `a`.
proof fn lemma_walk_iter_add(c: BitFlipCycle, idx: nat, len: nat, a: nat, b: nat)
    ensures
        walk_iter(c, idx, len, a + b) == walk_iter(
            walk_iter(c, idx, len, a).0,
            walk_iter(c, idx, len, a).1,
            len,
            b,
        ),
    decreases b,
{
    if b > 0 {
        lemma_walk_iter_add(c, idx, len, a, (b - 1) as nat);
    }
}

/// A byte stage crosses an input of length `len` in exactly `len` steps,
/// then hands over to the next stage with the cursor reset.
proof fn lemma_walk_byte_stage(c: BitFlipCycle, len: nat, j: nat)
    requires
        is_byte_cycle(c),
        len >= 1,
        j <= len,
    ensures
        walk_iter(c, 0, len, j) == (if j < len {
            (c, j)
        } else {
            (next_cycle(c), 0nat)
        }),
    decreases j,
{
    if j > 0 {
        lemma_walk_byte_stage(c, len, (j - 1) as nat);
    }
}

/// A block stage crosses an input of length `len >= 8` in strides of
/// eight: after `(len + 7) / 8` steps it hands over to the next stage.
proof fn lemma_walk_block_stage(c: BitFlipCycle, len: nat, j: nat)
    requires
        is_block_cycle(c),
        len >= 8,
        j <= (len + 7) / 8,
    ensures
        walk_iter(c, 0, len, j) == (if j < (len + 7) / 8 {
            (c, (8 * j) as nat)
        } else {
            (next_cycle(c), 0nat)
        }),
    decreases j,
{
    if j > 0 {
        lemma_walk_block_stage(c, len, (j - 1) as nat);
    }
}

/// Once the walk is done it stays done: every further step keeps the final
/// stage with the cursor at zero.
pub proof fn lemma_walk_done_absorbing(len: nat, k: nat)
    ensures
        walk_iter(BitFlipCycle::CyclesDone, 0, len, k) == (BitFlipCycle::CyclesDone, 0nat),
    decreases k,
{
    if k > 0 {
        lemma_walk_done_absorbing(len, (k - 1) as nat);
    }
}

/// Bit-walk completeness: on an input of a fixed length `len >= 8`, a
/// fresh walk takes each of the three byte stages across the input once
/// (`len` steps each, every step mutating) and each of the three block
/// stages in strides of eight (`(len + 7) / 8` steps each), and after
/// `3 * len + 3 * ((len + 7) / 8)` steps the walk is done, every further
/// step being skipped.
pub proof fn lemma_walk_schedule(len: nat)
    requires
        len >= 8,
    ensures
        ({
            let blocks = ((len + 7) / 8) as nat;
            walk_iter(BitFlipCycle::Cycle1_1, 0, len, (3 * len + 3 * blocks) as nat) == (
            BitFlipCycle::CyclesDone, 0nat)
        }),
{
    let blocks = ((len + 7) / 8) as nat;
    lemma_walk_byte_stage(BitFlipCycle::Cycle1_1, len, len);
    lemma_walk_byte_stage(BitFlipCycle::Cycle2_1, len, len);
    lemma_walk_byte_stage(BitFlipCycle::Cycle4_1, len, len);
    lemma_walk_block_stage(BitFlipCycle::Cycle8_8, len, blocks);
    lemma_walk_block_stage(BitFlipCycle::Cycle16_8, len, blocks);
    lemma_walk_block_stage(BitFlipCycle::Cycle32_8, len, blocks);
    lemma_walk_iter_add(BitFlipCycle::Cycle1_1, 0, len, len, len);
    assert(walk_iter(BitFlipCycle::Cycle1_1, 0, len, (2 * len) as nat) == (
    BitFlipCycle::Cycle4_1, 0nat));
    lemma_walk_iter_add(BitFlipCycle::Cycle1_1, 0, len, (2 * len) as nat, len);
    assert(walk_iter(BitFlipCycle::Cycle1_1, 0, len, (3 * len) as nat) == (
    BitFlipCycle::Cycle8_8, 0nat));
    lemma_walk_iter_add(BitFlipCycle::Cycle1_1, 0, len, (3 * len) as nat, blocks);
    assert(walk_iter(BitFlipCycle::Cycle1_1, 0, len, (3 * len + blocks) as nat) == (
    BitFlipCycle::Cycle16_8, 0nat));
    lemma_walk_iter_add(BitFlipCycle::Cycle1_1, 0, len, (3 * len + blocks) as nat, blocks);
    assert(walk_iter(BitFlipCycle::Cycle1_1, 0, len, (3 * len + 2 * blocks) as nat) == (
    BitFlipCycle::Cycle32_8, 0nat));
    lemma_walk_iter_add(BitFlipCycle::Cycle1_1, 0, len, (3 * len + 2 * blocks) as nat, blocks);
}
} // verus!
