//! Byte-level mutation operators and the mutator that stacks them.

use vstd::prelude::*;

use crate::bytes::copy_bytes;
use crate::xshift::{XorShift64, xorshift64_step, xorshift64_iter};

verus! {

/// Remove one pseudo-randomly chosen byte; a no-op on empty input.
pub fn mutation_remove(rand: &mut XorShift64, input: &Vec<u8>) -> (r: Vec<u8>)
    ensures
        input@.len() == 0 ==> r@ == input@ && *final(rand) == *old(rand),
        input@.len() > 0 ==> {
            let idx = (xorshift64_step(old(rand)@) as usize) as int % input@.len() as int;
            &&& r@ == input@.remove(idx)
            &&& r@.len() == input@.len() - 1
            &&& final(rand)@ == xorshift64_step(old(rand)@)
        },
        old(rand).wf() ==> final(rand).wf(),
{
    let mut v = copy_bytes(input);
    if v.len() != 0 {
        let raw = rand.rand();
        v.remove((raw as usize) % v.len());
    }
    v
}

/// Insert one pseudo-random byte at a pseudo-randomly chosen position,
/// shifting the tail right.
pub fn mutation_insert(rand: &mut XorShift64, input: &Vec<u8>) -> (r: Vec<u8>)
    requires
        input@.len() > 0,
    ensures
        ({
            let pos = (xorshift64_step(old(rand)@) as usize) as int % input@.len() as int;
            let byte = xorshift64_step(xorshift64_step(old(rand)@)) as u8;
            &&& r@ == input@.insert(pos, byte)
            &&& r@.len() == input@.len() + 1
        }),
        final(rand)@ == xorshift64_step(xorshift64_step(old(rand)@)),
        old(rand).wf() ==> final(rand).wf(),
{
    let mut v = copy_bytes(input);
    let pos = (rand.rand() as usize) % v.len();
    let byte = rand.rand_byte();
    v.insert(pos, byte);
    v
}

/// Flip one pseudo-randomly chosen bit in one pseudo-randomly chosen byte.
pub fn mutation_bitflip(rand: &mut XorShift64, input: &Vec<u8>) -> (r: Vec<u8>)
    requires
        input@.len() > 0,
    ensures
        ({
            let idx = (xorshift64_step(old(rand)@) as usize) as int % input@.len() as int;
            let pos = (xorshift64_step(xorshift64_step(old(rand)@)) as usize) % 8;
            r@ == input@.update(idx, input@[idx] ^ (1u8 << pos))
        }),
        r@.len() == input@.len(),
        final(rand)@ == xorshift64_step(xorshift64_step(old(rand)@)),
        old(rand).wf() ==> final(rand).wf(),
{
    let mut v = copy_bytes(input);
    let idx = (rand.rand() as usize) % v.len();
    let pos = (rand.rand() as usize) % 8;
    let x = v[idx] ^ (1u8 << pos);
    v.set(idx, x);
    v
}

/// Xor one pseudo-randomly chosen byte with a pseudo-random byte.
pub fn mutation_xor(rand: &mut XorShift64, input: &Vec<u8>) -> (r: Vec<u8>)
    requires
        input@.len() > 0,
    ensures
        ({
            let idx = (xorshift64_step(old(rand)@) as usize) as int % input@.len() as int;
            let byte = xorshift64_step(xorshift64_step(old(rand)@)) as u8;
            r@ == input@.update(idx, input@[idx] ^ byte)
        }),
        r@.len() == input@.len(),
        final(rand)@ == xorshift64_step(xorshift64_step(old(rand)@)),
        old(rand).wf() ==> final(rand).wf(),
{
    let mut v = copy_bytes(input);
    let idx = (rand.rand() as usize) % v.len();
    let byte = rand.rand_byte();
    let x = v[idx] ^ byte;
    v.set(idx, x);
    v
}

/// Add a pseudo-random value in `[1, 256)` to one pseudo-randomly chosen
/// byte, with wrapping.
pub fn mutation_arithmetic(rand: &mut XorShift64, input: &Vec<u8>) -> (r: Vec<u8>)
    requires
        input@.len() > 0,
    ensures
        ({
            let idx = (xorshift64_step(old(rand)@) as usize) as int % input@.len() as int;
            let k = (xorshift64_step(xorshift64_step(old(rand)@)) % 255 + 1) as u8;
            r@ == input@.update(idx, vstd::wrapping::u8_specs::wrapping_add(input@[idx], k))
        }),
        r@.len() == input@.len(),
        final(rand)@ == xorshift64_step(xorshift64_step(old(rand)@)),
        old(rand).wf() ==> final(rand).wf(),
{
    let mut v = copy_bytes(input);
    let idx = (rand.rand() as usize) % v.len();
    let k = (rand.rand() % 255 + 1) as u8;
    let x = v[idx].wrapping_add(k);
    v.set(idx, x);
    v
}

/// Byte `b` after `k` single-bit flips, each at position `rand() % 8`,
/// drawn from generator state `x`.
pub open spec fn flip_byte(b: u8, x: u64, k: nat) -> u8
    decreases k,
{
    if k == 0 {
        b
    } else {
        flip_byte(
            b ^ (1u8 << ((xorshift64_step(x) % 8) as usize)),
            xorshift64_step(x),
            (k - 1) as nat,
        )
    }
}

/// The bytes of `s` from index `i` on, each replaced by `l` bit flips, the
/// generator advancing `l` steps per byte.
pub open spec fn byte_walk_from(s: Seq<u8>, l: nat, x: u64, i: int) -> Seq<u8>
    decreases s.len() - i,
{
    if i < 0 || i >= s.len() {
        s
    } else {
        byte_walk_from(
            s.update(i, flip_byte(s[i], x, l)),
            l,
            xorshift64_iter(x, l),
            i + 1,
        )
    }
}

/// Walk the input byte by byte, flipping `l` pseudo-random bits in each byte,
/// for a pseudo-random `l` in `[1, 4]`.  Length is preserved.
pub fn mutation_bitwalk(rand: &mut XorShift64, input: &Vec<u8>) -> (r: Vec<u8>)
    ensures
        r@.len() == input@.len(),
        ({
            let l = xorshift64_step(old(rand)@) % 4 + 1;
            &&& r@ == byte_walk_from(input@, l as nat, xorshift64_step(old(rand)@), 0)
            &&& final(rand)@ == xorshift64_iter(old(rand)@, (1 + l * input@.len()) as nat)
        }),
        old(rand).wf() ==> final(rand).wf(),
{
    let mut v = copy_bytes(input);
    let l = (rand.rand() % 4) as usize + 1;
    let ghost r1: u64 = rand@;
    let mut i: usize = 0;
    while i < v.len()
        invariant
            i <= v@.len(),
            v@.len() == input@.len(),
            rand@ == xorshift64_iter(r1, (l * i) as nat),
            byte_walk_from(input@, l as nat, r1, 0) == byte_walk_from(v@, l as nat, rand@, i as int),
            old(rand).wf() ==> rand.wf(),
            1 <= l <= 4,
        decreases v@.len() - i,
    {
        let ghost r_byte: u64 = rand@;
        let ghost v_frame: Seq<u8> = v@;
        let mut j: usize = 0;
        while j < l
            invariant
                j <= l,
                i < v@.len(),
                v@.len() == input@.len(),
                v_frame.len() == v@.len(),
                rand@ == xorshift64_iter(r_byte, j as nat),
                flip_byte(v_frame[i as int], r_byte, l as nat) == flip_byte(
                    v@[i as int],
                    rand@,
                    (l - j) as nat,
                ),
                forall|k: int| 0 <= k < v@.len() && k != i ==> v@[k] == v_frame[k],
                old(rand).wf() ==> rand.wf(),
                1 <= l <= 4,
            decreases l - j,
        {
            let pos = (rand.rand() % 8) as usize;
            let x = v[i] ^ (1u8 << pos);
            v.set(i, x);
            j = j + 1;
        }
        proof {
            assert(v@ =~= v_frame.update(i as int, flip_byte(v_frame[i as int], r_byte, l as nat)));
            assert(byte_walk_from(v_frame, l as nat, r_byte, i as int) == byte_walk_from(
                v@,
                l as nat,
                rand@,
                i + 1,
            ));
            lemma_xorshift64_iter_add(r1, (l * i) as nat, l as nat);
            assert(l * (i + 1) == l * i + l) by (nonlinear_arith);
        }
        i = i + 1;
    }
    proof {
        lemma_xorshift64_iter_add(old(rand)@, 1, (l * input@.len()) as nat);
        assert(xorshift64_iter(old(rand)@, 1) == r1) by {
            reveal_with_fuel(xorshift64_iter, 2);
        }
        assert(byte_walk_from(v@, l as nat, rand@, v@.len() as int) == v@);
    }
    v
}

/// The mutation operators a [`Mutator`] can pick from.
#[derive(Clone, Copy, Debug)]
pub enum MutationOp {
    /// [`mutation_bitflip`]
    Bitflip,
    /// [`mutation_xor`]
    Xor,
    /// [`mutation_arithmetic`]
    Arithmetic,
    /// [`mutation_insert`]
    Insert,
    /// [`mutation_remove`]
    Remove,
    /// [`mutation_bitwalk`]
    Bitwalk,
}

/// The specific family of mutations a mutator applies.
#[derive(Clone, Copy, Debug)]
pub enum MutatorType {
    /// Bitflip, xor and arithmetic mutations only.
    Deterministic,
    /// Bitflip, xor, arithmetic, insert and remove.
    NonDeterministic,
    /// Bitwalk, insert and remove.
    BitWalk,
}

/// The result and generator state of one operator application on a
/// non-empty input with entry state `x`.
pub open spec fn apply_op_spec(op: MutationOp, x: u64, s: Seq<u8>) -> (Seq<u8>, u64) {
    match op {
        MutationOp::Bitflip => {
            let idx = (xorshift64_step(x) as usize) as int % s.len() as int;
            let pos = (xorshift64_step(xorshift64_step(x)) as usize) % 8;
            (s.update(idx, s[idx] ^ (1u8 << pos)), xorshift64_step(xorshift64_step(x)))
        },
        MutationOp::Xor => {
            let idx = (xorshift64_step(x) as usize) as int % s.len() as int;
            let byte = xorshift64_step(xorshift64_step(x)) as u8;
            (s.update(idx, s[idx] ^ byte), xorshift64_step(xorshift64_step(x)))
        },
        MutationOp::Arithmetic => {
            let idx = (xorshift64_step(x) as usize) as int % s.len() as int;
            let k = (xorshift64_step(xorshift64_step(x)) % 255 + 1) as u8;
            (
                s.update(idx, vstd::wrapping::u8_specs::wrapping_add(s[idx], k)),
                xorshift64_step(xorshift64_step(x)),
            )
        },
        MutationOp::Insert => {
            let pos = (xorshift64_step(x) as usize) as int % s.len() as int;
            let byte = xorshift64_step(xorshift64_step(x)) as u8;
            (s.insert(pos, byte), xorshift64_step(xorshift64_step(x)))
        },
        MutationOp::Remove => {
            let idx = (xorshift64_step(x) as usize) as int % s.len() as int;
            (s.remove(idx), xorshift64_step(x))
        },
        MutationOp::Bitwalk => {
            let l = xorshift64_step(x) % 4 + 1;
            (
                byte_walk_from(s, l as nat, xorshift64_step(x), 0),
                xorshift64_iter(x, (1 + l * s.len()) as nat),
            )
        },
    }
}

/// At most `k` further operator applications folded over `s` from
/// generator state `x`: each step draws an operator index, applies the
/// operator, and the fold stops early once the working value holds at
/// most one byte.
pub open spec fn mutate_steps(ops: Seq<MutationOp>, s: Seq<u8>, x: u64, k: nat) -> (Seq<u8>, u64)
    decreases k,
{
    if k == 0 || s.len() == 0 || ops.len() == 0 {
        (s, x)
    } else {
        let idx = (xorshift64_step(x) as usize) as int % ops.len() as int;
        let applied = apply_op_spec(ops[idx], xorshift64_step(x), s);
        if applied.0.len() <= 1 {
            applied
        } else {
            mutate_steps(ops, applied.0, applied.1, (k - 1) as nat)
        }
    }
}

/// What [`Mutator::mutate`] returns: with a zero stack bound the input
/// comes back unchanged and the generator does not move; otherwise one
/// draw fixes the stack depth in `[0, max)` and the drawn operators fold
/// over the input.
pub open spec fn mutate_spec(ops: Seq<MutationOp>, s: Seq<u8>, x: u64, max: nat) -> (Seq<u8>, u64) {
    if max == 0 {
        (s, x)
    } else {
        mutate_steps(
            ops,
            s,
            xorshift64_step(x),
            (((xorshift64_step(x) as usize) as int % max as int)) as nat,
        )
    }
}

/// Apply one operator to `input`, returning the mutated copy.
fn apply_op(op: MutationOp, rand: &mut XorShift64, input: &Vec<u8>) -> (r: Vec<u8>)
    requires
        input@.len() > 0,
        old(rand).wf(),
    ensures
        final(rand).wf(),
        r@ == apply_op_spec(op, old(rand)@, input@).0,
        final(rand)@ == apply_op_spec(op, old(rand)@, input@).1,
        op is Insert ==> r@.len() == input@.len() + 1,
        op is Remove ==> r@.len() == input@.len() - 1,
        !(op is Insert) && !(op is Remove) ==> r@.len() == input@.len(),
{
    match op {
        MutationOp::Bitflip => mutation_bitflip(rand, input),
        MutationOp::Xor => mutation_xor(rand, input),
        MutationOp::Arithmetic => mutation_arithmetic(rand, input),
        MutationOp::Insert => mutation_insert(rand, input),
        MutationOp::Remove => mutation_remove(rand, input),
        MutationOp::Bitwalk => mutation_bitwalk(rand, input),
    }
}

/// Holds an ordered list of operators and applies a pseudo-random stack of
/// them to an input.
#[derive(Clone)]
pub struct Mutator {
    /// Chooses the stack depth and the operators.
    prng: XorShift64,
    /// The operators available to this mutator.
    mutations: Vec<MutationOp>,
    /// Upper bound on the number of operators applied per input.
    max_mutations: usize,
}

impl Mutator {
    /// The ordered operator list of this mutator.
    pub closed spec fn ops(&self) -> Seq<MutationOp> {
        self.mutations@
    }

    /// The bound on the mutation stack depth.
    pub closed spec fn max_stack(&self) -> nat {
        self.max_mutations as nat
    }

    /// The state of the embedded generator.
    pub closed spec fn prng_state(&self) -> u64 {
        self.prng@
    }

    /// A usable mutator: at least one operator, valid generator state.
    pub open spec fn wf(&self) -> bool {
        self.ops().len() > 0 && self.prng_state() != 0
    }

    /// The operator list that belongs to each mutator flavor.
    pub open spec fn ops_for(mut_type: MutatorType) -> Seq<MutationOp> {
        match mut_type {
            MutatorType::Deterministic => seq![
                MutationOp::Bitflip,
                MutationOp::Xor,
                MutationOp::Arithmetic,
            ],
            MutatorType::NonDeterministic => seq![
                MutationOp::Bitflip,
                MutationOp::Xor,
                MutationOp::Arithmetic,
                MutationOp::Insert,
                MutationOp::Remove,
            ],
            MutatorType::BitWalk => seq![
                MutationOp::Bitwalk,
                MutationOp::Insert,
                MutationOp::Remove,
            ],
        }
    }

    /// Create a mutator of flavor `mut_type` that applies at most
    /// `max_mutations` operators per input, drawing from `seed`.
    pub fn new(mut_type: MutatorType, max_mutations: usize, seed: u64) -> (r: Mutator)
        requires
            seed != 0,
        ensures
            r.ops() == Self::ops_for(mut_type),
            r.max_stack() == max_mutations,
            r.prng_state() == seed,
            r.wf(),
    {
        let prng = XorShift64::new(seed).unwrap();

        let mut mutations: Vec<MutationOp> = Vec::new();
        match mut_type {
            MutatorType::Deterministic => {
                mutations.push(MutationOp::Bitflip);
                mutations.push(MutationOp::Xor);
                mutations.push(MutationOp::Arithmetic);
            },
            MutatorType::NonDeterministic => {
                mutations.push(MutationOp::Bitflip);
                mutations.push(MutationOp::Xor);
                mutations.push(MutationOp::Arithmetic);
                mutations.push(MutationOp::Insert);
                mutations.push(MutationOp::Remove);
            },
            MutatorType::BitWalk => {
                mutations.push(MutationOp::Bitwalk);
                mutations.push(MutationOp::Insert);
                mutations.push(MutationOp::Remove);
            },
        }
        proof {
            assert(mutations@ =~= Self::ops_for(mut_type));
        }

        Mutator { prng, mutations, max_mutations }
    }

    /// Apply a pseudo-random stack of at most `max_stack` operators to a
    /// copy of `input`: one draw fixes the stack depth, each step draws an
    /// operator from this mutator's list and applies it, and the stack
    /// stops early once the working copy shrinks to one byte, so inputs of
    /// two or more bytes never mutate to nothing.  The result and the
    /// generator state afterwards are exactly [`mutate_spec`] of the
    /// mutator's operators, the input and the entry state; in particular a
    /// stack bound of zero or one returns the input unchanged.
    pub fn mutate(&mut self, input: &Vec<u8>) -> (r: Vec<u8>)
        requires
            old(self).wf(),
            input@.len() > 0 || old(self).max_stack() <= 1,
        ensures
            final(self).wf(),
            final(self).ops() == old(self).ops(),
            final(self).max_stack() == old(self).max_stack(),
            r@ == mutate_spec(old(self).ops(), input@, old(self).prng_state(), old(self).max_stack()).0,
            final(self).prng_state() == mutate_spec(
                old(self).ops(),
                input@,
                old(self).prng_state(),
                old(self).max_stack(),
            ).1,
            old(self).max_stack() <= 1 ==> r@ == input@,
            r@.len() <= input@.len() + old(self).max_stack(),
            input@.len() >= 2 ==> r@.len() >= 1,
    {
        let ghost m = mutate_spec(
            old(self).ops(),
            input@,
            old(self).prng_state(),
            old(self).max_stack(),
        );
        let mut mutation = copy_bytes(input);

        let n: usize = if self.max_mutations == 0 {
            0
        } else {
            (self.prng.rand() as usize) % self.max_mutations
        };
        proof {
            if old(self).max_stack() > 0 {
                assert(m == mutate_steps(old(self).ops(), input@, self.prng@, n as nat));
            }
        }

        let mut j: usize = 0;
        while j < n
            invariant_except_break
                j <= n,
                n <= old(self).max_stack(),
                input@.len() == 0 ==> n == 0,
                self.wf(),
                self.ops() == old(self).ops(),
                self.max_stack() == old(self).max_stack(),
                mutation@.len() <= input@.len() + j,
                input@.len() > 0 ==> mutation@.len() >= 1,
                input@.len() >= 2 ==> mutation@.len() >= 2,
                n == 0 ==> mutation@ == input@ && self.prng@ == (if old(self).max_stack() == 0 {
                    old(self).prng_state()
                } else {
                    xorshift64_step(old(self).prng_state())
                }),
                old(self).max_stack() == 0 ==> m == (input@, old(self).prng_state()),
                old(self).max_stack() > 0 ==> m == mutate_steps(
                    old(self).ops(),
                    mutation@,
                    self.prng@,
                    (n - j) as nat,
                ),
            ensures
                self.wf(),
                self.ops() == old(self).ops(),
                self.max_stack() == old(self).max_stack(),
                mutation@.len() <= input@.len() + n,
                input@.len() >= 2 ==> mutation@.len() >= 1,
                n == 0 ==> mutation@ == input@,
                mutation@ == m.0 && self.prng@ == m.1,
            decreases n - j,
        {
            let idx = (self.prng.rand() as usize) % self.mutations.len();
            let op = self.mutations[idx];
            mutation = apply_op(op, &mut self.prng, &mutation);
            j = j + 1;

            // don't shrink degenerate inputs any further
            if mutation.len() <= 1 {
                break ;
            }
        }
        mutation
    }
}

/// Iterating `a + b` xorshift64 steps equals iterating `b` steps after `a`.
proof fn lemma_xorshift64_iter_add(x: u64, a: nat, b: nat)
    ensures
        xorshift64_iter(x, a + b) == xorshift64_iter(xorshift64_iter(x, a), b),
    decreases b,
{
    if b > 0 {
        lemma_xorshift64_iter_add(x, a, (b - 1) as nat);
    }
}

} // verus!
