//! Cycle-based regime selector: decides which mutation regime a fuzzing
//! worker is in, and when the corpus is regenerated.

use vstd::prelude::*;

verus! {

/// The regimes a fuzzing worker cycles through.
#[derive(Clone, Copy, Debug, PartialEq, Eq, Structural)]
pub enum FuzzingCycle {
    /// Drop the current derivations and regenerate the corpus.
    CycleRegenerate,
    /// Bitflip, xor and arithmetic mutations only.
    CycleDeterministic,
    /// Bitflip, xor, arithmetic, insert and remove.
    CycleNonDeterministic,
    /// Bitwalk, insert and remove.
    CycleBitWalk,
}

/// The regime that follows `c` in the fixed order
/// deterministic, non-deterministic, bit-walk, regenerate.
pub open spec fn next_regime(c: FuzzingCycle) -> FuzzingCycle {
    match c {
        FuzzingCycle::CycleRegenerate => FuzzingCycle::CycleDeterministic,
        FuzzingCycle::CycleDeterministic => FuzzingCycle::CycleNonDeterministic,
        FuzzingCycle::CycleNonDeterministic => FuzzingCycle::CycleBitWalk,
        FuzzingCycle::CycleBitWalk => FuzzingCycle::CycleRegenerate,
    }
}

/// One scheduler step on the pair (regime, in-cycle counter): at the
/// iteration bound the regime advances and the counter resets, otherwise the
/// counter grows.
pub open spec fn sched_step(s: (FuzzingCycle, nat), max_ips: nat) -> (FuzzingCycle, nat) {
    if s.1 == max_ips {
        (next_regime(s.0), 0)
    } else {
        (s.0, s.1 + 1)
    }
}

/// The scheduler state after `k` steps from `s`.
pub open spec fn sched_iter(s: (FuzzingCycle, nat), max_ips: nat, k: nat) -> (FuzzingCycle, nat)
    decreases k,
{
    if k == 0 {
        s
    } else {
        sched_step(sched_iter(s, max_ips, (k - 1) as nat), max_ips)
    }
}

/// Composition of scheduler runs: `a + b` steps equal `b` steps after `a`.
proof fn lemma_sched_iter_add(s: (FuzzingCycle, nat), max_ips: nat, a: nat, b: nat)
    ensures
        sched_iter(s, max_ips, a + b) == sched_iter(sched_iter(s, max_ips, a), max_ips, b),
    decreases b,
{
    if b > 0 {
        lemma_sched_iter_add(s, max_ips, a, (b - 1) as nat);
    }
}

/// Within one regime, the counter just counts: `j` steps from a fresh regime
/// reach counter `j`, as long as the bound is not passed.
proof fn lemma_sched_count(c: FuzzingCycle, max_ips: nat, j: nat)
    requires
        j <= max_ips,
    ensures
        sched_iter((c, 0nat), max_ips, j) == (c, j),
    decreases j,
{
    if j > 0 {
        lemma_sched_count(c, max_ips, (j - 1) as nat);
    }
}

/// A full regime takes `max_ips + 1` steps: the counter runs from 0 to
/// `max_ips`, then the regime advances with a reset counter.
proof fn lemma_sched_segment(c: FuzzingCycle, max_ips: nat)
    ensures
        sched_iter((c, 0nat), max_ips, max_ips + 1) == (next_regime(c), 0nat),
{
    lemma_sched_count(c, max_ips, max_ips);
}

/// Scheduler cycle law: from a fresh scheduler, `4 * (max_ips + 1)` calls to
/// [`Scheduler::next`] traverse the non-deterministic, bit-walk and
/// regenerate regimes once each, in order, and return the scheduler to its
/// starting state (deterministic regime, counter zero).
pub proof fn lemma_scheduler_cycle(max_ips: nat)
    ensures
        sched_iter((FuzzingCycle::CycleDeterministic, 0nat), max_ips, max_ips + 1) == (
            FuzzingCycle::CycleNonDeterministic,
            0nat,
        ),
        sched_iter((FuzzingCycle::CycleDeterministic, 0nat), max_ips, 2 * (max_ips + 1)) == (
            FuzzingCycle::CycleBitWalk,
            0nat,
        ),
        sched_iter((FuzzingCycle::CycleDeterministic, 0nat), max_ips, 3 * (max_ips + 1)) == (
            FuzzingCycle::CycleRegenerate,
            0nat,
        ),
        sched_iter((FuzzingCycle::CycleDeterministic, 0nat), max_ips, 4 * (max_ips + 1)) == (
            FuzzingCycle::CycleDeterministic,
            0nat,
        ),
{
    let s0 = (FuzzingCycle::CycleDeterministic, 0nat);
    lemma_sched_segment(FuzzingCycle::CycleDeterministic, max_ips);
    lemma_sched_segment(FuzzingCycle::CycleNonDeterministic, max_ips);
    lemma_sched_segment(FuzzingCycle::CycleBitWalk, max_ips);
    lemma_sched_segment(FuzzingCycle::CycleRegenerate, max_ips);
    lemma_sched_iter_add(s0, max_ips, max_ips + 1, max_ips + 1);
    assert(2 * (max_ips + 1) == (max_ips + 1) + (max_ips + 1));
    lemma_sched_iter_add(s0, max_ips, 2 * (max_ips + 1), max_ips + 1);
    assert(3 * (max_ips + 1) == 2 * (max_ips + 1) + (max_ips + 1));
    lemma_sched_iter_add(s0, max_ips, 3 * (max_ips + 1), max_ips + 1);
    assert(4 * (max_ips + 1) == 3 * (max_ips + 1) + (max_ips + 1));
}

/// Decides "what and when": after `max_ips + 1` iterations in a regime, the
/// scheduler moves to the next one.
#[derive(Clone)]
pub struct Scheduler {
    /// The current fuzzing regime.
    cycle: FuzzingCycle,
    /// Maximum iterations per regime.
    max_ips: usize,
    /// Iterations taken in the current regime.
    ips: usize,
}

impl Scheduler {
    /// The current regime.
    pub closed spec fn regime(&self) -> FuzzingCycle {
        self.cycle
    }

    /// The iteration bound of each regime.
    pub closed spec fn max_iterations(&self) -> nat {
        self.max_ips as nat
    }

    /// Iterations taken in the current regime.
    pub closed spec fn iterations(&self) -> nat {
        self.ips as nat
    }

    /// The counter never passes its bound.
    pub open spec fn wf(&self) -> bool {
        self.iterations() <= self.max_iterations()
    }

    /// A fresh scheduler: deterministic regime, counter zero.
    pub fn new(max_ips: usize) -> (r: Scheduler)
        ensures
            r.regime() is CycleDeterministic,
            r.iterations() == 0,
            r.max_iterations() == max_ips,
            r.wf(),
    {
        Scheduler { cycle: FuzzingCycle::CycleDeterministic, max_ips, ips: 0 }
    }

    /// Take one scheduling step.  Returns `(true, new_regime)` when the
    /// regime just changed and `(false, current_regime)` otherwise.
    pub fn next(&mut self) -> (r: (bool, FuzzingCycle))
        requires
            old(self).wf(),
        ensures
            final(self).wf(),
            final(self).max_iterations() == old(self).max_iterations(),
            (final(self).regime(), final(self).iterations()) == sched_step(
                (old(self).regime(), old(self).iterations()),
                old(self).max_iterations(),
            ),
            r.0 <==> old(self).iterations() == old(self).max_iterations(),
            r.1 == final(self).regime(),
    {
        if self.ips == self.max_ips {
            let next_cycle = match self.cycle {
                FuzzingCycle::CycleRegenerate => FuzzingCycle::CycleDeterministic,
                FuzzingCycle::CycleDeterministic => FuzzingCycle::CycleNonDeterministic,
                FuzzingCycle::CycleNonDeterministic => FuzzingCycle::CycleBitWalk,
                FuzzingCycle::CycleBitWalk => FuzzingCycle::CycleRegenerate,
            };
            self.cycle = next_cycle;
            self.ips = 0;
            (true, next_cycle)
        } else {
            self.ips = self.ips + 1;
            (false, self.cycle)
        }
    }
}

} // verus!
