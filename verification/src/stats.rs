//! Shared fuzzing statistics: three monotone counters.

use vstd::prelude::*;

verus! {

/// Counters for fuzz cases, crashes and completed cycles.  They only grow
/// and are never reset.
#[derive(Clone)]
pub struct Stats {
    /// Total fuzz cases.
    total: u64,
    /// Crashes encountered.
    crashes: u64,
    /// Completed scheduler cycles.
    cycles: u64,
}

impl Stats {
    /// Total fuzz cases.
    pub closed spec fn total(&self) -> u64 {
        self.total
    }

    /// Crashes encountered.
    pub closed spec fn crashes(&self) -> u64 {
        self.crashes
    }

    /// Completed scheduler cycles.
    pub closed spec fn cycles(&self) -> u64 {
        self.cycles
    }

    /// All counters start at zero.
    pub fn new() -> (r: Stats)
        ensures
            r.total() == 0,
            r.crashes() == 0,
            r.cycles() == 0,
    {
        Stats { total: 0, crashes: 0, cycles: 0 }
    }

    /// Count one fuzz case.
    pub fn inc_fuzz_cases(&mut self)
        requires
            old(self).total() < u64::MAX,
        ensures
            final(self).total() == old(self).total() + 1,
            final(self).crashes() == old(self).crashes(),
            final(self).cycles() == old(self).cycles(),
    {
        self.total = self.total + 1;
    }

    /// Count one completed cycle.
    pub fn inc_cycles(&mut self)
        requires
            old(self).cycles() < u64::MAX,
        ensures
            final(self).cycles() == old(self).cycles() + 1,
            final(self).total() == old(self).total(),
            final(self).crashes() == old(self).crashes(),
    {
        self.cycles = self.cycles + 1;
    }

    /// Count one crash.
    pub fn inc_crashes(&mut self)
        requires
            old(self).crashes() < u64::MAX,
        ensures
            final(self).crashes() == old(self).crashes() + 1,
            final(self).total() == old(self).total(),
            final(self).cycles() == old(self).cycles(),
    {
        self.crashes = self.crashes + 1;
    }

    /// Total fuzz cases, for display.
    pub fn get_total(&self) -> (r: u64)
        ensures
            r == self.total(),
    {
        self.total
    }

    /// Crashes encountered, for display.
    pub fn get_crashes(&self) -> (r: u64)
        ensures
            r == self.crashes(),
    {
        self.crashes
    }

    /// Completed cycles, for display.
    pub fn get_cycles(&self) -> (r: u64)
        ensures
            r == self.cycles(),
    {
        self.cycles
    }
}

} // verus!
