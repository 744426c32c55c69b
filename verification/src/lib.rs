//! Core of a grammar-directed, mutation-based black-box fuzzer.
//!
//! The library derives sentences from a context-free grammar, mutates the
//! resulting byte strings with a family of byte- and bit-level operators,
//! and schedules mutation regimes for a fuzzing loop.  All symbol values and
//! sentences are held as byte vectors.

pub mod bitflip;
pub mod bytes;
pub mod corpus;
pub mod fnv;
pub mod grammar;
pub mod grammar_parser;
pub mod mutation;
pub mod scheduler;
pub mod stats;
pub mod syntax_tree;
pub mod util;
pub mod xshift;
