//! Checks shared by the fuzzer's entry points: the start-symbol check for
//! a grammar text, and the crash classification of a child's exit signal.

use vstd::prelude::*;

use crate::bytes::{bytes_eq, copy_range};
use crate::grammar_parser::{find_prod, find_prod_off, grammar_line_seq, lemma_find_prod_off_props, NEWLINE, split_bytes};

verus! {

/// Whether `b` is an ASCII whitespace byte.
pub open spec fn is_ascii_whitespace(b: u8) -> bool {
    b == 32 || (9 <= b <= 13)
}

/// `s[i..]` with every ASCII whitespace byte removed.
pub open spec fn strip_whitespace(s: Seq<u8>, i: int) -> Seq<u8>
    decreases s.len() - i,
{
    if i < 0 || i >= s.len() {
        seq![]
    } else if is_ascii_whitespace(s[i]) {
        strip_whitespace(s, i + 1)
    } else {
        seq![s[i]] + strip_whitespace(s, i + 1)
    }
}

/// The start symbol a grammar text declares: the first line up to its
/// `::=` (or the whole first line without one), with all whitespace
/// removed.
pub open spec fn start_symbol_of(contents: Seq<u8>) -> Seq<u8> {
    let line = grammar_line_seq(contents)[0];
    let head = match find_prod_off(line, 0) {
        Some(off) => line.subrange(0, off as int),
        None => line,
    };
    strip_whitespace(head, 0)
}

/// Check that the start symbol declared on the grammar text's first line
/// is `expected`.
pub fn check_start_symbol(contents: &Vec<u8>, expected: &Vec<u8>) -> (r: bool)
    ensures
        r == (start_symbol_of(contents@) == expected@),
{
    let lines = split_bytes(contents, NEWLINE);
    proof {
        assert(lines.deep_view()[0] =~= lines@[0]@);
    }
    let line = &lines[0];
    proof {
        lemma_find_prod_off_props(line@, 0);
    }
    let head = match find_prod(line, 0) {
        Some(p) => copy_range(line, 0, p),
        None => copy_range(line, 0, line.len()),
    };
    proof {
        assert(line@.subrange(0, line@.len() as int) =~= line@);
        assert(head@ == (match find_prod_off(grammar_line_seq(contents@)[0], 0) {
            Some(off) => grammar_line_seq(contents@)[0].subrange(0, off as int),
            None => grammar_line_seq(contents@)[0],
        }));
    }

    let mut symbol: Vec<u8> = Vec::new();
    let mut i: usize = 0;
    proof {
        assert(Seq::<u8>::empty() + strip_whitespace(head@, 0) =~= strip_whitespace(head@, 0));
    }
    while i < head.len()
        invariant
            i <= head@.len(),
            symbol@ + strip_whitespace(head@, i as int) == strip_whitespace(head@, 0),
        decreases head@.len() - i,
    {
        let ghost s0: Seq<u8> = symbol@;
        let b = head[i];
        if !(b == 32 || (9 <= b && b <= 13)) {
            symbol.push(b);
            proof {
                assert((s0 + seq![head@[i as int]]) + strip_whitespace(head@, i + 1) =~= s0 + (seq![
                    head@[i as int],
                ] + strip_whitespace(head@, i + 1)));
            }
        }
        i = i + 1;
    }
    proof {
        assert(symbol@ + strip_whitespace(head@, head@.len() as int) =~= symbol@);
    }
    bytes_eq(&symbol, expected)
}

/// Whether a child terminated by `signal` counts as a crash: illegal
/// instruction (4), abort (6), bus error (7) or segmentation fault (11).
/// Other signals are noted by the caller but not counted.
pub fn is_crash_signal(signal: i32) -> (r: bool)
    ensures
        r == (signal == 4 || signal == 6 || signal == 7 || signal == 11),
{
    signal == 4 || signal == 6 || signal == 7 || signal == 11
}

} // verus!
