//! A grammar held as productions, terminals and non-terminals, with the
//! generation options used while deriving from it.

use vstd::prelude::*;

use crate::bytes::{bytes_eq, contains_bytes};
use crate::grammar_parser::{
    find_prod_off, grammar_active_count, grammar_line_seq, line_alternatives, line_lhs,
    line_terminals, lines_nonterminals, lines_terminals, parse_grammar,
};

verus! {

/// One production: a left-hand-side non-terminal and its ordered list of
/// alternatives, each an ordered list of symbol tokens.
#[derive(Clone)]
pub struct Production {
    /// The non-terminal this production rewrites.
    pub lhs: Vec<u8>,
    /// The alternatives; each is a sequence of symbols.
    pub alternatives: Vec<Vec<Vec<u8>>>,
}

/// The production table `ps` as a map from non-terminal to alternatives;
/// a later production for the same non-terminal wins.
pub open spec fn prods_map(ps: Seq<Production>) -> Map<Seq<u8>, Seq<Seq<Seq<u8>>>>
    decreases ps.len(),
{
    if ps.len() == 0 {
        Map::empty()
    } else {
        prods_map(ps.drop_last()).insert(ps.last().lhs@, ps.last().alternatives.deep_view())
    }
}

/// What the production map holds: exactly the keys that occur as a `lhs`,
/// each bound to the alternatives of its last occurrence.
pub proof fn lemma_prods_map_last(ps: Seq<Production>, i: int)
    requires
        0 <= i < ps.len(),
        forall|j: int| i < j < ps.len() ==> ps[j].lhs@ != ps[i].lhs@,
    ensures
        prods_map(ps).dom().contains(ps[i].lhs@),
        prods_map(ps)[ps[i].lhs@] == ps[i].alternatives.deep_view(),
    decreases ps.len(),
{
    if i + 1 < ps.len() {
        assert(ps.drop_last()[i] == ps[i]);
        lemma_prods_map_last(ps.drop_last(), i);
    }
}

/// A key the production map holds always comes from some production.
pub proof fn lemma_prods_map_dom(ps: Seq<Production>, key: Seq<u8>)
    requires
        prods_map(ps).dom().contains(key),
    ensures
        exists|i: int| 0 <= i < ps.len() && ps[i].lhs@ == key,
    decreases ps.len(),
{
    if ps.len() > 0 && ps.last().lhs@ != key {
        lemma_prods_map_dom(ps.drop_last(), key);
        let i = choose|i: int| 0 <= i < ps.drop_last().len() && ps.drop_last()[i].lhs@ == key;
        assert(ps[i].lhs@ == key);
    }
}

/// Contains a grammar and the options used while generating from it.
#[derive(Clone)]
pub struct Grammar {
    /// The grammar, one production per non-terminal occurrence.
    pub productions: Vec<Production>,
    /// The terminal vocabulary.
    pub terminals: Vec<Vec<u8>>,
    /// The non-terminal vocabulary: the left-hand sides.
    pub non_terminals: Vec<Vec<u8>>,
    /// Non-terminals expanded so far in the current derivation.
    pub no_non_terminals: usize,
    /// Bound on expanded non-terminals, after which the shortest
    /// alternative is taken.
    pub max_non_terminals: usize,
}

impl Grammar {
    /// The production table as a map from non-terminal to alternatives.
    pub open spec fn productions_map(&self) -> Map<Seq<u8>, Seq<Seq<Seq<u8>>>> {
        prods_map(self.productions@)
    }

    /// The terminal vocabulary, in insertion order.
    pub open spec fn terminals_seq(&self) -> Seq<Seq<u8>> {
        self.terminals.deep_view()
    }

    /// Whether `t` is a terminal of this grammar.
    pub open spec fn is_terminal_spec(&self, t: Seq<u8>) -> bool {
        self.terminals_seq().contains(t)
    }

    /// The non-terminal vocabulary, in insertion order.
    pub open spec fn non_terminals_seq(&self) -> Seq<Seq<u8>> {
        self.non_terminals.deep_view()
    }

    /// Whether `t` is a non-terminal of this grammar.
    pub open spec fn is_non_terminal_spec(&self, t: Seq<u8>) -> bool {
        self.non_terminals_seq().contains(t)
    }

    /// How a freshly parsed grammar relates to its text: the productions,
    /// terminals and non-terminals are exactly those of the text's active
    /// lines, and no non-terminal has been expanded yet.
    pub open spec fn from_text(&self, contents: Seq<u8>, max_non_terminals: usize) -> bool {
        let lines = grammar_line_seq(contents);
        let ac = grammar_active_count(contents);
        &&& self.productions@.len() == ac
        &&& forall|n: int|
            0 <= n < ac ==> ((#[trigger] self.productions@[n]).lhs@ == line_lhs(lines[n])
                && self.productions@[n].alternatives.deep_view() == line_alternatives(lines[n]))
        &&& self.terminals_seq() == lines_terminals(lines, ac)
        &&& self.non_terminals_seq() == lines_nonterminals(lines, ac)
        &&& self.no_non_terminals == 0
        &&& self.max_non_terminals == max_non_terminals
    }

    /// Parse `grammar_text` into a grammar with expansion bound
    /// `max_non_terminals`.  `None` exactly when some production line
    /// before the first blank line lacks `::=`.
    pub fn new(grammar_text: &Vec<u8>, max_non_terminals: usize) -> (r: Option<Grammar>)
        ensures
            r is Some <==> (forall|n: int|
                0 <= n < grammar_active_count(grammar_text@) ==> find_prod_off(
                    grammar_line_seq(grammar_text@)[n],
                    0,
                ) is Some),
            r matches Some(g) ==> g.from_text(grammar_text@, max_non_terminals),
    {
        let mut productions: Vec<Production> = Vec::new();
        let mut terminals: Vec<Vec<u8>> = Vec::new();
        let mut non_terminals: Vec<Vec<u8>> = Vec::new();

        match parse_grammar(grammar_text, &mut productions, &mut terminals, &mut non_terminals) {
            Ok(()) => {
                proof {
                    let lines = grammar_line_seq(grammar_text@);
                    let ac = grammar_active_count(grammar_text@);
                    assert forall|n: int| 0 <= n < ac implies ((#[trigger] productions@[n]).lhs@
                        == line_lhs(lines[n]) && productions@[n].alternatives.deep_view()
                        == line_alternatives(lines[n])) by {
                        assert(productions@[0 + n].lhs@ == line_lhs(lines[n]));
                        assert(productions@[0 + n].alternatives.deep_view() == line_alternatives(
                            lines[n],
                        ));
                    }
                    assert(terminals.deep_view() =~~= lines_terminals(
                        grammar_line_seq(grammar_text@),
                        grammar_active_count(grammar_text@),
                    ));
                    assert(non_terminals.deep_view() =~~= lines_nonterminals(
                        grammar_line_seq(grammar_text@),
                        grammar_active_count(grammar_text@),
                    ));
                }
                Some(
                    Grammar {
                        productions,
                        terminals,
                        non_terminals,
                        no_non_terminals: 0,
                        max_non_terminals,
                    },
                )
            },
            Err(_) => None,
        }
    }

    /// Whether `term` is a terminal of this grammar.
    pub fn is_terminal(&self, term: &Vec<u8>) -> (r: bool)
        ensures
            r == self.is_terminal_spec(term@),
    {
        contains_bytes(&self.terminals, term)
    }

    /// Whether `term` is a non-terminal of this grammar.
    pub fn is_non_terminal(&self, term: &Vec<u8>) -> (r: bool)
        ensures
            r == self.is_non_terminal_spec(term@),
    {
        contains_bytes(&self.non_terminals, term)
    }

    /// The alternatives of non-terminal `key`, if the grammar has a
    /// production for it; of several productions the last one counts.
    pub fn get_production(&self, key: &Vec<u8>) -> (r: Option<&Vec<Vec<Vec<u8>>>>)
        ensures
            r is Some <==> self.productions_map().dom().contains(key@),
            r matches Some(alts) ==> alts.deep_view() == self.productions_map()[key@],
    {
        let mut j: usize = self.productions.len();
        while j > 0
            invariant
                j <= self.productions@.len(),
                forall|k: int| j <= k < self.productions@.len() ==> self.productions@[k].lhs@
                    != key@,
            decreases j,
        {
            j = j - 1;
            if bytes_eq(&self.productions[j].lhs, key) {
                proof {
                    lemma_prods_map_last(self.productions@, j as int);
                }
                return Some(&self.productions[j].alternatives);
            }
        }
        proof {
            if self.productions_map().dom().contains(key@) {
                lemma_prods_map_dom(self.productions@, key@);
            }
        }
        None
    }
}

/// The first `k` lines contribute exactly their left-hand sides, in order.
proof fn lemma_lines_nonterminals_index(lines: Seq<Seq<u8>>, k: int, n: int)
    requires
        0 <= n < k,
    ensures
        lines_nonterminals(lines, k).len() == k,
        lines_nonterminals(lines, k)[n] == line_lhs(lines[n]),
    decreases k,
{
    if n + 1 < k {
        lemma_lines_nonterminals_index(lines, k - 1, n);
    } else {
        lemma_lines_nonterminals_len(lines, k - 1);
    }
}

/// The accumulated non-terminal list of `k` lines has `k` entries.
proof fn lemma_lines_nonterminals_len(lines: Seq<Seq<u8>>, k: int)
    requires
        0 <= k,
    ensures
        lines_nonterminals(lines, k).len() == k,
    decreases k,
{
    if k > 0 {
        lemma_lines_nonterminals_len(lines, k - 1);
    }
}

/// The terminals of line `n` all appear among the terminals of the first
/// `k` lines, for `n < k`.
proof fn lemma_lines_terminals_sub(lines: Seq<Seq<u8>>, k: int, n: int)
    requires
        0 <= n < k,
    ensures
        forall|t: Seq<u8>|
            line_terminals(lines[n]).contains(t) ==> lines_terminals(lines, k).contains(t),
    decreases k,
{
    let pre = lines_terminals(lines, k - 1);
    let ln = line_terminals(lines[k - 1]);
    if n < k - 1 {
        lemma_lines_terminals_sub(lines, k - 1, n);
        assert forall|t: Seq<u8>| line_terminals(lines[n]).contains(t) implies lines_terminals(
            lines,
            k,
        ).contains(t) by {
            assert(pre.contains(t));
            let idx = choose|idx: int| 0 <= idx < pre.len() && pre[idx] == t;
            assert((pre + ln)[idx] == t);
            assert((pre + ln).contains(t));
        }
    } else {
        assert forall|t: Seq<u8>| line_terminals(lines[n]).contains(t) implies lines_terminals(
            lines,
            k,
        ).contains(t) by {
            assert(ln.contains(t));
            let idx = choose|idx: int| 0 <= idx < ln.len() && ln[idx] == t;
            assert((pre + ln)[pre.len() + idx] == t);
            assert((pre + ln).contains(t));
        }
    }
}

/// Parser round trip, for any grammar text and any of its active lines:
/// the line's left-hand side is a non-terminal of the parsed grammar; the
/// content of every quoted token on the line is a terminal; and unless a
/// later line rewrites the same left-hand side, the production table binds
/// it to exactly the line's parsed alternatives.
pub proof fn lemma_grammar_roundtrip(
    g: Grammar,
    contents: Seq<u8>,
    max_non_terminals: usize,
    n: int,
)
    requires
        g.from_text(contents, max_non_terminals),
        0 <= n < grammar_active_count(contents),
    ensures
        g.is_non_terminal_spec(line_lhs(grammar_line_seq(contents)[n])),
        forall|t: Seq<u8>|
            line_terminals(grammar_line_seq(contents)[n]).contains(t) ==> g.is_terminal_spec(t),
        (forall|m: int|
            n < m < grammar_active_count(contents) ==> line_lhs(grammar_line_seq(contents)[m])
                != line_lhs(grammar_line_seq(contents)[n])) ==> {
            &&& g.productions_map().dom().contains(line_lhs(grammar_line_seq(contents)[n]))
            &&& g.productions_map()[line_lhs(grammar_line_seq(contents)[n])]
                == line_alternatives(grammar_line_seq(contents)[n])
        },
{
    let lines = grammar_line_seq(contents);
    let ac = grammar_active_count(contents);

    lemma_lines_nonterminals_index(lines, ac, n);
    assert(g.non_terminals_seq()[n] == line_lhs(lines[n]));
    assert(g.non_terminals_seq().contains(line_lhs(lines[n])));

    lemma_lines_terminals_sub(lines, ac, n);

    if forall|m: int| n < m < ac ==> line_lhs(lines[m]) != line_lhs(lines[n]) {
        assert forall|j: int| n < j < g.productions@.len() implies g.productions@[j].lhs@
            != g.productions@[n].lhs@ by {
            assert(g.productions@[j].lhs@ == line_lhs(lines[j]));
        }
        lemma_prods_map_last(g.productions@, n);
    }
}
} // verus!
