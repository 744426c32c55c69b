//! The corpus for fuzzing: a forest of derivation trees drawn from a
//! grammar, and the sentences they render.

use vstd::prelude::*;

use crate::bytes::{contains_u64, copy_bytes, copy_token_list};
use crate::fnv::fnv1a;
use crate::grammar::Grammar;
use crate::syntax_tree::{cat_tokens, leaf_tokens_nodes, lemma_leaves_cat, lemma_leaves_nodes_push, lemma_preorder_nodes_push, leaves_nodes, preorder_nodes, TreeNode};
use crate::xshift::XorShift64;

verus! {

/// Expansion steps allowed per derivation before it is abandoned; keeps
/// every derivation finite even for grammars whose shortest alternatives
/// never close.
pub const DERIVE_FUEL: u64 = 1048576;

/// Fresh derivations tried per forest slot before generation gives up;
/// reached only when the grammar cannot yield enough distinct trees.
pub const DERIVE_RETRY_LIMIT: usize = 4096;

/// Why derivation or corpus generation failed.
#[derive(Clone, Copy, Debug, PartialEq, Eq, Structural)]
pub enum CorpusError {
    /// A non-terminal carried no alternatives in the grammar.
    UnidentifiedSymbol,
    /// The expansion-step budget ran out before the derivation closed.
    BudgetExhausted,
    /// Not enough distinct derivations could be found.
    NoFreshDerivation,
}

/// The values of `nodes`, in order.
pub open spec fn node_values(nodes: Seq<TreeNode>) -> Seq<Seq<u8>> {
    Seq::new(nodes.len(), |i: int| nodes[i].value@)
}

/// Whether every node of `nodes[i..]` is well derived.
pub open spec fn well_derived_nodes(
    nodes: Seq<TreeNode>,
    pmap: Map<Seq<u8>, Seq<Seq<Seq<u8>>>>,
    terms: Seq<Seq<u8>>,
    i: int,
) -> bool
    decreases nodes, nodes.len() - i,
{
    if i < 0 || i >= nodes.len() {
        true
    } else {
        well_derived(nodes[i], pmap, terms) && well_derived_nodes(nodes, pmap, terms, i + 1)
    }
}

/// A tree is well derived from a grammar's rules when every leaf is a
/// terminal and every expanded node is a non-terminal whose children spell
/// one of its alternatives.
pub open spec fn well_derived(
    t: TreeNode,
    pmap: Map<Seq<u8>, Seq<Seq<Seq<u8>>>>,
    terms: Seq<Seq<u8>>,
) -> bool
    decreases t, 0int,
{
    match t.children {
        None => terms.contains(t.value@),
        Some(cs) => {
            &&& !terms.contains(t.value@)
            &&& pmap.dom().contains(t.value@)
            &&& exists|j: int|
                0 <= j < pmap[t.value@].len() && node_values(cs@) == pmap[t.value@][j]
            &&& well_derived_nodes(cs@, pmap, terms, 0)
        },
    }
}

/// The index of the first shortest alternative of `alts[i..]`, with `best`
/// the shortest seen so far.
pub open spec fn first_shortest_from(alts: Seq<Seq<Seq<u8>>>, i: int, best: int) -> int
    decreases alts.len() - i,
{
    if i < 0 || i >= alts.len() {
        best
    } else if 0 <= best < alts.len() && alts[i].len() < alts[best].len() {
        first_shortest_from(alts, i + 1, i)
    } else {
        first_shortest_from(alts, i + 1, best)
    }
}

/// The index of the first shortest alternative: ties go to the earliest.
pub open spec fn first_shortest(alts: Seq<Seq<Seq<u8>>>) -> int {
    first_shortest_from(alts, 0, 0)
}

/// Whether every alternative has the same number of tokens.
pub open spec fn all_same_length(alts: Seq<Seq<Seq<u8>>>) -> bool {
    forall|j: int| 0 <= j < alts.len() ==> #[trigger] alts[j].len() == alts[0].len()
}

/// The alternative index the derivation picks for a non-terminal, given
/// the expansion count `nn` reached with this expansion: below the bound a
/// pseudo-random one; past it the first shortest, unless all alternatives
/// have one length, in which case a pseudo-random one again.
pub open spec fn picked_alternative(
    alts: Seq<Seq<Seq<u8>>>,
    nn: int,
    max_non_terminals: int,
    rand_state: u64,
) -> int {
    if nn < max_non_terminals || all_same_length(alts) {
        (crate::xshift::xorshift64_step(rand_state) as usize) as int % alts.len() as int
    } else {
        first_shortest(alts)
    }
}

/// The outcome of simulating one derivation: whether it succeeds, the
/// derived subtree's pre-order and leaf strings, and the generator state
/// and expansion counter afterwards.  On an error only the outcome is
/// meaningful.
pub struct DeriveSim {
    /// Success, or the error the derivation stops with.
    pub outcome: Result<(), CorpusError>,
    /// Pre-order concatenation of every node value of the subtree.
    pub preorder: Seq<u8>,
    /// The subtree's leaf values, concatenated.
    pub leaves: Seq<u8>,
    /// The generator state after the subtree is derived.
    pub rand: u64,
    /// The expansion counter after the subtree is derived.
    pub count: int,
}

/// Simulate deriving the subtree for `value` from generator state `x` and
/// expansion counter `nn`: the mathematical mirror of [`derive`], which
/// makes derivation a function of the grammar, the symbol, the generator
/// state, the counter and the fuel.
pub open spec fn derive_sim(
    pmap: Map<Seq<u8>, Seq<Seq<Seq<u8>>>>,
    terms: Seq<Seq<u8>>,
    maxnt: int,
    value: Seq<u8>,
    x: u64,
    nn: int,
    fuel: nat,
) -> DeriveSim
    decreases fuel, 0int, 0int,
{
    if terms.contains(value) {
        DeriveSim { outcome: Ok(()), preorder: value, leaves: value, rand: x, count: nn }
    } else if fuel == 0 {
        DeriveSim {
            outcome: Err(CorpusError::BudgetExhausted),
            preorder: Seq::empty(),
            leaves: Seq::empty(),
            rand: x,
            count: nn,
        }
    } else if !pmap.dom().contains(value) || pmap[value].len() == 0 {
        DeriveSim {
            outcome: Err(CorpusError::UnidentifiedSymbol),
            preorder: Seq::empty(),
            leaves: Seq::empty(),
            rand: x,
            count: nn,
        }
    } else {
        let nn1 = if nn < usize::MAX { nn + 1 } else { nn };
        let alts = pmap[value];
        let idx = picked_alternative(alts, nn1, maxnt, x);
        let x1 = if nn1 < maxnt || all_same_length(alts) {
            crate::xshift::xorshift64_step(x)
        } else {
            x
        };
        let sub = derive_sim_tokens(pmap, terms, maxnt, alts[idx], 0, x1, nn1, (fuel - 1) as nat);
        if sub.outcome is Ok {
            DeriveSim {
                outcome: Ok(()),
                preorder: value + sub.preorder,
                leaves: sub.leaves,
                rand: sub.rand,
                count: sub.count,
            }
        } else {
            sub
        }
    }
}

/// Simulate deriving the subtrees for `tokens[i..]` in order, threading
/// the generator state and the counter; the first error stops the run.
pub open spec fn derive_sim_tokens(
    pmap: Map<Seq<u8>, Seq<Seq<Seq<u8>>>>,
    terms: Seq<Seq<u8>>,
    maxnt: int,
    tokens: Seq<Seq<u8>>,
    i: int,
    x: u64,
    nn: int,
    fuel: nat,
) -> DeriveSim
    decreases fuel, 1int, tokens.len() - i,
{
    if i < 0 || i >= tokens.len() {
        DeriveSim { outcome: Ok(()), preorder: Seq::empty(), leaves: Seq::empty(), rand: x, count: nn }
    } else {
        let c = derive_sim(pmap, terms, maxnt, tokens[i], x, nn, fuel);
        if !(c.outcome is Ok) {
            c
        } else {
            let rest = derive_sim_tokens(pmap, terms, maxnt, tokens, i + 1, c.rand, c.count, fuel);
            if !(rest.outcome is Ok) {
                rest
            } else {
                DeriveSim {
                    outcome: Ok(()),
                    preorder: c.preorder + rest.preorder,
                    leaves: c.leaves + rest.leaves,
                    rand: rest.rand,
                    count: rest.count,
                }
            }
        }
    }
}

/// How many expanded (non-leaf) nodes `nodes[i..]` hold, in total.
pub open spec fn expanded_count_nodes(nodes: Seq<TreeNode>, i: int) -> nat
    decreases nodes, nodes.len() - i,
{
    if i < 0 || i >= nodes.len() {
        0
    } else {
        expanded_count(nodes[i]) + expanded_count_nodes(nodes, i + 1)
    }
}

/// How many expanded (non-leaf) nodes a tree holds: the non-terminals the
/// derivation expanded to build it.
pub open spec fn expanded_count(t: TreeNode) -> nat
    decreases t, 0int,
{
    match t.children {
        None => 0,
        Some(cs) => 1 + expanded_count_nodes(cs@, 0),
    }
}

/// Appending a node adds its expanded-node count to the total.
proof fn lemma_expanded_count_push(nodes: Seq<TreeNode>, x: TreeNode, i: int)
    requires
        0 <= i <= nodes.len(),
    ensures
        expanded_count_nodes(nodes.push(x), i) == expanded_count_nodes(nodes, i)
            + expanded_count(x),
    decreases nodes.len() - i,
{
    if i < nodes.len() {
        assert(nodes.push(x)[i] == nodes[i]);
        lemma_expanded_count_push(nodes, x, i + 1);
    } else {
        assert(nodes.push(x)[i] == x);
        assert(expanded_count_nodes(nodes.push(x), i + 1) == 0);
        assert(expanded_count_nodes(nodes, i) == 0);
    }
}

/// Derive the subtree for symbol `value`: a terminal stays a leaf; any
/// other symbol is a non-terminal and expands into a pseudo-randomly
/// chosen alternative, or into its shortest one once the grammar's
/// expansion bound is passed.  A non-terminal without alternatives is
/// refused, as referencing an undefined symbol is a grammar error.
/// `fuel` bounds the expansion steps, so derivation always terminates;
/// outcome, tree strings, generator state and counter are exactly
/// [`derive_sim`] of the inputs.
pub fn derive(rand: &mut XorShift64, g: &mut Grammar, value: &Vec<u8>, fuel: u64) -> (r: Result<
    TreeNode,
    CorpusError,
>)
    ensures
        final(g).productions@ == old(g).productions@,
        final(g).terminals_seq() == old(g).terminals_seq(),
        final(g).non_terminals_seq() == old(g).non_terminals_seq(),
        final(g).max_non_terminals == old(g).max_non_terminals,
        final(g).no_non_terminals >= old(g).no_non_terminals,
        r matches Ok(t) ==> final(g).no_non_terminals as int == (if old(g).no_non_terminals
            + expanded_count(t) > usize::MAX {
            usize::MAX as int
        } else {
            old(g).no_non_terminals + expanded_count(t)
        }),
        old(rand).wf() ==> final(rand).wf(),
        old(g).is_terminal_spec(value@) ==> r is Ok && *final(g) == *old(g) && *final(rand)
            == *old(rand),
        !old(g).is_terminal_spec(value@) && fuel == 0 ==> r == Err::<TreeNode, CorpusError>(
            CorpusError::BudgetExhausted,
        ),
        !old(g).is_terminal_spec(value@) && fuel > 0 && !old(g).productions_map().dom().contains(
            value@,
        ) ==> r == Err::<TreeNode, CorpusError>(CorpusError::UnidentifiedSymbol),
        !old(g).is_terminal_spec(value@) && fuel > 0 && old(g).productions_map().dom().contains(
            value@,
        ) && old(g).productions_map()[value@].len() == 0 ==> r == Err::<TreeNode, CorpusError>(
            CorpusError::UnidentifiedSymbol,
        ),
        r matches Ok(t) ==> t.value@ == value@ && well_derived(
            t,
            old(g).productions_map(),
            old(g).terminals_seq(),
        ),
        ({
            let nn: int = if old(g).no_non_terminals < usize::MAX {
                old(g).no_non_terminals + 1
            } else {
                usize::MAX as int
            };
            let alts = old(g).productions_map()[value@];
            r matches Ok(t) ==> (!old(g).is_terminal_spec(value@) ==> (t.children matches Some(cs)
                && node_values(cs@) == alts[picked_alternative(
                alts,
                nn,
                old(g).max_non_terminals as int,
                old(rand)@,
            )]))
        }),
        r matches Err(e) ==> (e is UnidentifiedSymbol || e is BudgetExhausted),
        ({
            let sim = derive_sim(
                old(g).productions_map(),
                old(g).terminals_seq(),
                old(g).max_non_terminals as int,
                value@,
                old(rand)@,
                old(g).no_non_terminals as int,
                fuel as nat,
            );
            &&& (r is Ok <==> sim.outcome is Ok)
            &&& (r matches Err(e) ==> sim.outcome == Err::<(), CorpusError>(e))
            &&& (r matches Ok(t) ==> t.preorder() == sim.preorder && t.leaves() == sim.leaves
                && final(rand)@ == sim.rand && final(g).no_non_terminals as int == sim.count)
        }),
    decreases fuel,
{
    if g.is_terminal(value) {
        let leaf = TreeNode::new(value);
        proof {
            assert(leaf.preorder() == value@);
            assert(leaf.leaves() == value@);
        }
        return Ok(leaf);
    }
    if fuel == 0 {
        return Err(CorpusError::BudgetExhausted);
    }

    // keep track of non-terminals expanded in this derivation
    g.no_non_terminals = g.no_non_terminals.saturating_add(1);

    let ghost pmap0 = old(g).productions_map();
    let mut ridx: usize = 0;
    let chosen: Vec<Vec<u8>> = {
        let alts = match g.get_production(value) {
            Some(alts) => alts,
            None => {
                return Err(CorpusError::UnidentifiedSymbol);
            },
        };
        if alts.len() == 0 {
            return Err(CorpusError::UnidentifiedSymbol);
        }

        let ghost adv: Seq<Seq<Seq<u8>>> = alts.deep_view();
        proof {
            assert(forall|j: int|
                0 <= j < adv.len() ==> #[trigger] adv[j].len() == alts@[j]@.len()) by {
                assert(forall|j: int|
                    0 <= j < adv.len() ==> #[trigger] adv[j] =~~= alts@[j].deep_view());
            }
        }
        if g.no_non_terminals < g.max_non_terminals {
            // below the bound, expand at random
            ridx = (rand.rand() as usize) % alts.len();
        } else {
            // past the bound, choose the first shortest alternative; if
            // all alternatives have one length, choose at random
            let mut min_item: usize = usize::MAX;
            let mut max_item: usize = 0;
            let mut i: usize = 0;
            while i < alts.len()
                invariant
                    i <= alts@.len(),
                    alts@.len() >= 1,
                    ridx < alts@.len(),
                    adv == alts.deep_view(),
                    forall|j: int| 0 <= j < adv.len() ==> #[trigger] adv[j].len() == alts@[j]@.len(),
                    forall|j: int| 0 <= j < i ==> min_item <= #[trigger] alts@[j]@.len(),
                    forall|j: int| 0 <= j < i ==> max_item >= #[trigger] alts@[j]@.len(),
                    i >= 1 ==> min_item == alts@[ridx as int]@.len(),
                    i >= 1 ==> exists|j: int| 0 <= j < i && max_item == #[trigger] alts@[j]@.len(),
                    i == 0 ==> ridx == 0 && min_item == usize::MAX && max_item == 0,
                    first_shortest_from(adv, i as int, ridx as int) == first_shortest(adv),
                decreases alts@.len() - i,
            {
                if alts[i].len() < min_item {
                    min_item = alts[i].len();
                    ridx = i;
                }
                if alts[i].len() > max_item {
                    max_item = alts[i].len();
                }
                i = i + 1;
            }
            proof {
                assert(ridx as int == first_shortest(adv));
                if max_item == min_item {
                    assert(all_same_length(adv));
                } else {
                    assert(!all_same_length(adv)) by {
                        let jm = choose|j: int|
                            0 <= j < adv.len() && max_item == alts@[j]@.len();
                        assert(adv[jm].len() != adv[first_shortest(adv)].len());
                    }
                }
            }
            if max_item == min_item {
                ridx = (rand.rand() as usize) % alts.len();
            }
        }
        proof {
            assert(adv == pmap0[value@]);
            assert(ridx as int == picked_alternative(
                adv,
                g.no_non_terminals as int,
                g.max_non_terminals as int,
                old(rand)@,
            ));
            assert(rand@ == (if (g.no_non_terminals as int) < (g.max_non_terminals as int)
                || all_same_length(pmap0[value@]) {
                crate::xshift::xorshift64_step(old(rand)@)
            } else {
                old(rand)@
            }));
        }
        let c = copy_token_list(&alts[ridx]);
        proof {
            assert(alts.deep_view()[ridx as int] =~~= alts@[ridx as int].deep_view());
            assert(ridx < pmap0[value@].len() && c.deep_view() == pmap0[value@][ridx as int]);
        }
        c
    };

    let ghost maxnt: int = old(g).max_non_terminals as int;
    let ghost nn0: int = old(g).no_non_terminals as int;
    let ghost nn1g: int = g.no_non_terminals as int;
    let ghost x1: u64 = rand@;
    let ghost f1: nat = (fuel - 1) as nat;
    let ghost cdv: Seq<Seq<u8>> = chosen.deep_view();

    let ghost pmap = old(g).productions_map();
    let ghost terms = old(g).terminals_seq();
    proof {
        assert(pmap.dom().contains(value@));
        assert(exists|j: int|
            0 <= j < pmap[value@].len() && chosen.deep_view() == pmap[value@][j]) by {
            let w = ridx as int;
            assert(0 <= w < pmap[value@].len() && chosen.deep_view() == pmap[value@][w]);
        }
    }

    let mut children: Vec<TreeNode> = Vec::new();
    proof {
        assert(preorder_nodes(children@, 0) =~= Seq::<u8>::empty());
        assert(leaves_nodes(children@, 0) =~= Seq::<u8>::empty());
        let whole = derive_sim_tokens(pmap, terms, maxnt, cdv, 0, x1, nn1g, f1);
        assert(Seq::<u8>::empty() + whole.preorder =~= whole.preorder);
        assert(Seq::<u8>::empty() + whole.leaves =~= whole.leaves);
    }
    let mut i: usize = 0;
    while i < chosen.len()
        invariant
            i <= chosen@.len(),
            children@.len() == i,
            pmap == old(g).productions_map(),
            terms == old(g).terminals_seq(),
            !old(g).is_terminal_spec(value@),
            pmap.dom().contains(value@),
            pmap[value@].len() > 0,
            g.productions_map() == pmap,
            g.terminals_seq() == terms,
            g.non_terminals_seq() == old(g).non_terminals_seq(),
            g.productions@ == old(g).productions@,
            g.max_non_terminals == old(g).max_non_terminals,
            g.no_non_terminals >= old(g).no_non_terminals,
            g.no_non_terminals as int == (if old(g).no_non_terminals + 1 + expanded_count_nodes(
                children@,
                0,
            ) > usize::MAX {
                usize::MAX as int
            } else {
                old(g).no_non_terminals + 1 + expanded_count_nodes(children@, 0)
            }),
            old(rand).wf() ==> rand.wf(),
            fuel >= 1,
            forall|k: int|
                0 <= k < i ==> (#[trigger] children@[k]).value@ == chosen.deep_view()[k]
                    && well_derived(children@[k], pmap, terms),
            maxnt == old(g).max_non_terminals as int,
            nn0 == old(g).no_non_terminals as int,
            nn1g == (if nn0 < usize::MAX as int {
                nn0 + 1
            } else {
                nn0
            }),
            x1 == (if nn1g < maxnt || all_same_length(pmap[value@]) {
                crate::xshift::xorshift64_step(old(rand)@)
            } else {
                old(rand)@
            }),
            f1 == (fuel - 1) as nat,
            cdv == chosen.deep_view(),
            cdv == pmap[value@][ridx as int],
            0 <= ridx < pmap[value@].len(),
            ridx as int == picked_alternative(pmap[value@], nn1g, maxnt, old(rand)@),
            ({
                let whole = derive_sim_tokens(pmap, terms, maxnt, cdv, 0, x1, nn1g, f1);
                let rest = derive_sim_tokens(
                    pmap,
                    terms,
                    maxnt,
                    cdv,
                    i as int,
                    rand@,
                    g.no_non_terminals as int,
                    f1,
                );
                &&& whole.outcome == rest.outcome
                &&& (rest.outcome is Ok ==> whole.preorder == preorder_nodes(children@, 0)
                    + rest.preorder && whole.leaves == leaves_nodes(children@, 0) + rest.leaves
                    && whole.rand == rest.rand && whole.count == rest.count)
            }),
        decreases chosen@.len() - i,
    {
        let ghost x_pre: u64 = rand@;
        let ghost nn_pre: int = g.no_non_terminals as int;
        proof {
            assert(chosen.deep_view()[i as int] =~= chosen@[i as int]@);
        }
        let sub = match derive(rand, g, &chosen[i], fuel - 1) {
            Ok(sub) => sub,
            Err(e) => {
                proof {
                    let c = derive_sim(pmap, terms, maxnt, cdv[i as int], x_pre, nn_pre, f1);
                    assert(c.outcome == Err::<(), CorpusError>(e));
                    let rest_pre = derive_sim_tokens(
                        pmap,
                        terms,
                        maxnt,
                        cdv,
                        i as int,
                        x_pre,
                        nn_pre,
                        f1,
                    );
                    assert(rest_pre == c);
                    let whole = derive_sim_tokens(pmap, terms, maxnt, cdv, 0, x1, nn1g, f1);
                    assert(whole.outcome == Err::<(), CorpusError>(e));
                    let sim = derive_sim(pmap, terms, maxnt, value@, old(rand)@, nn0, fuel as nat);
                    assert(sim.outcome == Err::<(), CorpusError>(e));
                }
                return Err(e);
            },
        };
        let ghost ch0: Seq<TreeNode> = children@;
        proof {
            lemma_expanded_count_push(ch0, sub, 0);
            lemma_preorder_nodes_push(ch0, sub, 0);
            lemma_leaves_nodes_push(ch0, sub, 0);
        }
        children.push(sub);
        proof {
            let c = derive_sim(pmap, terms, maxnt, cdv[i as int], x_pre, nn_pre, f1);
            assert(c.outcome is Ok);
            assert(sub.preorder() == c.preorder && sub.leaves() == c.leaves);
            assert(rand@ == c.rand && g.no_non_terminals as int == c.count);
            let rest_pre = derive_sim_tokens(pmap, terms, maxnt, cdv, i as int, x_pre, nn_pre, f1);
            let rest_new = derive_sim_tokens(
                pmap,
                terms,
                maxnt,
                cdv,
                i + 1,
                rand@,
                g.no_non_terminals as int,
                f1,
            );
            assert(preorder_nodes(children@, 0) == preorder_nodes(ch0, 0) + c.preorder);
            assert(leaves_nodes(children@, 0) == leaves_nodes(ch0, 0) + c.leaves);
            if rest_new.outcome is Ok {
                assert(rest_pre.preorder == c.preorder + rest_new.preorder);
                assert(preorder_nodes(ch0, 0) + (c.preorder + rest_new.preorder) =~= (
                preorder_nodes(ch0, 0) + c.preorder) + rest_new.preorder);
                assert(leaves_nodes(ch0, 0) + (c.leaves + rest_new.leaves) =~= (leaves_nodes(
                    ch0,
                    0,
                ) + c.leaves) + rest_new.leaves);
            }
        }
        i = i + 1;
    }

    let node = TreeNode { value: copy_bytes(value), children: Some(children) };
    proof {
        assert(node_values(node.children->0@) =~~= chosen.deep_view());
        lemma_well_derived_nodes_all(node.children->0@, pmap, terms);
        assert(node.value@ == value@);
        assert(!terms.contains(node.value@));
        assert(pmap.dom().contains(node.value@));
        assert(exists|j: int|
            0 <= j < pmap[node.value@].len() && node_values(node.children->0@) == pmap[
                node.value@
            ][j]) by {
            let w = ridx as int;
            assert(0 <= w < pmap[value@].len() && node_values(node.children->0@) == pmap[value@][
                w
            ]);
        }
        assert(well_derived(node, pmap, terms));

        let rest_end = derive_sim_tokens(
            pmap,
            terms,
            maxnt,
            cdv,
            cdv.len() as int,
            rand@,
            g.no_non_terminals as int,
            f1,
        );
        assert(rest_end.outcome is Ok && rest_end.rand == rand@ && rest_end.count
            == g.no_non_terminals as int);
        let whole = derive_sim_tokens(pmap, terms, maxnt, cdv, 0, x1, nn1g, f1);
        assert(whole.outcome is Ok);
        assert(whole.preorder =~= preorder_nodes(node.children->0@, 0));
        assert(whole.leaves =~= leaves_nodes(node.children->0@, 0));
        assert(whole.rand == rand@ && whole.count == g.no_non_terminals as int);
        let sim = derive_sim(pmap, terms, maxnt, value@, old(rand)@, nn0, fuel as nat);
        assert(sim.outcome is Ok);
        assert(sim.preorder == value@ + whole.preorder);
        assert(sim.leaves == whole.leaves);
        assert(node.preorder() == value@ + preorder_nodes(node.children->0@, 0));
        assert(node.leaves() == leaves_nodes(node.children->0@, 0));
        assert(node.preorder() == sim.preorder);
        assert(node.leaves() == sim.leaves);
    }
    Ok(node)
}

/// Elementwise well-derivedness gives the folded form.
proof fn lemma_well_derived_nodes_all(
    nodes: Seq<TreeNode>,
    pmap: Map<Seq<u8>, Seq<Seq<Seq<u8>>>>,
    terms: Seq<Seq<u8>>,
)
    requires
        forall|k: int| 0 <= k < nodes.len() ==> well_derived(#[trigger] nodes[k], pmap, terms),
    ensures
        well_derived_nodes(nodes, pmap, terms, 0),
{
    lemma_well_derived_nodes_from(nodes, pmap, terms, 0);
}

/// Helper for [`lemma_well_derived_nodes_all`], inducting over the suffix.
proof fn lemma_well_derived_nodes_from(
    nodes: Seq<TreeNode>,
    pmap: Map<Seq<u8>, Seq<Seq<Seq<u8>>>>,
    terms: Seq<Seq<u8>>,
    i: int,
)
    requires
        forall|k: int| 0 <= k < nodes.len() ==> well_derived(#[trigger] nodes[k], pmap, terms),
    ensures
        well_derived_nodes(nodes, pmap, terms, i),
    decreases nodes.len() - i,
{
    if 0 <= i < nodes.len() {
        lemma_well_derived_nodes_from(nodes, pmap, terms, i + 1);
    }
}

/// The pre-order strings of the trees of `nodes`, in order.
pub open spec fn forest_preorders(nodes: Seq<TreeNode>) -> Seq<Seq<u8>> {
    Seq::new(nodes.len(), |i: int| nodes[i].preorder())
}

/// The leaf strings of the trees of `nodes`, in order.
pub open spec fn forest_leaves(nodes: Seq<TreeNode>) -> Seq<Seq<u8>> {
    Seq::new(nodes.len(), |i: int| nodes[i].leaves())
}

/// The outcome of simulating corpus generation: whether it succeeds, the
/// fingerprints, pre-order strings and leaf strings of the forest built so
/// far, and the generator state afterwards.
pub struct GenerateSim {
    /// Success, or the error generation stops with.
    pub outcome: Result<(), CorpusError>,
    /// FNV-1a fingerprints of the forest trees, in order.
    pub hashes: Seq<u64>,
    /// Pre-order strings of the forest trees, in order.
    pub preorders: Seq<Seq<u8>>,
    /// Leaf strings of the forest trees, in order.
    pub leaves: Seq<Seq<u8>>,
    /// The generator state after generation.
    pub rand: u64,
}

/// Simulate corpus generation: fill `slots` more forest slots by repeated
/// derivation from `start`, discarding derivations whose fingerprint was
/// already seen; `attempts` fresh tries remain for the current slot.  The
/// mathematical mirror of [`Corpus::generate`]: generation is a function
/// of the grammar, the start symbol and the generator state.
pub open spec fn generate_sim(
    pmap: Map<Seq<u8>, Seq<Seq<Seq<u8>>>>,
    terms: Seq<Seq<u8>>,
    maxnt: int,
    start: Seq<u8>,
    x: u64,
    hashes: Seq<u64>,
    preorders: Seq<Seq<u8>>,
    leaves: Seq<Seq<u8>>,
    slots: nat,
    attempts: nat,
) -> GenerateSim
    decreases slots, attempts,
{
    if slots == 0 {
        GenerateSim { outcome: Ok(()), hashes, preorders, leaves, rand: x }
    } else if attempts == 0 {
        GenerateSim {
            outcome: Err(CorpusError::NoFreshDerivation),
            hashes,
            preorders,
            leaves,
            rand: x,
        }
    } else {
        let d = derive_sim(pmap, terms, maxnt, start, x, 0, DERIVE_FUEL as nat);
        if !(d.outcome is Ok) {
            GenerateSim { outcome: d.outcome, hashes, preorders, leaves, rand: x }
        } else {
            let h = fnv1a(d.preorder);
            if hashes.contains(h) {
                generate_sim(
                    pmap,
                    terms,
                    maxnt,
                    start,
                    d.rand,
                    hashes,
                    preorders,
                    leaves,
                    slots,
                    (attempts - 1) as nat,
                )
            } else {
                generate_sim(
                    pmap,
                    terms,
                    maxnt,
                    start,
                    d.rand,
                    hashes.push(h),
                    preorders.push(d.preorder),
                    leaves.push(d.leaves),
                    (slots - 1) as nat,
                    DERIVE_RETRY_LIMIT as nat,
                )
            }
        }
    }
}

/// `s` with every two-byte `\\n` escape replaced by one newline byte,
/// scanning left to right.
pub open spec fn unescape_newlines(s: Seq<u8>) -> Seq<u8>
    decreases s.len(),
{
    if s.len() == 0 {
        Seq::empty()
    } else if s.len() >= 2 && s[0] == 92 && s[1] == 110 {
        seq![10u8] + unescape_newlines(s.skip(2))
    } else {
        seq![s[0]] + unescape_newlines(s.skip(1))
    }
}

/// Replace every `\\n` escape in `v` by a newline byte.
fn unescape(v: &Vec<u8>) -> (r: Vec<u8>)
    ensures
        r@ == unescape_newlines(v@),
{
    let mut r: Vec<u8> = Vec::new();
    let mut i: usize = 0;
    proof {
        assert(v@.skip(0) =~= v@);
        assert(Seq::<u8>::empty() + unescape_newlines(v@) =~= unescape_newlines(v@));
    }
    while i < v.len()
        invariant
            i <= v@.len(),
            r@ + unescape_newlines(v@.skip(i as int)) == unescape_newlines(v@),
        decreases v@.len() - i,
    {
        let ghost r0: Seq<u8> = r@;
        let ghost rest: Seq<u8> = v@.skip(i as int);
        if v.len() - i >= 2 && v[i] == 92 && v[i + 1] == 110 {
            r.push(10);
            proof {
                assert(rest[0] == v@[i as int] && rest[1] == v@[i + 1]);
                assert(rest.skip(2) =~= v@.skip(i + 2));
                assert((r0 + seq![10u8]) + unescape_newlines(v@.skip(i + 2)) =~= r0 + (seq![10u8]
                    + unescape_newlines(v@.skip(i + 2))));
            }
            i = i + 2;
        } else {
            r.push(v[i]);
            proof {
                assert(rest[0] == v@[i as int]);
                assert(rest.skip(1) =~= v@.skip(i + 1));
                assert((r0 + seq![v@[i as int]]) + unescape_newlines(v@.skip(i + 1)) =~= r0 + (seq![
                    v@[i as int],
                ] + unescape_newlines(v@.skip(i + 1))));
            }
            i = i + 1;
        }
    }
    proof {
        assert(v@.skip(v@.len() as int) =~= Seq::<u8>::empty());
        assert(r@ + unescape_newlines(Seq::<u8>::empty()) =~= r@);
    }
    r
}

/// The corpus for fuzzing: a grammar, a generator, the forest of derived
/// trees, and the sentences they render.
pub struct Corpus {
    /// Number of trees the forest is filled to.
    forest_size: usize,
    /// The derivation trees.
    forest: Vec<TreeNode>,
    /// The pseudo-random number generator driving derivation.
    prng: XorShift64,
    /// The grammar the trees are derived from.
    grammar: Grammar,
    /// The start symbol every derivation begins at.
    start_symbol: Vec<u8>,
    /// The sentences rendered from the forest.
    inputs: Vec<Vec<u8>>,
}

impl Corpus {
    /// The derivation trees.
    pub closed spec fn forest_seq(&self) -> Seq<TreeNode> {
        self.forest@
    }

    /// The rendered sentences.
    pub closed spec fn inputs_seq(&self) -> Seq<Seq<u8>> {
        self.inputs.deep_view()
    }

    /// The generator state.
    pub closed spec fn prng_state(&self) -> u64 {
        self.prng@
    }

    /// The grammar.
    pub closed spec fn grammar_spec(&self) -> Grammar {
        self.grammar
    }

    /// The start symbol.
    pub closed spec fn start_sym(&self) -> Seq<u8> {
        self.start_symbol@
    }

    /// The forest size aimed for.
    pub closed spec fn forest_size_spec(&self) -> nat {
        self.forest_size as nat
    }

    /// Create a corpus from a grammar text.  `None` exactly when the seed
    /// is zero or the grammar text does not parse.
    pub fn new(
        grammar_text: &Vec<u8>,
        start_symbol: &Vec<u8>,
        max_expansion: usize,
        forest_size: usize,
        seed: u64,
    ) -> (r: Option<Corpus>)
        ensures
            r is Some <==> (seed != 0 && (forall|n: int|
                0 <= n < crate::grammar_parser::grammar_active_count(grammar_text@)
                    ==> crate::grammar_parser::find_prod_off(
                    crate::grammar_parser::grammar_line_seq(grammar_text@)[n],
                    0,
                ) is Some)),
            r matches Some(c) ==> {
                &&& c.prng_state() == seed
                &&& c.grammar_spec().from_text(grammar_text@, max_expansion)
                &&& c.start_sym() == start_symbol@
                &&& c.forest_size_spec() == forest_size
                &&& c.forest_seq().len() == 0
                &&& c.inputs_seq().len() == 0
            },
    {
        let prng = match XorShift64::new(seed) {
            Some(rng) => rng,
            None => {
                return None;
            },
        };
        let grammar = match Grammar::new(grammar_text, max_expansion) {
            Some(g) => g,
            None => {
                return None;
            },
        };
        Some(
            Corpus {
                forest_size,
                forest: Vec::new(),
                prng,
                grammar,
                start_symbol: copy_bytes(start_symbol),
                inputs: Vec::new(),
            },
        )
    }

    /// Fill the forest with `forest_size` distinct derivations of the start
    /// symbol and render their sentences.  On success the forest and the
    /// sentences have exactly that many entries; in every outcome the old
    /// forest is discarded, every kept tree is well derived from the
    /// grammar and roots at the start symbol, every sentence is its tree's
    /// leaf string with newline escapes replaced, the trees' fingerprints
    /// are pairwise distinct, and the expansion counter is reset.  The
    /// whole run is the pure fold [`generate_sim`] of the grammar, the
    /// start symbol and the generator state: the outcome and the forest's
    /// pre-order and leaf strings are functions of the seed, so generation
    /// is deterministic.
    pub fn generate(&mut self) -> (r: Result<(), CorpusError>)
        ensures
            final(self).grammar_spec().productions@ == old(self).grammar_spec().productions@,
            final(self).grammar_spec().terminals_seq() == old(self).grammar_spec().terminals_seq(),
            final(self).grammar_spec().non_terminals_seq() == old(self).grammar_spec().non_terminals_seq(),
            final(self).grammar_spec().max_non_terminals == old(self).grammar_spec().max_non_terminals,
            final(self).grammar_spec().no_non_terminals == 0,
            final(self).start_sym() == old(self).start_sym(),
            final(self).forest_size_spec() == old(self).forest_size_spec(),
            old(self).prng_state() != 0 ==> final(self).prng_state() != 0,
            final(self).forest_seq().len() == final(self).inputs_seq().len(),
            final(self).forest_seq().len() <= old(self).forest_size_spec(),
            forall|i: int|
                0 <= i < final(self).forest_seq().len() ==> (#[trigger] final(self).forest_seq()[i]).value@ == old(self).start_sym() && well_derived(
                    final(self).forest_seq()[i],
                    old(self).grammar_spec().productions_map(),
                    old(self).grammar_spec().terminals_seq(),
                ),
            forall|i: int|
                0 <= i < final(self).forest_seq().len() ==> final(self).inputs_seq()[i]
                    == unescape_newlines((#[trigger] final(self).forest_seq()[i]).leaves()),
            forall|i: int, j: int|
                0 <= i < j < final(self).forest_seq().len() ==> fnv1a(
                    (#[trigger] final(self).forest_seq()[i]).preorder(),
                ) != fnv1a((#[trigger] final(self).forest_seq()[j]).preorder()),
            old(self).forest_size_spec() == 0 ==> r is Ok,
            r is Ok <==> final(self).forest_seq().len() == old(self).forest_size_spec(),
            old(self).grammar_spec().is_terminal_spec(old(self).start_sym()) ==> r != Err::<
                (),
                CorpusError,
            >(CorpusError::UnidentifiedSymbol) && r != Err::<(), CorpusError>(
                CorpusError::BudgetExhausted,
            ),
            (!old(self).grammar_spec().is_terminal_spec(old(self).start_sym()) && !old(self).grammar_spec().productions_map().dom().contains(old(self).start_sym()) && old(self).forest_size_spec() > 0) ==> r == Err::<(), CorpusError>(
                CorpusError::UnidentifiedSymbol,
            ),
            ({
                let sim = generate_sim(
                    old(self).grammar_spec().productions_map(),
                    old(self).grammar_spec().terminals_seq(),
                    old(self).grammar_spec().max_non_terminals as int,
                    old(self).start_sym(),
                    old(self).prng_state(),
                    Seq::empty(),
                    Seq::empty(),
                    Seq::empty(),
                    old(self).forest_size_spec(),
                    DERIVE_RETRY_LIMIT as nat,
                );
                &&& (r is Ok <==> sim.outcome is Ok)
                &&& (r matches Err(e) ==> sim.outcome == Err::<(), CorpusError>(e))
                &&& forest_preorders(final(self).forest_seq()) == sim.preorders
                &&& forest_leaves(final(self).forest_seq()) == sim.leaves
                &&& (r is Ok ==> final(self).prng_state() == sim.rand)
            }),
    {
        let ghost pmap = old(self).grammar_spec().productions_map();
        let ghost terms = old(self).grammar_spec().terminals_seq();
        let ghost nterms = old(self).grammar_spec().non_terminals_seq();
        let ghost maxnt: int = old(self).grammar_spec().max_non_terminals as int;
        let ghost start_s: Seq<u8> = old(self).start_sym();
        let ghost target: GenerateSim = generate_sim(
            pmap,
            terms,
            maxnt,
            start_s,
            old(self).prng_state(),
            Seq::empty(),
            Seq::empty(),
            Seq::empty(),
            old(self).forest_size_spec(),
            DERIVE_RETRY_LIMIT as nat,
        );

        let mut hashes: Vec<u64> = Vec::new();
        self.forest = Vec::new();
        self.inputs = Vec::new();
        self.grammar.no_non_terminals = 0;
        proof {
            assert(hashes@ =~= Seq::<u64>::empty());
            assert(forest_preorders(self.forest@) =~~= Seq::<Seq<u8>>::empty());
            assert(forest_leaves(self.forest@) =~~= Seq::<Seq<u8>>::empty());
        }

        let mut count: usize = 0;
        while count < self.forest_size
            invariant
                count == self.forest@.len(),
                count == self.inputs.deep_view().len(),
                count == hashes@.len(),
                count <= old(self).forest_size_spec(),
                self.forest_size == old(self).forest_size_spec(),
                self.start_symbol@ == old(self).start_sym(),
                pmap == old(self).grammar_spec().productions_map(),
                terms == old(self).grammar_spec().terminals_seq(),
                nterms == old(self).grammar_spec().non_terminals_seq(),
                self.grammar.productions@ == old(self).grammar_spec().productions@,
                self.grammar.productions_map() == pmap,
                self.grammar.terminals_seq() == terms,
                self.grammar.non_terminals_seq() == nterms,
                self.grammar.max_non_terminals == old(self).grammar_spec().max_non_terminals,
                self.grammar.no_non_terminals == 0,
                old(self).prng_state() != 0 ==> self.prng.wf(),
                forall|i: int|
                    0 <= i < count ==> (#[trigger] self.forest@[i]).value@ == old(self).start_sym()
                        && well_derived(self.forest@[i], pmap, terms),
                forall|i: int|
                    0 <= i < count ==> hashes@[i] == fnv1a(
                        (#[trigger] self.forest@[i]).preorder(),
                    ),
                forall|i: int, j: int| 0 <= i < j < count ==> hashes@[i] != hashes@[j],
                forall|i: int|
                    0 <= i < count ==> self.inputs.deep_view()[i] == unescape_newlines(
                        (#[trigger] self.forest@[i]).leaves(),
                    ),
                (!terms.contains(old(self).start_sym()) && !pmap.dom().contains(
                    old(self).start_sym(),
                )) ==> count == 0,
                maxnt == old(self).grammar_spec().max_non_terminals as int,
                start_s == old(self).start_sym(),
                target == generate_sim(
                    pmap,
                    terms,
                    maxnt,
                    start_s,
                    old(self).prng_state(),
                    Seq::empty(),
                    Seq::empty(),
                    Seq::empty(),
                    old(self).forest_size_spec(),
                    DERIVE_RETRY_LIMIT as nat,
                ),
                target == generate_sim(
                    pmap,
                    terms,
                    maxnt,
                    start_s,
                    self.prng@,
                    hashes@,
                    forest_preorders(self.forest@),
                    forest_leaves(self.forest@),
                    (self.forest_size - count) as nat,
                    DERIVE_RETRY_LIMIT as nat,
                ),
            decreases self.forest_size - count,
        {
            let mut attempt: usize = 0;
            let mut placed: bool = false;
            while attempt < DERIVE_RETRY_LIMIT && !placed
                invariant
                    attempt <= DERIVE_RETRY_LIMIT,
                    count < old(self).forest_size_spec(),
                    self.forest_size == old(self).forest_size_spec(),
                    self.start_symbol@ == old(self).start_sym(),
                    pmap == old(self).grammar_spec().productions_map(),
                    terms == old(self).grammar_spec().terminals_seq(),
                    nterms == old(self).grammar_spec().non_terminals_seq(),
                    self.grammar.productions@ == old(self).grammar_spec().productions@,
                    self.grammar.productions_map() == pmap,
                    self.grammar.terminals_seq() == terms,
                    self.grammar.non_terminals_seq() == nterms,
                    self.grammar.max_non_terminals == old(self).grammar_spec().max_non_terminals,
                    self.grammar.no_non_terminals == 0,
                    old(self).prng_state() != 0 ==> self.prng.wf(),
                    !placed ==> count == self.forest@.len(),
                    placed ==> count + 1 == self.forest@.len(),
                    self.forest@.len() == self.inputs.deep_view().len(),
                    self.forest@.len() == hashes@.len(),
                    forall|i: int|
                        0 <= i < self.forest@.len() ==> (#[trigger] self.forest@[i]).value@ == old(self).start_sym() && well_derived(self.forest@[i], pmap, terms),
                    forall|i: int|
                        0 <= i < self.forest@.len() ==> hashes@[i] == fnv1a(
                            (#[trigger] self.forest@[i]).preorder(),
                        ),
                    forall|i: int, j: int|
                        0 <= i < j < self.forest@.len() ==> hashes@[i] != hashes@[j],
                    forall|i: int|
                        0 <= i < self.forest@.len() ==> self.inputs.deep_view()[i]
                            == unescape_newlines((#[trigger] self.forest@[i]).leaves()),
                    (!terms.contains(old(self).start_sym()) && !pmap.dom().contains(
                        old(self).start_sym(),
                    )) ==> attempt == 0 && !placed,
                    maxnt == old(self).grammar_spec().max_non_terminals as int,
                    start_s == old(self).start_sym(),
                    target == generate_sim(
                        pmap,
                        terms,
                        maxnt,
                        start_s,
                        old(self).prng_state(),
                        Seq::empty(),
                        Seq::empty(),
                        Seq::empty(),
                        old(self).forest_size_spec(),
                        DERIVE_RETRY_LIMIT as nat,
                    ),
                    !placed ==> target == generate_sim(
                        pmap,
                        terms,
                        maxnt,
                        start_s,
                        self.prng@,
                        hashes@,
                        forest_preorders(self.forest@),
                        forest_leaves(self.forest@),
                        (self.forest_size - count) as nat,
                        (DERIVE_RETRY_LIMIT - attempt) as nat,
                    ),
                    placed ==> target == generate_sim(
                        pmap,
                        terms,
                        maxnt,
                        start_s,
                        self.prng@,
                        hashes@,
                        forest_preorders(self.forest@),
                        forest_leaves(self.forest@),
                        (self.forest_size - count - 1) as nat,
                        DERIVE_RETRY_LIMIT as nat,
                    ),
                decreases DERIVE_RETRY_LIMIT - attempt + (if placed {
                    0int
                } else {
                    1int
                }),
            {
                let ghost x_pre: u64 = self.prng@;
                let tree = match derive(
                    &mut self.prng,
                    &mut self.grammar,
                    &self.start_symbol,
                    DERIVE_FUEL,
                ) {
                    Ok(t) => t,
                    Err(e) => {
                        proof {
                            let d = derive_sim(
                                pmap,
                                terms,
                                maxnt,
                                start_s,
                                x_pre,
                                0,
                                DERIVE_FUEL as nat,
                            );
                            assert(d.outcome == Err::<(), CorpusError>(e));
                            assert(target.outcome == Err::<(), CorpusError>(e));
                            assert(target.preorders == forest_preorders(self.forest@));
                            assert(target.leaves == forest_leaves(self.forest@));
                        }
                        self.grammar.no_non_terminals = 0;
                        return Err(e);
                    },
                };
                self.grammar.no_non_terminals = 0;
                proof {
                    let d = derive_sim(pmap, terms, maxnt, start_s, x_pre, 0, DERIVE_FUEL as nat);
                    assert(d.outcome is Ok);
                    assert(tree.preorder() == d.preorder && tree.leaves() == d.leaves);
                    assert(self.prng@ == d.rand);
                }

                let h = tree.hash();
                if !contains_u64(&hashes, h) {
                    let ghost f0: Seq<TreeNode> = self.forest@;
                    let ghost h0: Seq<u64> = hashes@;
                    hashes.push(h);
                    let mut sentence: Vec<u8> = Vec::new();
                    tree.build(&mut sentence);
                    proof {
                        assert(sentence@ =~= tree.leaves());
                    }
                    let input = unescape(&sentence);
                    self.forest.push(tree);
                    self.inputs.push(input);
                    proof {
                        assert(forall|i: int|
                            0 <= i < f0.len() ==> hashes@[i] != h && #[trigger] hashes@[i]
                                == fnv1a(f0[i].preorder()));
                        assert(self.inputs.deep_view() =~~= self.inputs.deep_view().subrange(
                            0,
                            f0.len() as int,
                        ).push(unescape_newlines(tree.leaves())));
                        let d = derive_sim(
                            pmap,
                            terms,
                            maxnt,
                            start_s,
                            x_pre,
                            0,
                            DERIVE_FUEL as nat,
                        );
                        assert(hashes@ =~= h0.push(fnv1a(d.preorder)));
                        assert(forest_preorders(self.forest@) =~~= forest_preorders(f0).push(
                            d.preorder,
                        ));
                        assert(forest_leaves(self.forest@) =~~= forest_leaves(f0).push(d.leaves));
                    }
                    placed = true;
                } else {
                    attempt = attempt + 1;
                }
            }
            if !placed {
                proof {
                    assert(target.outcome == Err::<(), CorpusError>(
                        CorpusError::NoFreshDerivation,
                    ));
                    assert(target.preorders == forest_preorders(self.forest@));
                    assert(target.leaves == forest_leaves(self.forest@));
                }
                return Err(CorpusError::NoFreshDerivation);
            }
            count = count + 1;
        }
        Ok(())
    }

    /// How many sentences the corpus holds.
    pub fn num_inputs(&self) -> (r: usize)
        ensures
            r == self.inputs_seq().len(),
    {
        self.inputs.len()
    }

    /// The sentence at index `i`.
    pub fn input_at(&self, i: usize) -> (r: Vec<u8>)
        requires
            i < self.inputs_seq().len(),
        ensures
            r@ == self.inputs_seq()[i as int],
    {
        proof {
            assert(self.inputs.deep_view()[i as int] =~= self.inputs@[i as int]@);
        }
        copy_bytes(&self.inputs[i])
    }

    /// One pseudo-randomly chosen sentence from the corpus.
    pub fn get_input(&mut self) -> (r: Vec<u8>)
        requires
            old(self).inputs_seq().len() > 0,
        ensures
            ({
                let idx = (crate::xshift::xorshift64_step(old(self).prng_state()) as usize) as int
                    % old(self).inputs_seq().len() as int;
                r@ == old(self).inputs_seq()[idx]
            }),
            final(self).prng_state() == crate::xshift::xorshift64_step(old(self).prng_state()),
            final(self).forest_seq() == old(self).forest_seq(),
            final(self).inputs_seq() == old(self).inputs_seq(),
            final(self).grammar_spec() == old(self).grammar_spec(),
            final(self).start_sym() == old(self).start_sym(),
            final(self).forest_size_spec() == old(self).forest_size_spec(),
    {
        let idx = (self.prng.rand() as usize) % self.inputs.len();
        proof {
            assert(self.inputs.deep_view()[idx as int] =~= self.inputs@[idx as int]@);
        }
        copy_bytes(&self.inputs[idx])
    }
}

/// Every leaf token of the nodes `nodes[i..]` of a well-derived forest is
/// a terminal of the grammar.
proof fn lemma_leaf_tokens_nodes_ok(
    nodes: Seq<TreeNode>,
    pmap: Map<Seq<u8>, Seq<Seq<Seq<u8>>>>,
    terms: Seq<Seq<u8>>,
    i: int,
)
    requires
        well_derived_nodes(nodes, pmap, terms, i),
    ensures
        forall|tok: Seq<u8>| leaf_tokens_nodes(nodes, i).contains(tok) ==> terms.contains(tok),
    decreases nodes, nodes.len() - i, 0int,
{
    if 0 <= i < nodes.len() {
        assert(decreases_to!(nodes => nodes[i]));
        lemma_leaf_tokens_ok(nodes[i], pmap, terms);
        lemma_leaf_tokens_nodes_ok(nodes, pmap, terms, i + 1);
        let a = nodes[i].leaf_tokens();
        let b = leaf_tokens_nodes(nodes, i + 1);
        assert forall|tok: Seq<u8>| (a + b).contains(tok) implies terms.contains(tok) by {
            let idx = choose|idx: int| 0 <= idx < (a + b).len() && (a + b)[idx] == tok;
            if idx < a.len() {
                assert(a[idx] == tok);
                assert(a.contains(tok));
            } else {
                assert(b[idx - a.len()] == tok);
                assert(b.contains(tok));
            }
        }
    }
}

/// Every leaf token of a well-derived tree is a terminal of the grammar.
proof fn lemma_leaf_tokens_ok(
    t: TreeNode,
    pmap: Map<Seq<u8>, Seq<Seq<Seq<u8>>>>,
    terms: Seq<Seq<u8>>,
)
    requires
        well_derived(t, pmap, terms),
    ensures
        forall|tok: Seq<u8>| t.leaf_tokens().contains(tok) ==> terms.contains(tok),
    decreases t, 1int,
{
    match t.children {
        None => {
            assert forall|tok: Seq<u8>| t.leaf_tokens().contains(tok) implies terms.contains(
                tok,
            ) by {
                assert(tok == t.value@);
            }
        },
        Some(cs) => {
            lemma_leaf_tokens_nodes_ok(cs@, pmap, terms, 0);
        },
    }
}

/// Derivation law: a well-derived tree renders a sentence that is exactly
/// the concatenation of its leaf tokens, and each leaf token is a terminal
/// of the grammar.  (The derivation itself always terminates: it is
/// bounded by its expansion fuel.)
pub proof fn lemma_derived_sentence(
    t: TreeNode,
    pmap: Map<Seq<u8>, Seq<Seq<Seq<u8>>>>,
    terms: Seq<Seq<u8>>,
)
    requires
        well_derived(t, pmap, terms),
    ensures
        t.leaves() == cat_tokens(t.leaf_tokens(), 0),
        forall|tok: Seq<u8>| t.leaf_tokens().contains(tok) ==> terms.contains(tok),
{
    lemma_leaves_cat(t);
    lemma_leaf_tokens_ok(t, pmap, terms);
}
} // verus!
