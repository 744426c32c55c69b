//! Derivation trees: nodes with a byte-string value and ordered children.

use vstd::prelude::*;

use crate::fnv::{FnvHash, fnv1a};

verus! {

/// A node in a derivation tree.  A node owns its value and, once expanded,
/// an ordered list of children; a node without children is a leaf.
pub struct TreeNode {
    /// The symbol value stored in this node.
    pub value: Vec<u8>,
    /// The child nodes; `None` for an unexpanded node.
    pub children: Option<Vec<TreeNode>>,
}

/// Concatenation of `preorder` over `nodes[i..]`.
pub open spec fn preorder_nodes(nodes: Seq<TreeNode>, i: int) -> Seq<u8>
    decreases nodes, nodes.len() - i,
{
    if i < 0 || i >= nodes.len() {
        Seq::empty()
    } else {
        nodes[i].preorder() + preorder_nodes(nodes, i + 1)
    }
}

/// Concatenation of `leaves` over `nodes[i..]`.
pub open spec fn leaves_nodes(nodes: Seq<TreeNode>, i: int) -> Seq<u8>
    decreases nodes, nodes.len() - i,
{
    if i < 0 || i >= nodes.len() {
        Seq::empty()
    } else {
        nodes[i].leaves() + leaves_nodes(nodes, i + 1)
    }
}

impl TreeNode {
    /// Every node's value, concatenated in pre-order.
    pub open spec fn preorder(self) -> Seq<u8>
        decreases self, 0int,
    {
        match self.children {
            None => self.value@,
            Some(cs) => self.value@ + preorder_nodes(cs@, 0),
        }
    }

    /// The values of the leaves, concatenated left to right.  A node with
    /// children contributes only what its subtree's leaves hold.
    pub open spec fn leaves(self) -> Seq<u8>
        decreases self, 0int,
    {
        match self.children {
            None => self.value@,
            Some(cs) => leaves_nodes(cs@, 0),
        }
    }

    /// The values of this subtree's leaves, as separate tokens in order.
    pub open spec fn leaf_tokens(self) -> Seq<Seq<u8>>
        decreases self, 0int,
    {
        match self.children {
            None => seq![self.value@],
            Some(cs) => leaf_tokens_nodes(cs@, 0),
        }
    }

    /// A leaf with value `v` and no children.
    pub fn new(v: &Vec<u8>) -> (r: TreeNode)
        ensures
            r.value@ == v@,
            r.children is None,
    {
        let mut value: Vec<u8> = Vec::new();
        let mut i: usize = 0;
        while i < v.len()
            invariant
                i <= v@.len(),
                value@ == v@.subrange(0, i as int),
            decreases v@.len() - i,
        {
            value.push(v[i]);
            proof {
                assert(v@.subrange(0, i + 1) == v@.subrange(0, i as int).push(v@[i as int]));
            }
            i = i + 1;
        }
        proof {
            assert(v@.subrange(0, v@.len() as int) == v@);
        }
        TreeNode { value, children: None }
    }

    /// Append a new leaf with value `value` as the last child, creating the
    /// child list if the node had none.
    pub fn insert_child(&mut self, value: &Vec<u8>)
        ensures
            final(self).value == old(self).value,
            final(self).children matches Some(cs) && {
                let prior = match old(self).children {
                    None => Seq::<TreeNode>::empty(),
                    Some(p) => p@,
                };
                &&& cs@.len() == prior.len() + 1
                &&& cs@.subrange(0, prior.len() as int) == prior
                &&& cs@.last().value@ == value@
                &&& cs@.last().children is None
            },
    {
        if self.children.is_none() {
            self.children = Some(Vec::new());
        }
        match &mut self.children {
            Some(cs) => {
                cs.push(TreeNode::new(value));
                proof {
                    assert(cs@.subrange(0, cs@.len() - 1) =~= (match old(self).children {
                        Some(p) => p@,
                        None => Seq::<TreeNode>::empty(),
                    }));
                }
            },
            None => {},
        }
    }

    /// Append the values of this subtree's leaves to `s`, left to right:
    /// the sentence the tree derives.
    pub fn build(&self, s: &mut Vec<u8>)
        ensures
            final(s)@ == old(s)@ + self.leaves(),
        decreases *self,
    {
        match &self.children {
            None => {
                let mut i: usize = 0;
                while i < self.value.len()
                    invariant
                        i <= self.value@.len(),
                        s@ == old(s)@ + self.value@.subrange(0, i as int),
                    decreases self.value@.len() - i,
                {
                    s.push(self.value[i]);
                    proof {
                        assert(self.value@.subrange(0, i + 1) == self.value@.subrange(
                            0,
                            i as int,
                        ).push(self.value@[i as int]));
                    }
                    i = i + 1;
                }
                proof {
                    assert(self.value@.subrange(0, self.value@.len() as int) == self.value@);
                }
            },
            Some(cs) => {
                proof {
                    assert(s@ + leaves_nodes(cs@, 0) == old(s)@ + leaves_nodes(cs@, 0));
                }
                let mut i: usize = 0;
                while i < cs.len()
                    invariant
                        i <= cs@.len(),
                        s@ + leaves_nodes(cs@, i as int) == old(s)@ + leaves_nodes(cs@, 0),
                        self.children matches Some(c) && c@ == cs@,
                    decreases cs@.len() - i,
                {
                    proof {
                        assert(decreases_to!(cs@ => cs@[i as int]));
                    }
                    let ghost s_pre: Seq<u8> = s@;
                    cs[i].build(s);
                    proof {
                        assert(s@ + leaves_nodes(cs@, i + 1) =~= (s_pre + cs@[i as int].leaves())
                            + leaves_nodes(cs@, i + 1));
                        assert(s_pre + (cs@[i as int].leaves() + leaves_nodes(cs@, i + 1)) =~= (
                        s_pre + cs@[i as int].leaves()) + leaves_nodes(cs@, i + 1));
                    }
                    i = i + 1;
                }
                proof {
                    assert(s@ + leaves_nodes(cs@, cs@.len() as int) =~= s@);
                }
            },
        }
    }

    /// Append every value of this subtree to `s` in pre-order: the string
    /// that identifies the derivation for hashing.
    pub fn collect(&self, s: &mut Vec<u8>)
        ensures
            final(s)@ == old(s)@ + self.preorder(),
        decreases *self,
    {
        let mut i: usize = 0;
        while i < self.value.len()
            invariant
                i <= self.value@.len(),
                s@ == old(s)@ + self.value@.subrange(0, i as int),
            decreases self.value@.len() - i,
        {
            s.push(self.value[i]);
            proof {
                assert(self.value@.subrange(0, i + 1) == self.value@.subrange(0, i as int).push(
                    self.value@[i as int],
                ));
            }
            i = i + 1;
        }
        proof {
            assert(self.value@.subrange(0, self.value@.len() as int) == self.value@);
        }
        match &self.children {
            None => {
                proof {
                    assert(old(s)@ + self.value@ == old(s)@ + self.preorder());
                }
            },
            Some(cs) => {
                let ghost s_mid: Seq<u8> = s@;
                let mut i: usize = 0;
                while i < cs.len()
                    invariant
                        i <= cs@.len(),
                        s@ + preorder_nodes(cs@, i as int) == s_mid + preorder_nodes(cs@, 0),
                        self.children matches Some(c) && c@ == cs@,
                    decreases cs@.len() - i,
                {
                    proof {
                        assert(decreases_to!(cs@ => cs@[i as int]));
                    }
                    let ghost s_pre: Seq<u8> = s@;
                    cs[i].collect(s);
                    proof {
                        assert(s@ + preorder_nodes(cs@, i + 1) =~= (s_pre + cs@[i as int].preorder())
                            + preorder_nodes(cs@, i + 1));
                        assert(s_pre + (cs@[i as int].preorder() + preorder_nodes(cs@, i + 1)) =~= (
                        s_pre + cs@[i as int].preorder()) + preorder_nodes(cs@, i + 1));
                    }
                    i = i + 1;
                }
                proof {
                    assert(s@ + preorder_nodes(cs@, cs@.len() as int) =~= s@);
                    assert(s_mid + preorder_nodes(cs@, 0) =~= old(s)@ + (self.value@
                        + preorder_nodes(cs@, 0)));
                }
            },
        }
    }

    /// The FNV-1a hash of the pre-order concatenation of every node value:
    /// the key under which a derivation is de-duplicated.
    pub fn hash(&self) -> (r: u64)
        ensures
            r == fnv1a(self.preorder()),
    {
        let mut s: Vec<u8> = Vec::new();
        let mut fnv = FnvHash::new();
        self.collect(&mut s);
        fnv.hash(s.as_slice())
    }
}

/// The leaf values of `nodes[i..]`, as separate tokens in order.
pub open spec fn leaf_tokens_nodes(nodes: Seq<TreeNode>, i: int) -> Seq<Seq<u8>>
    decreases nodes, nodes.len() - i,
{
    if i < 0 || i >= nodes.len() {
        seq![]
    } else {
        nodes[i].leaf_tokens() + leaf_tokens_nodes(nodes, i + 1)
    }
}

/// Concatenation of the byte strings `toks[i..]`.
pub open spec fn cat_tokens(toks: Seq<Seq<u8>>, i: int) -> Seq<u8>
    decreases toks.len() - i,
{
    if i < 0 || i >= toks.len() {
        Seq::empty()
    } else {
        toks[i] + cat_tokens(toks, i + 1)
    }
}

/// Concatenating from an index past `a` only sees `b`.
proof fn lemma_cat_shift(a: Seq<Seq<u8>>, b: Seq<Seq<u8>>, j: int)
    requires
        0 <= j <= b.len(),
    ensures
        cat_tokens(a + b, a.len() + j) == cat_tokens(b, j),
    decreases b.len() - j,
{
    if j < b.len() {
        assert((a + b)[a.len() + j] == b[j]);
        lemma_cat_shift(a, b, j + 1);
    }
}

/// Concatenation of tokens distributes over appending token lists.
proof fn lemma_cat_append_from(a: Seq<Seq<u8>>, b: Seq<Seq<u8>>, i: int)
    requires
        0 <= i <= a.len(),
    ensures
        cat_tokens(a + b, i) == cat_tokens(a, i) + cat_tokens(b, 0),
    decreases a.len() - i,
{
    if i == a.len() {
        lemma_cat_shift(a, b, 0);
        assert(Seq::<u8>::empty() + cat_tokens(b, 0) =~= cat_tokens(b, 0));
    } else {
        assert((a + b)[i] == a[i]);
        lemma_cat_append_from(a, b, i + 1);
        assert(a[i] + (cat_tokens(a, i + 1) + cat_tokens(b, 0)) =~= (a[i] + cat_tokens(a, i + 1))
            + cat_tokens(b, 0));
    }
}

/// The sentence the nodes `nodes[i..]` build is the concatenation of
/// their leaf tokens.
proof fn lemma_leaves_cat_nodes(nodes: Seq<TreeNode>, i: int)
    ensures
        leaves_nodes(nodes, i) == cat_tokens(leaf_tokens_nodes(nodes, i), 0),
    decreases nodes, nodes.len() - i, 0int,
{
    if 0 <= i < nodes.len() {
        assert(decreases_to!(nodes => nodes[i]));
        lemma_leaves_cat(nodes[i]);
        lemma_leaves_cat_nodes(nodes, i + 1);
        lemma_cat_append_from(nodes[i].leaf_tokens(), leaf_tokens_nodes(nodes, i + 1), 0);
    }
}

/// The sentence a tree builds is the concatenation of its leaf tokens:
/// what [`TreeNode::build`] renders is exactly the leaf values, in order.
pub proof fn lemma_leaves_cat(t: TreeNode)
    ensures
        t.leaves() == cat_tokens(t.leaf_tokens(), 0),
    decreases t, 1int,
{
    match t.children {
        None => {
            assert(cat_tokens(seq![t.value@], 0) =~= t.value@) by {
                reveal_with_fuel(cat_tokens, 2);
            }
        },
        Some(cs) => {
            lemma_leaves_cat_nodes(cs@, 0);
        },
    }
}

/// Appending a node extends the pre-order concatenation by that node's.
pub proof fn lemma_preorder_nodes_push(nodes: Seq<TreeNode>, x: TreeNode, i: int)
    requires
        0 <= i <= nodes.len(),
    ensures
        preorder_nodes(nodes.push(x), i) == preorder_nodes(nodes, i) + x.preorder(),
    decreases nodes.len() - i,
{
    if i < nodes.len() {
        assert(nodes.push(x)[i] == nodes[i]);
        lemma_preorder_nodes_push(nodes, x, i + 1);
        assert(nodes[i].preorder() + (preorder_nodes(nodes, i + 1) + x.preorder())
            =~= (nodes[i].preorder() + preorder_nodes(nodes, i + 1)) + x.preorder());
    } else {
        assert(nodes.push(x)[i] == x);
        assert(preorder_nodes(nodes.push(x), i + 1) =~= Seq::<u8>::empty());
        assert(preorder_nodes(nodes, i) =~= Seq::<u8>::empty());
        assert(preorder_nodes(nodes.push(x), i) =~= x.preorder());
        assert(preorder_nodes(nodes, i) + x.preorder() =~= x.preorder());
    }
}

/// Appending a node extends the leaf concatenation by that node's leaves.
pub proof fn lemma_leaves_nodes_push(nodes: Seq<TreeNode>, x: TreeNode, i: int)
    requires
        0 <= i <= nodes.len(),
    ensures
        leaves_nodes(nodes.push(x), i) == leaves_nodes(nodes, i) + x.leaves(),
    decreases nodes.len() - i,
{
    if i < nodes.len() {
        assert(nodes.push(x)[i] == nodes[i]);
        lemma_leaves_nodes_push(nodes, x, i + 1);
        assert(nodes[i].leaves() + (leaves_nodes(nodes, i + 1) + x.leaves()) =~= (nodes[i].leaves()
            + leaves_nodes(nodes, i + 1)) + x.leaves());
    } else {
        assert(nodes.push(x)[i] == x);
        assert(leaves_nodes(nodes.push(x), i + 1) =~= Seq::<u8>::empty());
        assert(leaves_nodes(nodes, i) =~= Seq::<u8>::empty());
        assert(leaves_nodes(nodes.push(x), i) =~= x.leaves());
        assert(leaves_nodes(nodes, i) + x.leaves() =~= x.leaves());
    }
}
} // verus!
