use grampus::fnv::FnvHash;
use grampus::syntax_tree::TreeNode;

#[test]
fn test_leaf_builds_its_value() {
    let leaf = TreeNode::new(&b"abc".to_vec());
    let mut out = Vec::new();
    leaf.build(&mut out);
    assert_eq!(out, b"abc".to_vec());
}

#[test]
fn test_build_concatenates_leaves() {
    // S -> [ab, S'], where the child S' stays a leaf
    let mut root = TreeNode::new(&b"S".to_vec());
    root.insert_child(&b"ab".to_vec());
    root.insert_child(&b"cd".to_vec());
    let mut out = Vec::new();
    root.build(&mut out);
    // the expanded root contributes nothing itself
    assert_eq!(out, b"abcd".to_vec());
}

#[test]
fn test_hash_is_preorder_fnv() {
    let mut root = TreeNode::new(&b"S".to_vec());
    root.insert_child(&b"ab".to_vec());
    root.insert_child(&b"cd".to_vec());
    let mut fnv = FnvHash::new();
    assert_eq!(root.hash(), fnv.hash(b"Sabcd"));
}

#[test]
fn test_distinct_trees_have_distinct_hashes() {
    let mut one = TreeNode::new(&b"S".to_vec());
    one.insert_child(&b"a".to_vec());
    let mut two = TreeNode::new(&b"S".to_vec());
    two.insert_child(&b"b".to_vec());
    assert_ne!(one.hash(), two.hash());
}
