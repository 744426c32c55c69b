use grampus::mutation::{
    mutation_arithmetic, mutation_bitflip, mutation_bitwalk, mutation_insert, mutation_remove,
    mutation_xor, Mutator, MutatorType,
};
use grampus::xshift::XorShift64;

const SEED: u64 = 0xbeefcafe;

#[test]
fn test_bitflip_preserves_length_one_bit() {
    let mut rng = XorShift64::new(SEED).unwrap();
    let input = vec![0u8, 1, 2, 3, 4, 5, 6, 7];
    let out = mutation_bitflip(&mut rng, &input);
    assert_eq!(out.len(), input.len());
    let differing: Vec<usize> = (0..input.len()).filter(|&i| input[i] != out[i]).collect();
    assert_eq!(differing.len(), 1);
    let d = differing[0];
    assert_eq!((input[d] ^ out[d]).count_ones(), 1);
}

#[test]
fn test_xor_preserves_length() {
    let mut rng = XorShift64::new(SEED).unwrap();
    let input = vec![0xaau8; 13];
    let out = mutation_xor(&mut rng, &input);
    assert_eq!(out.len(), input.len());
}

#[test]
fn test_arithmetic_preserves_length_changes_byte() {
    let mut rng = XorShift64::new(SEED).unwrap();
    let input = vec![7u8; 9];
    let out = mutation_arithmetic(&mut rng, &input);
    assert_eq!(out.len(), input.len());
    // the added value is at least 1, so one byte must differ
    let differing = (0..input.len()).filter(|&i| input[i] != out[i]).count();
    assert_eq!(differing, 1);
}

#[test]
fn test_bitwalk_preserves_length() {
    let mut rng = XorShift64::new(SEED).unwrap();
    let input = vec![0u8; 17];
    let out = mutation_bitwalk(&mut rng, &input);
    assert_eq!(out.len(), input.len());
    // at most four bits flip in each byte
    for i in 0..input.len() {
        assert!((input[i] ^ out[i]).count_ones() <= 4);
    }
}

#[test]
fn test_insert_adds_one_byte() {
    let mut rng = XorShift64::new(SEED).unwrap();
    let input = vec![1u8, 2, 3];
    let out = mutation_insert(&mut rng, &input);
    assert_eq!(out.len(), input.len() + 1);
}

#[test]
fn test_remove_drops_one_byte() {
    let mut rng = XorShift64::new(SEED).unwrap();
    let input = vec![1u8, 2, 3];
    let out = mutation_remove(&mut rng, &input);
    assert_eq!(out.len(), input.len() - 1);
}

#[test]
fn test_remove_on_empty_is_noop() {
    let mut rng = XorShift64::new(SEED).unwrap();
    let input: Vec<u8> = Vec::new();
    let out = mutation_remove(&mut rng, &input);
    assert!(out.is_empty());
}

#[test]
fn test_mutate_zero_stack_is_identity() {
    // a deterministic mutator with a zero stack bound passes the input
    // through unchanged
    let mut m = Mutator::new(MutatorType::Deterministic, 0, SEED);
    let input = b"A".to_vec();
    assert_eq!(m.mutate(&input), input);
}

#[test]
fn test_mutate_stack_bound_one_is_identity() {
    // with a bound of one the drawn stack depth is always zero, so the
    // input passes through unchanged
    let mut m = Mutator::new(MutatorType::NonDeterministic, 1, SEED);
    let input = b"hello".to_vec();
    assert_eq!(m.mutate(&input), input);
}

#[test]
fn test_mutate_small_stack_accepts_empty_input() {
    // with a stack bound of at most one, no operator ever runs, so even an
    // empty input passes through
    let mut zero = Mutator::new(MutatorType::Deterministic, 0, SEED);
    assert_eq!(zero.mutate(&Vec::new()), Vec::<u8>::new());
    let mut one = Mutator::new(MutatorType::BitWalk, 1, SEED);
    assert_eq!(one.mutate(&Vec::new()), Vec::<u8>::new());
}

#[test]
fn test_mutate_length_bounds() {
    let mut m = Mutator::new(MutatorType::NonDeterministic, 4, SEED);
    let input = vec![9u8; 10];
    for _ in 0..200 {
        let out = m.mutate(&input);
        assert!(out.len() >= 1);
        assert!(out.len() <= input.len() + 4);
    }
}

#[test]
fn test_mutate_bitwalk_flavor() {
    let mut m = Mutator::new(MutatorType::BitWalk, 3, SEED);
    let input = vec![0xffu8; 12];
    for _ in 0..100 {
        let out = m.mutate(&input);
        assert!(out.len() >= 1);
        assert!(out.len() <= input.len() + 3);
    }
}
