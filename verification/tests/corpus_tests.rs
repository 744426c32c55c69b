use grampus::corpus::{Corpus, CorpusError, DERIVE_FUEL};
use grampus::grammar::Grammar;
use grampus::xshift::XorShift64;

const SEED: u64 = 0x1234567;

#[test]
fn test_trivial_grammar_single_sentence() {
    // grammar S ::= 'a', forest size 1: exactly one sentence, "a"
    let text = b"S ::= 'a'\n".to_vec();
    let mut corpus = Corpus::new(&text, &b"S".to_vec(), 100, 1, SEED).unwrap();
    corpus.generate().unwrap();
    assert_eq!(corpus.get_input(), b"a".to_vec());
}

#[test]
fn test_branching_grammar_two_sentences() {
    // grammar S ::= 'a' | 'b', forest size 2: the two distinct sentences
    let text = b"S ::= 'a' | 'b'\n".to_vec();
    let mut corpus = Corpus::new(&text, &b"S".to_vec(), 100, 2, SEED).unwrap();
    corpus.generate().unwrap();
    let mut seen_a = false;
    let mut seen_b = false;
    for _ in 0..64 {
        let s = corpus.get_input();
        if s == b"a".to_vec() {
            seen_a = true;
        } else if s == b"b".to_vec() {
            seen_b = true;
        } else {
            panic!("unexpected sentence {:?}", s);
        }
    }
    assert!(seen_a && seen_b);
}

#[test]
fn test_recursion_with_budget() {
    // grammar S ::= 'x' S | 'y' with expansion bound 5 and forest size 3:
    // every sentence is x...xy and at least one has length two or more
    let text = b"S ::= 'x' S | 'y'\n".to_vec();
    let mut corpus = Corpus::new(&text, &b"S".to_vec(), 5, 3, SEED).unwrap();
    corpus.generate().unwrap();
    let mut long_seen = false;
    let mut sentences = Vec::new();
    for _ in 0..64 {
        let s = corpus.get_input();
        assert!(!s.is_empty());
        for k in 0..s.len() - 1 {
            assert_eq!(s[k], b'x');
        }
        assert_eq!(s[s.len() - 1], b'y');
        if s.len() >= 2 {
            long_seen = true;
        }
        if !sentences.contains(&s) {
            sentences.push(s);
        }
    }
    assert!(long_seen);
    assert_eq!(sentences.len(), 3);
}

#[test]
fn test_whitespace_terminal() {
    // grammar S ::= 'hello'^'world': every sentence is "hello world"
    let text = b"S ::= 'hello'^'world'\n".to_vec();
    let mut corpus = Corpus::new(&text, &b"S".to_vec(), 100, 1, SEED).unwrap();
    corpus.generate().unwrap();
    assert_eq!(corpus.get_input(), b"hello world".to_vec());
}

#[test]
fn test_newline_escape_in_terminal() {
    // the two-byte \n escape renders as a newline byte
    let text = b"S ::= 'one\\ntwo'\n".to_vec();
    let mut corpus = Corpus::new(&text, &b"S".to_vec(), 100, 1, SEED).unwrap();
    corpus.generate().unwrap();
    assert_eq!(corpus.get_input(), b"one\ntwo".to_vec());
}

#[test]
fn test_corpus_rejects_zero_seed() {
    let text = b"S ::= 'a'\n".to_vec();
    assert!(Corpus::new(&text, &b"S".to_vec(), 100, 1, 0).is_none());
}

#[test]
fn test_corpus_rejects_bad_grammar() {
    let text = b"not a grammar\n".to_vec();
    assert!(Corpus::new(&text, &b"S".to_vec(), 100, 1, SEED).is_none());
}

#[test]
fn test_undefined_symbol_is_refused() {
    // a start symbol that is not a terminal is a non-terminal; without a
    // production for it, generation is refused
    let text = b"S ::= 'a'\n".to_vec();
    let mut corpus = Corpus::new(&text, &b"T".to_vec(), 100, 1, SEED).unwrap();
    assert_eq!(corpus.generate().err(), Some(CorpusError::UnidentifiedSymbol));
}

#[test]
fn test_derive_unidentified_symbol() {
    // deriving a non-terminal the grammar never defines is refused
    let mut g = Grammar::new(&b"S ::= 'a' T\n".to_vec(), 100).unwrap();
    let mut rng = XorShift64::new(SEED).unwrap();
    let r = grampus::corpus::derive(&mut rng, &mut g, &b"S".to_vec(), DERIVE_FUEL);
    assert_eq!(r.err(), Some(CorpusError::UnidentifiedSymbol));
}

#[test]
fn test_derive_budget_exhausted() {
    // a grammar whose only alternative is recursive never closes; a small
    // expansion budget stops it
    let mut g = Grammar::new(&b"S ::= S S\n".to_vec(), 100).unwrap();
    let mut rng = XorShift64::new(SEED).unwrap();
    let r = grampus::corpus::derive(&mut rng, &mut g, &b"S".to_vec(), 8);
    assert_eq!(r.err(), Some(CorpusError::BudgetExhausted));
}

#[test]
fn test_generate_not_enough_distinct_sentences() {
    // a single-sentence grammar cannot fill a forest of two
    let text = b"S ::= 'a'\n".to_vec();
    let mut corpus = Corpus::new(&text, &b"S".to_vec(), 100, 2, SEED).unwrap();
    assert_eq!(corpus.generate().err(), Some(CorpusError::NoFreshDerivation));
}
