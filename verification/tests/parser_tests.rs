use grampus::grammar::Grammar;
use grampus::grammar_parser::{
    parse_grammar, remove_begin_end_whitespace, remove_quotes, split_bytes, split_non_terminals,
    split_production, strip_quotes, GrammarError,
};

fn toks(v: &[&str]) -> Vec<Vec<u8>> {
    v.iter().map(|s| s.as_bytes().to_vec()).collect()
}

#[test]
fn test_split_bytes_pieces() {
    let r = split_bytes(&b"a|bb|".to_vec(), b'|');
    assert_eq!(r, toks(&["a", "bb", ""]));
    let r = split_bytes(&b"".to_vec(), b'|');
    assert_eq!(r, toks(&[""]));
}

#[test]
fn test_split_non_terminals_adjacent() {
    // a quoted terminal and an adjacent bare token come apart
    let r = split_non_terminals(&b"'a'NT".to_vec());
    assert_eq!(r, toks(&["'a'", "NT"]));
    let r = split_non_terminals(&b"NT'a'".to_vec());
    assert_eq!(r, toks(&["NT", "'a'"]));
    let r = split_non_terminals(&b"'a''b'".to_vec());
    assert_eq!(r, toks(&["'a'", "'b'"]));
    // single-character bare tokens survive
    let r = split_non_terminals(&b"S".to_vec());
    assert_eq!(r, toks(&["S"]));
}

#[test]
fn test_split_production_caret() {
    // a caret stands for a space after whitespace splitting
    let r = split_production(&b"'hello'^'world'".to_vec());
    assert_eq!(r, toks(&["'hello'", " ", "'world'"]));
    let r = split_production(&b"'x' S".to_vec());
    assert_eq!(r, toks(&["'x'", "S"]));
}

#[test]
fn test_trim_and_strip() {
    let mut s = b" ab ".to_vec();
    remove_begin_end_whitespace(&mut s);
    assert_eq!(s, b"ab".to_vec());

    let mut q = b"'abc'".to_vec();
    strip_quotes(&mut q);
    assert_eq!(q, b"abc".to_vec());

    // tokens shorter than three bytes stay as they are
    let mut short = b"''".to_vec();
    strip_quotes(&mut short);
    assert_eq!(short, b"''".to_vec());

    let mut v = toks(&["'a'", "NT"]);
    remove_quotes(&mut v);
    assert_eq!(v, toks(&["a", "NT"]));
}

#[test]
fn test_caret_space_is_a_terminal() {
    // the space a caret stands for is literal output: it joins the
    // terminal vocabulary, so derivation can render it
    let text = b"S ::= 'a'^'b'\n".to_vec();
    let mut productions = Vec::new();
    let mut terminals = Vec::new();
    let mut non_terminals = Vec::new();
    parse_grammar(&text, &mut productions, &mut terminals, &mut non_terminals).unwrap();
    assert_eq!(terminals, toks(&["a", " ", "b"]));
    assert_eq!(productions[0].alternatives[0], toks(&["a", " ", "b"]));
}

#[test]
fn test_parse_grammar_structure() {
    let text = b"S ::= 'x' S | 'y'\n".to_vec();
    let mut productions = Vec::new();
    let mut terminals = Vec::new();
    let mut non_terminals = Vec::new();
    let r = parse_grammar(&text, &mut productions, &mut terminals, &mut non_terminals);
    assert!(r.is_ok());

    assert_eq!(non_terminals, toks(&["S"]));
    assert_eq!(terminals, toks(&["x", "y"]));
    assert_eq!(productions.len(), 1);
    assert_eq!(productions[0].lhs, b"S".to_vec());
    assert_eq!(productions[0].alternatives.len(), 2);
    assert_eq!(productions[0].alternatives[0], toks(&["x", "S"]));
    assert_eq!(productions[0].alternatives[1], toks(&["y"]));
}

#[test]
fn test_parse_grammar_stops_at_blank_line() {
    let text = b"S ::= 'a'\n\nnot a production\n".to_vec();
    let mut productions = Vec::new();
    let mut terminals = Vec::new();
    let mut non_terminals = Vec::new();
    let r = parse_grammar(&text, &mut productions, &mut terminals, &mut non_terminals);
    assert!(r.is_ok());
    assert_eq!(productions.len(), 1);
}

#[test]
fn test_parse_grammar_missing_separator() {
    let text = b"S ::= 'a'\nBROKEN LINE\n".to_vec();
    let mut productions = Vec::new();
    let mut terminals = Vec::new();
    let mut non_terminals = Vec::new();
    let r = parse_grammar(&text, &mut productions, &mut terminals, &mut non_terminals);
    assert_eq!(r.err(), Some(GrammarError::MissingSeparator));
}

#[test]
fn test_grammar_membership() {
    let text = b"S ::= 'x' S | 'y'\n".to_vec();
    let g = Grammar::new(&text, 10).unwrap();
    assert!(g.is_terminal(&b"x".to_vec()));
    assert!(g.is_terminal(&b"y".to_vec()));
    assert!(!g.is_terminal(&b"S".to_vec()));
    assert!(g.is_non_terminal(&b"S".to_vec()));
    assert!(!g.is_non_terminal(&b"x".to_vec()));

    let alts = g.get_production(&b"S".to_vec()).unwrap();
    assert_eq!(alts.len(), 2);
    assert!(g.get_production(&b"T".to_vec()).is_none());
}

#[test]
fn test_grammar_rejects_bad_text() {
    let text = b"no separator here\n".to_vec();
    assert!(Grammar::new(&text, 10).is_none());
}
