use grampus::util::{check_start_symbol, is_crash_signal};

#[test]
fn test_check_start_symbol_matches_first_lhs() {
    let text = b"START ::= 'a'\nOTHER ::= 'b'\n".to_vec();
    assert!(check_start_symbol(&text, &b"START".to_vec()));
    assert!(!check_start_symbol(&text, &b"OTHER".to_vec()));
    assert!(!check_start_symbol(&text, &b"start".to_vec()));
}

#[test]
fn test_check_start_symbol_strips_whitespace() {
    let text = b"  S  ::= 'a'\n".to_vec();
    assert!(check_start_symbol(&text, &b"S".to_vec()));
}

#[test]
fn test_check_start_symbol_without_separator() {
    // without a separator the whole first line, stripped, is the symbol
    let text = b"SYM\n".to_vec();
    assert!(check_start_symbol(&text, &b"SYM".to_vec()));
}

#[test]
fn test_crash_signals() {
    // illegal instruction, abort, bus error, segmentation fault
    assert!(is_crash_signal(4));
    assert!(is_crash_signal(6));
    assert!(is_crash_signal(7));
    assert!(is_crash_signal(11));
    // other terminations are not crashes
    assert!(!is_crash_signal(0));
    assert!(!is_crash_signal(9));
    assert!(!is_crash_signal(15));
}
