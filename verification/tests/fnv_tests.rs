use grampus::fnv::FnvHash;

#[test]
fn test_hash() {
    let mut h = FnvHash::new();
    assert_eq!(h.hash(b""), 0xcbf29ce484222325);

    let mut h = FnvHash::new();
    assert_eq!(h.hash(b"a"), 0xaf63dc4c8601ec8c);

    let mut h = FnvHash::new();
    assert_eq!(h.hash(b"b"), 0xaf63df4c8601f1a5);
}

#[test]
fn test_hash_restartable() {
    // each call starts from the offset basis again
    let mut h = FnvHash::new();
    let first = h.hash(b"abc");
    let _ = h.hash(b"something else entirely");
    let again = h.hash(b"abc");
    assert_eq!(first, again);
}
