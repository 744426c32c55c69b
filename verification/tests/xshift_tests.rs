use grampus::xshift::XorShift64;

#[test]
fn test_xorshift64_invalid_new() {
    // test if an invalid seed results in a `None`
    let x = XorShift64::new(0);
    assert_eq!(x.is_some(), false);
}

#[test]
fn test_xorshift64_valid_new() {
    // test if a valid seed results in a `Some`
    assert_eq!(XorShift64::new(0xdeadbeef).is_some(), true);
}

#[test]
fn test_xorshift64_sanity() {
    // reference sequence for seed 1234567
    let mut x = XorShift64::new(1234567).unwrap();
    assert_eq!(x.rand(), 1333627000697578);
    assert_eq!(x.rand(), 14261447996154253071);
    assert_eq!(x.rand(), 3585844736910023377);
    assert_eq!(x.rand(), 5442475313099128100);
    assert_eq!(x.rand(), 933003675054162526);
}

#[test]
fn test_rand_never_zero() {
    // from a non-zero seed, a run of draws never hits zero
    let mut x = XorShift64::new(1).unwrap();
    for _ in 0..10000 {
        assert_ne!(x.rand(), 0);
    }
}

#[test]
fn test_rand_range_bounds() {
    let mut x = XorShift64::new(99).unwrap();
    for _ in 0..1000 {
        let r = x.rand_range(10, 20);
        assert!(10 <= r && r < 20);
    }
}

#[test]
fn test_rand_byte_is_low_bits() {
    let mut a = XorShift64::new(4242).unwrap();
    let mut b = XorShift64::new(4242).unwrap();
    for _ in 0..100 {
        let byte = a.rand_byte();
        let word = b.rand();
        assert_eq!(byte, (word & 0xff) as u8);
    }
}
