use grampus::bitflip::BitWalk;
use grampus::xshift::XorShift64;

const SEED: u64 = 0xfeedface;

#[test]
fn test_bitwalk_completeness() {
    // for a 16-byte input, the walk visits every stage and ends done; each
    // stage-1/1 step flips exactly one bit of one byte
    let input = vec![0xffu8; 16];
    let mut walk = BitWalk::new();
    let mut rng = XorShift64::new(SEED).unwrap();

    // 1/1 stage: 16 steps, each flipping exactly one bit
    for _ in 0..16 {
        assert_eq!(walk.show_state(), "Bitflip 1/1");
        let out = walk.walk(&mut rng, &input).unwrap();
        assert_eq!(out.len(), input.len());
        let flipped: u32 = (0..16).map(|i| (out[i] ^ input[i]).count_ones()).sum();
        assert_eq!(flipped, 1);
    }

    // the remaining stages run until the walk reports done
    let mut steps = 0;
    loop {
        let r = walk.walk(&mut rng, &input);
        if r.is_none() {
            break;
        }
        let out = r.unwrap();
        assert_eq!(out.len(), input.len());
        steps += 1;
        assert!(steps < 1000, "walk never finished");
    }
    assert_eq!(walk.show_state(), "Bitflip Cycle Done");
    // 2/1 and 4/1 take 16 steps each; 8/8, 16/8 and 32/8 take 2 each
    assert_eq!(steps, 16 + 16 + 2 + 2 + 2);
}

#[test]
fn test_bitwalk_schedule_odd_length() {
    // for a 9-byte input the walk takes 9 steps per byte stage and 2 per
    // block stage: 3 * 9 + 3 * 2 steps in all, then it is done
    let input = vec![0xabu8; 9];
    let mut walk = BitWalk::new();
    let mut rng = XorShift64::new(SEED).unwrap();
    let mut steps = 0;
    loop {
        let r = walk.walk(&mut rng, &input);
        if r.is_none() {
            break;
        }
        steps += 1;
        assert!(steps < 1000, "walk never finished");
    }
    assert_eq!(steps, 3 * 9 + 3 * 2);
    assert_eq!(walk.show_state(), "Bitflip Cycle Done");
}

#[test]
fn test_bitwalk_skips_short_input_in_block_stages() {
    // block stages need eight input bytes; shorter inputs are skipped with
    // no state change
    let input = vec![0xffu8; 4];
    let mut walk = BitWalk::new();
    let mut rng = XorShift64::new(SEED).unwrap();
    // run through 1/1, 2/1, 4/1 (4 steps each)
    for _ in 0..12 {
        assert!(walk.walk(&mut rng, &input).is_some());
    }
    assert_eq!(walk.show_state(), "Bitflip 8/8");
    assert!(walk.walk(&mut rng, &input).is_none());
    assert_eq!(walk.show_state(), "Bitflip 8/8");
}

#[test]
fn test_reset_matches_fresh_walk() {
    // after reset, the walk behaves exactly like a freshly constructed one
    let input = vec![0x5au8; 8];
    let mut used = BitWalk::new();
    let mut rng = XorShift64::new(SEED).unwrap();
    for _ in 0..5 {
        let _ = used.walk(&mut rng, &input);
    }
    used.reset();

    let mut fresh = BitWalk::new();
    let mut rng_a = XorShift64::new(77).unwrap();
    let mut rng_b = XorShift64::new(77).unwrap();
    for _ in 0..40 {
        assert_eq!(used.show_state(), fresh.show_state());
        let a = used.walk(&mut rng_a, &input);
        let b = fresh.walk(&mut rng_b, &input);
        assert_eq!(a, b);
    }
    assert_eq!(used.show_state(), fresh.show_state());
}
