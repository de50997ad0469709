use mutilator::bytes::zeros;
use mutilator::mutators::chaos_mutator::{ChaosFlipper, Empty, Mutilate, Truncator};

fn truncator(input: &str, seed: usize) -> Truncator {
    Truncator { seed, input: input.to_string(), output: Vec::new(), enabled: true }
}

#[test]
fn early_chaos_flipper_matches_the_later_one() {
    let mut c = ChaosFlipper {
        seed: 0,
        input: "abcd".to_string(),
        output: Vec::new(),
        tmp_vec: zeros(4),
        enabled: true,
    };
    assert!(c.can_init());
    c.init_output();
    assert_eq!(c.output, b"abcd".to_vec());
    assert!(c.can_mutate());
    assert_eq!(c.mutate(), Some(vec![0x60, 0x62, 0x63, 0x64]));
    assert_eq!(c.mutate(), Some(vec![0x61, 0x63, 0x63, 0x64]));
    assert!(c.is_enabled());
    c.set_seed(10);
    assert_eq!(c.seed, 10);
}

#[test]
fn early_truncator_first_seeds_trim_the_end() {
    let cases: [(usize, &[u8]); 4] = [(0, b"abcd"), (1, b"abc"), (2, b"ab"), (3, b"a")];
    for (seed, want) in cases.iter() {
        let mut t = truncator("abcd", *seed);
        t.init_output();
        assert!(t.can_mutate());
        assert_eq!(t.mutate(), Some(want.to_vec()));
        assert_eq!(t.seed, seed + 1);
        assert!(t.is_enabled());
    }
}

#[test]
fn early_truncator_walks_inwards() {
    let cases: [(usize, &[u8]); 6] =
        [(4, b"bcd"), (5, b"bc"), (6, b"b"), (7, b""), (8, b"c"), (9, b"")];
    for (seed, want) in cases.iter() {
        let mut t = truncator("abcd", *seed);
        t.init_output();
        assert_eq!(t.mutate(), Some(want.to_vec()));
        assert_eq!(t.seed, seed + 1);
    }
}

#[test]
fn early_truncator_switches_off_and_stays_off() {
    let mut t = truncator("abcd", 10);
    t.init_output();
    assert!(t.can_mutate());
    assert_eq!(t.mutate(), Some(b"abcd".to_vec()));
    assert!(!t.is_enabled());
    assert_eq!(t.seed, 10);
    assert_eq!(t.mutate(), Some(b"abcd".to_vec()));
    assert!(!t.is_enabled());
    assert_eq!(t.seed, 10);
}

#[test]
fn early_truncator_refuses_seed_past_the_walk() {
    let t = truncator("abcd", 14);
    assert!(!t.can_mutate());
    let e = truncator("", 0);
    assert!(!e.can_mutate());
    let mut u = truncator("abcd", 13);
    u.set_seed(13);
    assert!(u.can_mutate());
}

#[test]
fn empty_hands_out_the_input() {
    let mut e = Empty { input: "xyz".to_string() };
    assert!(e.can_init());
    e.init_output();
    assert!(e.can_mutate());
    assert_eq!(e.mutate(), Some(b"xyz".to_vec()));
    assert_eq!(e.mutate(), Some(b"xyz".to_vec()));
    assert!(!e.is_enabled());
}
