use mutilator::bytes::zeros;
use mutilator::mutators::{
    special_num_at, ChaosFlipper, Inversion, LenCorruption, Mutilate, Truncator,
};

fn chaos(input: &str, seed: usize) -> ChaosFlipper {
    ChaosFlipper {
        seed,
        input: input.to_string(),
        output: Vec::new(),
        tmp_vec: zeros(input.len()),
        max_count: 0,
    }
}

fn truncator(input: &str, seed: usize) -> Truncator {
    Truncator { seed, input: input.to_string(), output: Vec::new(), max_count: 0 }
}

fn len_corruption(input: &str, seed: usize) -> LenCorruption {
    LenCorruption { seed, input: input.to_string(), output: Vec::new(), max_count: 0 }
}

fn inversion(input: &str, seed: usize) -> Inversion {
    Inversion { seed, input: input.to_string(), output: Vec::new(), max_count: 0 }
}

#[test]
fn chaos_init_copies_input() {
    let mut c = chaos("abcd", 0);
    assert!(c.can_init());
    c.init_output();
    assert_eq!(c.output, b"abcd".to_vec());
    assert_eq!(c.max_count(), 0x1000);
    assert_eq!(c.tmp_vec, vec![0, 0, 0, 0]);
}

#[test]
fn chaos_rounds_accumulate_flips() {
    let mut c = chaos("abcd", 0);
    c.init_output();
    assert!(c.can_mutate());
    assert_eq!(c.mutate(), Some(vec![0x60, 0x62, 0x63, 0x64]));
    assert_eq!(c.tmp_vec, vec![1, 0, 0, 0]);
    assert_eq!(c.seed, 1);
    assert_eq!(c.mutate(), Some(vec![0x61, 0x63, 0x63, 0x64]));
    assert_eq!(c.tmp_vec, vec![1, 1, 0, 0]);
    assert_eq!(c.mutate(), Some(vec![0x60, 0x62, 0x62, 0x64]));
    assert_eq!(c.tmp_vec, vec![1, 1, 1, 0]);
    assert_eq!(c.seed, 3);
    assert_eq!(c.max_count(), 0x1000);
}

#[test]
fn chaos_walk_visits_several_positions() {
    let mut c = chaos("abcd", 10);
    c.init_output();
    assert_eq!(c.mutate(), Some(vec![0x61, 0x63, 0x62, 0x64]));
    assert_eq!(c.tmp_vec, vec![0, 1, 1, 0]);
    let mut h = chaos("hello world", 300);
    h.init_output();
    assert_eq!(h.mutate(), Some(vec![103, 101, 112, 109, 107, 32, 119, 111, 119, 108, 112]));
    assert_eq!(h.tmp_vec, vec![15, 0, 28, 1, 4, 0, 0, 0, 5, 0, 20]);
}

#[test]
fn chaos_round_is_reverted_by_its_scratch_buffer() {
    let mut c = chaos("hello world", 77);
    c.init_output();
    c.mutate();
    let before = c.output.clone();
    c.mutate();
    let restored: Vec<u8> = c.output.iter().zip(c.tmp_vec.iter()).map(|(a, b)| a ^ b).collect();
    assert_eq!(restored, before);
}

#[test]
fn chaos_refuses_empty_output_and_short_scratch() {
    let c = chaos("", 0);
    assert!(!c.can_mutate());
    let mut e = chaos("abcd", 0);
    e.init_output();
    e.tmp_vec = vec![0, 0];
    assert!(!e.can_mutate());
}

#[test]
fn chaos_set_seed_changes_only_the_seed() {
    let mut c = chaos("abcd", 0);
    c.init_output();
    c.set_seed(42);
    assert_eq!(c.seed, 42);
    assert_eq!(c.output, b"abcd".to_vec());
}

#[test]
fn truncator_init_copies_input_and_counts_windows() {
    let mut t = truncator("abcd", 0);
    assert!(t.can_init());
    t.init_output();
    assert_eq!(t.output, b"abcd".to_vec());
    assert_eq!(t.max_count(), 10);
    let mut e = truncator("", 0);
    e.init_output();
    assert_eq!(e.max_count(), 0);
}

#[test]
fn truncator_count_is_capped_for_long_inputs() {
    let long = "x".repeat(100000);
    let mut t = truncator(&long, 0);
    t.init_output();
    assert_eq!(t.max_count(), 0x10000);
    let edge = "x".repeat(92681);
    let mut u = truncator(&edge, 0);
    u.init_output();
    assert_eq!(u.max_count(), 92681 * 92682 / 2);
}

#[test]
fn truncator_windows_follow_the_seed() {
    let cases: [(usize, &[u8]); 7] = [
        (0, b"abcd"),
        (1, b"bcd"),
        (3, b"d"),
        (4, b"bc"),
        (5, b"c"),
        (8, b"ab"),
        (15, b"a"),
    ];
    for (seed, want) in cases.iter() {
        let mut t = truncator("abcd", *seed);
        t.init_output();
        assert!(t.can_mutate());
        assert_eq!(t.mutate(), Some(want.to_vec()));
        assert_eq!(t.seed, seed + 1);
        assert_eq!(t.output, want.to_vec());
    }
}

#[test]
fn truncator_refuses_seed_past_its_windows() {
    let mut t = truncator("abcd", 16);
    t.init_output();
    assert!(!t.can_mutate());
    let e = truncator("", 0);
    assert!(!e.can_mutate());
}

#[test]
fn truncator_refuses_cut_inside_a_character() {
    let mut t = truncator("\u{e9}a", 1);
    t.init_output();
    assert!(!t.can_mutate());
    let mut u = truncator("\u{e9}a", 2);
    u.init_output();
    assert!(u.can_mutate());
    assert_eq!(u.mutate(), Some(b"a".to_vec()));
}

#[test]
fn truncator_set_seed() {
    let mut t = truncator("abcd", 0);
    t.set_seed(5);
    assert_eq!(t.seed, 5);
}

#[test]
fn special_numbers_table() {
    assert_eq!(special_num_at(0), 0);
    assert_eq!(special_num_at(5), 0xFF);
    assert_eq!(special_num_at(14), 0x100000);
    assert_eq!(special_num_at(21), 0xFFFFFFFFF);
}

#[test]
fn len_corruption_init_counts_rounds() {
    let mut l = len_corruption("abcdefgh", 0);
    assert!(l.can_init());
    l.init_output();
    assert_eq!(l.output, b"abcdefgh".to_vec());
    assert_eq!(l.max_count(), 176);
}

#[test]
fn len_corruption_single_byte_value() {
    let mut l = len_corruption("abcdefgh", 0);
    l.init_output();
    assert!(l.can_mutate());
    assert_eq!(l.mutate(), Some(vec![0, b'b', b'c', b'd', b'e', b'f', b'g', b'h']));
    assert_eq!(l.seed, 1);
    assert_eq!(l.mutate(), Some(vec![1, b'b', b'c', b'd', b'e', b'f', b'g', b'h']));
}

#[test]
fn len_corruption_wide_values_skip_one_extra_byte() {
    let mut l = len_corruption("abcdefgh", 6);
    l.init_output();
    assert_eq!(l.mutate(), Some(vec![0x00, 0x10, b'd', b'e', b'f', b'g', b'h']));
    let mut m = len_corruption("abcdefgh", 8);
    m.init_output();
    assert_eq!(m.mutate(), Some(vec![b'a', 0x00, 0x80, b'e', b'f', b'g', b'h']));
    let mut n = len_corruption("abcdefgh", 17);
    n.init_output();
    assert_eq!(n.mutate(), Some(vec![b'a', b'b', 0xff, 0xff, 0xff, 0xff, b'h']));
}

#[test]
fn len_corruption_at_the_end_drops_the_rest() {
    let mut l = len_corruption("abcdefgh", 63);
    l.init_output();
    assert_eq!(
        l.mutate(),
        Some(vec![b'a', b'b', b'c', b'd', b'e', b'f', b'g', 0xff, 0xff, 0xff, 0xff, 0x07])
    );
}

#[test]
fn len_corruption_written_bytes_read_back_as_the_number() {
    for seed in 0..22usize {
        let mut l = len_corruption("0123456789abcdefghijklmnopqrstuv", seed);
        l.init_output();
        let out = l.mutate().unwrap();
        let v = special_num_at(seed);
        let n = if v <= 0xFF { 1 } else { (64 - v.leading_zeros() as usize + 7) / 8 };
        let mut read: u64 = 0;
        for (k, b) in out[..n].iter().enumerate() {
            read |= (*b as u64) << (8 * k);
        }
        assert_eq!(read, v);
    }
}

#[test]
fn len_corruption_refuses_position_past_the_end() {
    let mut l = len_corruption("ab", 22 * 2);
    l.init_output();
    assert!(!l.can_mutate());
    let e = len_corruption("", 0);
    assert!(!e.can_mutate());
}

#[test]
fn len_corruption_set_seed() {
    let mut l = len_corruption("ab", 0);
    l.set_seed(3);
    assert_eq!(l.seed, 3);
}

#[test]
fn inversion_moves_the_negated_byte() {
    let mut v = inversion("abc", 0);
    assert!(v.can_init());
    v.init_output();
    assert_eq!(v.output, vec![159, b'b', b'c']);
    assert_eq!(v.max_count(), 2);
    assert!(v.can_mutate());
    assert_eq!(v.mutate(), Some(vec![b'a', 158, b'c']));
    assert_eq!(v.seed, 1);
    assert!(v.can_mutate());
    assert_eq!(v.mutate(), Some(vec![b'a', b'b', 157]));
    assert_eq!(v.seed, 2);
    assert!(!v.can_mutate());
}

#[test]
fn inversion_refuses_zero_bytes_and_bad_seeds() {
    let z = inversion("a\u{0}c", 1);
    assert!(!z.can_init());
    let far = inversion("abc", 3);
    assert!(!far.can_init());
    let mut v = inversion("a\u{0}c", 0);
    v.init_output();
    assert!(!v.can_mutate());
}

#[test]
fn inversion_set_seed() {
    let mut v = inversion("abc", 0);
    v.set_seed(1);
    assert_eq!(v.seed, 1);
}

#[test]
fn truncator_every_counted_round_runs() {
    let mut t = truncator("hello, world", 0);
    t.init_output();
    let count = t.max_count();
    for k in 0..count {
        assert_eq!(t.seed, k);
        assert!(t.can_mutate());
        let out = t.mutate().unwrap();
        assert!(!out.is_empty());
    }
}

#[test]
fn truncator_round_ignores_earlier_output() {
    let mut a = truncator("abcdef", 9);
    let mut b = truncator("abcdef", 9);
    a.init_output();
    b.output = vec![1, 2, 3];
    b.max_count = 7;
    assert_eq!(a.mutate(), b.mutate());
    assert_eq!(a.seed, b.seed);
}

#[test]
fn inversion_every_counted_round_runs() {
    let mut v = inversion("hello", 0);
    v.init_output();
    let count = v.max_count();
    for k in 0..count {
        assert_eq!(v.seed, k);
        assert!(v.can_mutate());
        v.mutate();
    }
    assert_eq!(v.output, vec![b'h', b'e', b'l', b'l', 145]);
}

#[test]
fn chaos_rounds_from_low_seeds_run() {
    let mut c = chaos("abc", 1_000_000);
    c.init_output();
    for _ in 0..0x1000 {
        assert!(c.can_mutate());
        c.mutate();
    }
    assert_eq!(c.seed, 1_000_000 + 0x1000);
}
