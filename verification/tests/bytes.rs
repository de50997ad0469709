use mutilator::bytes::{bytes_equal, find_bytes, string_bytes, zeros};
use mutilator::walk::walk_terminates;

#[test]
fn search_finds_runs_of_bytes() {
    assert!(find_bytes(b"lencorrupt,chaos", b"chaos"));
    assert!(!find_bytes(b"chao", b"chaos"));
    assert!(find_bytes(b"abc", b""));
    assert!(!find_bytes(b"abc", b"abd"));
}

#[test]
fn equality_of_buffers() {
    assert!(bytes_equal(b"all", b"all"));
    assert!(!bytes_equal(b"all", b"al"));
    assert!(!bytes_equal(b"all", b"alx"));
}

#[test]
fn string_bytes_are_utf8() {
    assert_eq!(string_bytes(&"\u{e9}a".to_string()), vec![0xc3, 0xa9, b'a']);
    assert_eq!(zeros(3), vec![0, 0, 0]);
}

#[test]
fn chaos_walk_termination() {
    assert!(walk_terminates(0, 4));
    assert!(walk_terminates(1000, 1));
    assert!(!walk_terminates(usize::MAX, usize::MAX / 4));
    assert!(!walk_terminates(usize::MAX - 1, usize::MAX / 2 + 1));
    assert!(walk_terminates(usize::MAX / 2, usize::MAX / 2));
}
