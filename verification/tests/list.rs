use mutilator::mutators::Mutilate;
use mutilator::{gen_mutilator_list, run_buildable, Mutilator};

fn kinds(list: &[Mutilator]) -> Vec<&'static str> {
    list.iter()
        .map(|m| match m {
            Mutilator::Chaos(_) => "chaos",
            Mutilator::Truncate(_) => "truncator",
            Mutilator::LenCorrupt(_) => "lencorrupt",
            Mutilator::Invert(_) => "inversion",
        })
        .collect()
}

#[test]
fn all_selects_the_documented_mutators_in_order() {
    let inp = "abcd".to_string();
    assert!(run_buildable(&inp, &"all".to_string(), 0));
    let list = gen_mutilator_list(&inp, "all".to_string(), 0);
    assert_eq!(kinds(&list), vec!["chaos", "truncator", "lencorrupt"]);
}

#[test]
fn choice_selects_by_substring() {
    let inp = "abcd".to_string();
    let list = gen_mutilator_list(&inp, "chaos".to_string(), 0);
    assert_eq!(kinds(&list), vec!["chaos"]);
    let list = gen_mutilator_list(&inp, "inversion+truncator".to_string(), 1);
    assert_eq!(kinds(&list), vec!["truncator", "inversion"]);
    let list = gen_mutilator_list(&inp, "xyz".to_string(), 0);
    assert!(list.is_empty());
    let list = gen_mutilator_list(&inp, "allx".to_string(), 0);
    assert!(list.is_empty());
}

#[test]
fn chosen_mutators_are_set_up() {
    let inp = "abcd".to_string();
    let mut list = gen_mutilator_list(&inp, "chaos,truncator,lencorrupt,inversion".to_string(), 1);
    match &list[0] {
        Mutilator::Chaos(c) => {
            assert_eq!(c.seed, 1);
            assert_eq!(c.input, "abcd");
            assert_eq!(c.output, b"abcd".to_vec());
            assert_eq!(c.tmp_vec, vec![0, 0, 0, 0]);
        }
        _ => panic!("expected a chaos flipper first"),
    }
    match &list[3] {
        Mutilator::Invert(v) => assert_eq!(v.output, vec![b'a', 158, b'c', b'd']),
        _ => panic!("expected an inversion last"),
    }
    assert_eq!(list[0].max_count(), 0x1000);
    assert_eq!(list[1].max_count(), 10);
    assert_eq!(list[2].max_count(), 88);
    assert_eq!(list[3].max_count(), 3);
    assert!(list[3].can_mutate());
    assert_eq!(list[3].mutate(), Some(vec![b'a', b'b', 157, b'd']));
    assert_eq!(list[1].mutate(), Some(b"bcd".to_vec()));
}

#[test]
fn inversion_needs_a_byte_at_the_seed() {
    let inp = "ab".to_string();
    assert!(run_buildable(&inp, &"all".to_string(), 2));
    assert!(!run_buildable(&inp, &"all,inversion".to_string(), 2));
    assert!(!run_buildable(&inp, &"inversion".to_string(), 5));
    assert!(run_buildable(&inp, &"chaos".to_string(), 5));
}

#[test]
fn inversion_only_by_name() {
    let inp = "abcd".to_string();
    let list = gen_mutilator_list(&inp, "inversion".to_string(), 0);
    assert_eq!(kinds(&list), vec!["inversion"]);
}
