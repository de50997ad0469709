use mutilator::options::{options_accepted, parse_options, rounds};

fn strings(v: &[&str]) -> Vec<String> {
    v.iter().map(|s| s.to_string()).collect()
}

#[test]
fn defaults_without_flags() {
    let args = strings(&[]);
    assert!(options_accepted(&args));
    let o = parse_options(&args);
    assert_eq!(o.seed, 0);
    assert_eq!(o.count, None);
    assert_eq!(o.maxlen, None);
    assert_eq!(o.mutator_choice, "all");
    assert_eq!(o.target_process, "");
    assert!(o.target_args.is_empty());
}

#[test]
fn every_flag_is_read() {
    let args = strings(&[
        "--seed", "5", "--count", "+3", "--maxlen", "3000000000", "--mutator", "chaos", "--", "prog", "x",
        "y",
    ]);
    assert!(options_accepted(&args));
    let o = parse_options(&args);
    assert_eq!(o.seed, 5);
    assert_eq!(o.count, Some(3));
    assert_eq!(o.maxlen, Some(3000000000));
    assert_eq!(o.mutator_choice, "chaos");
    assert_eq!(o.target_process, "prog");
    assert_eq!(o.target_args, strings(&["x", "y"]));
}

#[test]
fn later_flags_override_and_flags_after_dashes_count() {
    let args = strings(&["--seed", "1", "--", "prog", "--seed", "007"]);
    let o = parse_options(&args);
    assert_eq!(o.seed, 7);
    assert_eq!(o.target_process, "prog");
    assert_eq!(o.target_args, strings(&["--seed", "007"]));
}

#[test]
fn bad_option_lists_are_refused() {
    assert!(!options_accepted(&strings(&["--seed"])));
    assert!(!options_accepted(&strings(&["--seed", "abc"])));
    assert!(!options_accepted(&strings(&["--count", "-1"])));
    assert!(!options_accepted(&strings(&["--count", "+"])));
    assert!(!options_accepted(&strings(&["--maxlen", "-5"])));
    assert!(!options_accepted(&strings(&["--maxlen"])));
    assert!(!options_accepted(&strings(&["--mutator"])));
    assert!(!options_accepted(&strings(&["--"])));
    assert!(!options_accepted(&strings(&["--seed", "99999999999999999999999"])));
    assert!(!options_accepted(&strings(&["--mutator", "--seed"])));
    let args = strings(&["--mutator", "--seed", "3"]);
    assert!(options_accepted(&args));
    let o = parse_options(&args);
    assert_eq!(o.mutator_choice, "--seed");
    assert_eq!(o.seed, 3);
}

#[test]
fn rounds_take_the_smaller_count() {
    assert_eq!(rounds(None, 10), 10);
    assert_eq!(rounds(Some(3), 10), 3);
    assert_eq!(rounds(Some(30), 10), 10);
}
