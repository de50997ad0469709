//! The command line options that follow the input and output names: `--seed`, `--count`,
//! `--maxlen`, `--mutator` and `--` with the program to run and its arguments.

use vstd::prelude::*;
use vstd::utf8::encode_utf8_decode_utf8;

use crate::bytes::bytes_equal;

verus! {

/// Whether `c` is an ASCII decimal digit.
pub open spec fn is_digit(c: char) -> bool {
    '0' <= c && c <= '9'
}

/// Whether every character of `s` is a decimal digit.
pub open spec fn all_digits(s: Seq<char>) -> bool {
    forall|i: int| 0 <= i < s.len() ==> is_digit(#[trigger] s[i])
}

/// The value of the decimal digits `s`, most significant first.
pub open spec fn digits_value(s: Seq<char>) -> int
    decreases s.len(),
{
    if s.len() == 0 {
        0
    } else {
        10 * digits_value(s.drop_last()) + (s.last() as int - '0' as int)
    }
}

/// What `str::parse::<usize>` gives for `s`: an optional `+` followed by one or more decimal
/// digits whose value fits in a `usize`; anything else is an error.
pub open spec fn usize_numeral(s: Seq<char>) -> Option<usize> {
    let d = if s.len() > 0 && s[0] == '+' {
        s.drop_first()
    } else {
        s
    };
    if d.len() > 0 && all_digits(d) && digits_value(d) <= usize::MAX {
        Some(digits_value(d) as usize)
    } else {
        None
    }
}

/// `str::parse::<usize>`. Its documentation: the string must be an optional `+` sign followed
/// by decimal digits only, leading or trailing other characters are an error, and so is a
/// value too large for the type. The contract states exactly that.
#[verifier::external_body]
fn parse_usize(s: &str) -> (r: Option<usize>)
    ensures
        r == usize_numeral(s@),
{
    s.parse::<usize>().ok()
}

/// The text of each argument.
pub open spec fn arg_views(args: Seq<String>) -> Seq<Seq<char>> {
    args.map_values(|s: String| s@)
}

/// The position of the last argument before position `n` that is `flag`, or `-1`.
pub open spec fn last_flag(args: Seq<Seq<char>>, flag: Seq<char>, n: int) -> int
    decreases n,
{
    if n <= 0 {
        -1
    } else if args[n - 1] == flag {
        n - 1
    } else {
        last_flag(args, flag, n - 1)
    }
}

/// The argument lists that the options parser accepts: every flag has a value after it, and
/// every value of `--seed`, `--count` and `--maxlen` is a number of its type. Every occurrence
/// of a flag is read, also one that a later occurrence overrides.
pub open spec fn options_parse(args: Seq<Seq<char>>) -> bool {
    forall|i: int|
        0 <= i < args.len() ==> {
            &&& #[trigger] args[i] == "--seed"@ ==> i + 1 < args.len() && usize_numeral(
                args[i + 1],
            ) is Some
            &&& args[i] == "--count"@ ==> i + 1 < args.len() && usize_numeral(args[i + 1]) is Some
            &&& args[i] == "--maxlen"@ ==> i + 1 < args.len() && usize_numeral(args[i + 1]) is Some
            &&& args[i] == "--mutator"@ ==> i + 1 < args.len()
            &&& args[i] == "--"@ ==> i + 1 < args.len()
        }
}

/// The options of a run.
pub struct Options {
    /// The seed that every mutator starts from.
    pub seed: usize,
    /// At most this many rounds per mutator; none: every round the mutator offers.
    pub count: Option<usize>,
    /// The largest output size asked for; none where not given. It is read and checked, but
    /// no mutator bounds its output by it.
    pub maxlen: Option<usize>,
    /// The program to feed the outputs to; empty for none.
    pub target_process: String,
    /// The arguments of that program.
    pub target_args: Vec<String>,
    /// Which mutators to run.
    pub mutator_choice: String,
}

/// The value that an accepted argument list gives to the option `flag`: the argument after
/// the last occurrence of the flag.
pub open spec fn flag_value(args: Seq<Seq<char>>, flag: Seq<char>) -> Seq<char> {
    args[last_flag(args, flag, args.len() as int) + 1]
}

/// Whether `flag` occurs in the arguments.
pub open spec fn has_flag(args: Seq<Seq<char>>, flag: Seq<char>) -> bool {
    last_flag(args, flag, args.len() as int) >= 0
}

/// Whether `arg` is the text `flag`.
fn arg_is(arg: &String, flag: &str) -> (b: bool)
    ensures
        b == (arg@ == flag@),
{
    let r = bytes_equal(arg.as_str().as_bytes(), flag.as_bytes());
    proof {
        encode_utf8_decode_utf8(arg@);
        encode_utf8_decode_utf8(flag@);
    }
    r
}

/// Copies of `args[from..]`.
fn clone_tail(args: &Vec<String>, from: usize) -> (tail: Vec<String>)
    requires
        from <= args@.len(),
    ensures
        arg_views(tail@) == arg_views(args@).subrange(from as int, args@.len() as int),
{
    let mut tail: Vec<String> = Vec::new();
    let mut j = from;
    while j < args.len()
        invariant
            from <= j <= args@.len(),
            arg_views(tail@) == arg_views(args@).subrange(from as int, j as int),
        decreases args@.len() - j,
    {
        let s = args[j].clone();
        assert(s@ == args@[j as int]@);
        let ghost before = tail@;
        tail.push(s);
        assert(tail@ == before.push(s));
        j = j + 1;
        assert(arg_views(before).len() == before.len());
        assert(before.len() == j - 1 - from);
        assert(tail@.len() == j - from);
        assert forall|k: int| 0 <= k < tail@.len() implies #[trigger] arg_views(tail@)[k]
            == arg_views(args@).subrange(from as int, j as int)[k] by {
            if k < before.len() {
                assert(arg_views(before)[k] == arg_views(args@).subrange(from as int, j - 1)[k]);
            }
        }
        assert(arg_views(tail@) =~= arg_views(args@).subrange(from as int, j as int));
    }
    tail
}

/// Whether `parse_options` accepts the argument list.
pub fn options_accepted(extra_args: &Vec<String>) -> (ok: bool)
    ensures
        ok == options_parse(arg_views(extra_args@)),
{
    let ghost args = arg_views(extra_args@);
    let n = extra_args.len();
    let mut a: usize = 0;
    while a < n
        invariant
            n == extra_args@.len(),
            args == arg_views(extra_args@),
            a <= n,
            forall|i: int|
                0 <= i < a ==> {
                    &&& #[trigger] args[i] == "--seed"@ ==> i + 1 < args.len() && usize_numeral(
                        args[i + 1],
                    ) is Some
                    &&& args[i] == "--count"@ ==> i + 1 < args.len() && usize_numeral(
                        args[i + 1],
                    ) is Some
                    &&& args[i] == "--maxlen"@ ==> i + 1 < args.len() && usize_numeral(
                        args[i + 1],
                    ) is Some
                    &&& args[i] == "--mutator"@ ==> i + 1 < args.len()
                    &&& args[i] == "--"@ ==> i + 1 < args.len()
                },
        decreases n - a,
    {
        let arg = &extra_args[a];
        let has_next = a + 1 < n;
        if arg_is(arg, "--seed") || arg_is(arg, "--count") || arg_is(arg, "--maxlen") {
            if !has_next || parse_usize(extra_args[a + 1].as_str()).is_none() {
                assert(args[a as int] == arg@);
                return false;
            }
        }
        if arg_is(arg, "--mutator") || arg_is(arg, "--") {
            if !has_next {
                assert(args[a as int] == arg@);
                return false;
            }
        }
        assert(args[a as int] == arg@);
        a = a + 1;
    }
    true
}

/// Reads the options from the arguments that follow the input and output names. Every
/// argument is looked at in turn, also those after `--`; a later flag overrides an earlier one.
pub fn parse_options(extra_args: &Vec<String>) -> (opts: Options)
    requires
        options_parse(arg_views(extra_args@)),
    ensures
        ({
            let args = arg_views(extra_args@);
            &&& opts.seed == (if has_flag(args, "--seed"@) {
                usize_numeral(flag_value(args, "--seed"@))->Some_0
            } else {
                0
            })
            &&& opts.count == (if has_flag(args, "--count"@) {
                usize_numeral(flag_value(args, "--count"@))
            } else {
                None
            })
            &&& opts.maxlen == (if has_flag(args, "--maxlen"@) {
                usize_numeral(flag_value(args, "--maxlen"@))
            } else {
                None
            })
            &&& opts.mutator_choice@ == (if has_flag(args, "--mutator"@) {
                flag_value(args, "--mutator"@)
            } else {
                "all"@
            })
            &&& opts.target_process@ == (if has_flag(args, "--"@) {
                flag_value(args, "--"@)
            } else {
                Seq::empty()
            })
            &&& arg_views(opts.target_args@) == (if has_flag(args, "--"@) {
                args.subrange(last_flag(args, "--"@, args.len() as int) + 2, args.len() as int)
            } else {
                Seq::empty()
            })
        }),
{
    let ghost args = arg_views(extra_args@);
    let n = extra_args.len();
    let mut seed: usize = 0x0;
    let mut count: Option<usize> = None;
    let mut maxlen: Option<usize> = None;
    let mut target_process: String = String::new();
    let mut target_args: Vec<String> = Vec::new();
    let mut mutator_choice: String = String::from_str("all");
    let mut a: usize = 0;
    while a < n
        invariant
            n == extra_args@.len(),
            args == arg_views(extra_args@),
            options_parse(args),
            a <= n,
            seed == (if last_flag(args, "--seed"@, a as int) >= 0 {
                usize_numeral(args[last_flag(args, "--seed"@, a as int) + 1])->Some_0
            } else {
                0
            }),
            count == (if last_flag(args, "--count"@, a as int) >= 0 {
                usize_numeral(args[last_flag(args, "--count"@, a as int) + 1])
            } else {
                None
            }),
            maxlen == (if last_flag(args, "--maxlen"@, a as int) >= 0 {
                usize_numeral(args[last_flag(args, "--maxlen"@, a as int) + 1])
            } else {
                None
            }),
            mutator_choice@ == (if last_flag(args, "--mutator"@, a as int) >= 0 {
                args[last_flag(args, "--mutator"@, a as int) + 1]
            } else {
                "all"@
            }),
            target_process@ == (if last_flag(args, "--"@, a as int) >= 0 {
                args[last_flag(args, "--"@, a as int) + 1]
            } else {
                Seq::empty()
            }),
            arg_views(target_args@) == (if last_flag(args, "--"@, a as int) >= 0 {
                args.subrange(last_flag(args, "--"@, a as int) + 2, args.len() as int)
            } else {
                Seq::empty()
            }),
        decreases n - a,
    {
        let arg = &extra_args[a];
        assert(args[a as int] == arg@);
        if arg_is(arg, "--seed") {
            seed = parse_usize(extra_args[a + 1].as_str()).unwrap();
        }
        if arg_is(arg, "--count") {
            count = parse_usize(extra_args[a + 1].as_str());
        }
        if arg_is(arg, "--maxlen") {
            maxlen = parse_usize(extra_args[a + 1].as_str());
        }
        if arg_is(arg, "--mutator") {
            mutator_choice = extra_args[a + 1].clone();
        }
        if arg_is(arg, "--") {
            target_process = extra_args[a + 1].clone();
            target_args = clone_tail(extra_args, a + 2);
        }
        a = a + 1;
    }
    assert(arg_views(target_args@) =~= (if last_flag(args, "--"@, n as int) >= 0 {
        args.subrange(last_flag(args, "--"@, n as int) + 2, args.len() as int)
    } else {
        Seq::empty()
    }));
    Options { seed, count, maxlen, target_process, target_args, mutator_choice }
}

/// How many rounds to take from a mutator that offers `max_count`: all of them, or `count`
/// where that is fewer.
pub fn rounds(count: Option<usize>, max_count: usize) -> (n: usize)
    ensures
        n == (match count {
            Some(c) => if c < max_count {
                c
            } else {
                max_count
            },
            None => max_count,
        }),
{
    match count {
        Some(c) => if c < max_count {
            c
        } else {
            max_count
        },
        None => max_count,
    }
}

} // verus!
