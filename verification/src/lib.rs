//! Byte-level input mutators for fuzzing: each mutator turns one input string into a
//! stream of mutated byte buffers, driven by a seed that advances with every round.

pub mod bytes;
pub mod mutators;
pub mod options;
pub mod walk;

use vstd::prelude::*;
use vstd::utf8::is_ascii_chars;
use vstd::utf8::is_ascii_chars_encode_utf8;

use crate::bytes::bytes_equal;
use crate::bytes::contains_bytes;
use crate::bytes::find_bytes;
use crate::bytes::string_bytes;
use crate::bytes::utf8_bytes;
use crate::bytes::zeros;
use crate::mutators::ChaosFlipper;
use crate::mutators::Inversion;
use crate::mutators::LenCorruption;
use crate::mutators::Mutilate;
use crate::mutators::Truncator;
use crate::mutators::negated_at;
use crate::mutators::truncator_limit;
use crate::mutators::SPECIAL_NUMS_LEN;

verus! {

/// The kinds of mutator that a run can be made of, in the order in which they run.
pub enum MutatorKind {
    Chaos,
    Truncate,
    LenCorrupt,
    Invert,
}

/// One mutator of a run.
pub enum Mutilator {
    Chaos(ChaosFlipper),
    Truncate(Truncator),
    LenCorrupt(LenCorruption),
    Invert(Inversion),
}

impl Mutilator {
    /// The kind of this mutator.
    pub open spec fn kind(self) -> MutatorKind {
        match self {
            Mutilator::Chaos(_) => MutatorKind::Chaos,
            Mutilator::Truncate(_) => MutatorKind::Truncate,
            Mutilator::LenCorrupt(_) => MutatorKind::LenCorrupt,
            Mutilator::Invert(_) => MutatorKind::Invert,
        }
    }

    /// What one round makes of this mutator: the same kind, moved on by its own round.
    pub open spec fn mutated_to(self, next: Self) -> bool {
        match (self, next) {
            (Mutilator::Chaos(a), Mutilator::Chaos(b)) => a.mutated_to(b),
            (Mutilator::Truncate(a), Mutilator::Truncate(b)) => a.mutated_to(b),
            (Mutilator::LenCorrupt(a), Mutilator::LenCorrupt(b)) => a.mutated_to(b),
            (Mutilator::Invert(a), Mutilator::Invert(b)) => a.mutated_to(b),
            _ => false,
        }
    }

    /// What setting the output up makes of this mutator.
    pub open spec fn initialized_to(self, next: Self) -> bool {
        match (self, next) {
            (Mutilator::Chaos(a), Mutilator::Chaos(b)) => a.initialized_to(b),
            (Mutilator::Truncate(a), Mutilator::Truncate(b)) => a.initialized_to(b),
            (Mutilator::LenCorrupt(a), Mutilator::LenCorrupt(b)) => a.initialized_to(b),
            (Mutilator::Invert(a), Mutilator::Invert(b)) => a.initialized_to(b),
            _ => false,
        }
    }
}

impl Mutilate for Mutilator {
    open spec fn mutate_ready(&self) -> bool {
        match self {
            Mutilator::Chaos(m) => m.mutate_ready(),
            Mutilator::Truncate(m) => m.mutate_ready(),
            Mutilator::LenCorrupt(m) => m.mutate_ready(),
            Mutilator::Invert(m) => m.mutate_ready(),
        }
    }

    open spec fn init_ready(&self) -> bool {
        match self {
            Mutilator::Chaos(m) => m.init_ready(),
            Mutilator::Truncate(m) => m.init_ready(),
            Mutilator::LenCorrupt(m) => m.init_ready(),
            Mutilator::Invert(m) => m.init_ready(),
        }
    }

    open spec fn output_view(&self) -> Seq<u8> {
        match self {
            Mutilator::Chaos(m) => m.output_view(),
            Mutilator::Truncate(m) => m.output_view(),
            Mutilator::LenCorrupt(m) => m.output_view(),
            Mutilator::Invert(m) => m.output_view(),
        }
    }

    open spec fn count_limit(&self) -> usize {
        match self {
            Mutilator::Chaos(m) => m.count_limit(),
            Mutilator::Truncate(m) => m.count_limit(),
            Mutilator::LenCorrupt(m) => m.count_limit(),
            Mutilator::Invert(m) => m.count_limit(),
        }
    }

    fn mutate(&mut self) -> (out: Option<Vec<u8>>)
        ensures
            old(self).mutated_to(*final(self)),
    {
        match self {
            Mutilator::Chaos(m) => m.mutate(),
            Mutilator::Truncate(m) => m.mutate(),
            Mutilator::LenCorrupt(m) => m.mutate(),
            Mutilator::Invert(m) => m.mutate(),
        }
    }

    fn init_output(&mut self)
        ensures
            old(self).initialized_to(*final(self)),
    {
        match self {
            Mutilator::Chaos(m) => m.init_output(),
            Mutilator::Truncate(m) => m.init_output(),
            Mutilator::LenCorrupt(m) => m.init_output(),
            Mutilator::Invert(m) => m.init_output(),
        }
    }

    fn max_count(&mut self) -> (n: usize) {
        match self {
            Mutilator::Chaos(m) => m.max_count(),
            Mutilator::Truncate(m) => m.max_count(),
            Mutilator::LenCorrupt(m) => m.max_count(),
            Mutilator::Invert(m) => m.max_count(),
        }
    }

    fn can_mutate(&self) -> (b: bool) {
        match self {
            Mutilator::Chaos(m) => m.can_mutate(),
            Mutilator::Truncate(m) => m.can_mutate(),
            Mutilator::LenCorrupt(m) => m.can_mutate(),
            Mutilator::Invert(m) => m.can_mutate(),
        }
    }

    fn can_init(&self) -> (b: bool) {
        match self {
            Mutilator::Chaos(m) => m.can_init(),
            Mutilator::Truncate(m) => m.can_init(),
            Mutilator::LenCorrupt(m) => m.can_init(),
            Mutilator::Invert(m) => m.can_init(),
        }
    }
}

/// Whether a mutator choice names the mutator called `name`: the name occurs in it.
pub open spec fn names(choice: Seq<u8>, name: Seq<char>) -> bool {
    contains_bytes(choice, utf8_bytes(name))
}

/// Whether a mutator choice selects one of the documented mutators (`chaos`, `truncator`,
/// `lencorrupt`): the choice names it, or the choice is `all`.
pub open spec fn chooses(choice: Seq<u8>, name: Seq<char>) -> bool {
    names(choice, name) || choice == utf8_bytes("all"@)
}

/// The kinds of mutator that a choice selects, in the order in which they run. `all` stands
/// for the documented mutators; the inversion runs only where the choice names it.
pub open spec fn chosen_kinds(choice: Seq<u8>) -> Seq<MutatorKind> {
    (if chooses(choice, "chaos"@) {
        seq![MutatorKind::Chaos]
    } else {
        seq![]
    }) + (if chooses(choice, "truncator"@) {
        seq![MutatorKind::Truncate]
    } else {
        seq![]
    }) + (if chooses(choice, "lencorrupt"@) {
        seq![MutatorKind::LenCorrupt]
    } else {
        seq![]
    }) + (if names(choice, "inversion"@) {
        seq![MutatorKind::Invert]
    } else {
        seq![]
    })
}

/// A mutator freshly set up for input `inp` and seed `seed`: it holds a copy of the input and
/// the seed, and its output and round count are those that `init_output` gives.
pub open spec fn fresh_for(m: Mutilator, inp: Seq<char>, seed: usize) -> bool {
    let bytes = utf8_bytes(inp);
    match m {
        Mutilator::Chaos(c) => {
            &&& c.input@ == inp
            &&& c.seed == seed
            &&& c.output@ == bytes
            &&& c.tmp_vec@ == Seq::new(bytes.len(), |i: int| 0u8)
            &&& c.max_count == 0x1000
        },
        Mutilator::Truncate(t) => {
            &&& t.input@ == inp
            &&& t.seed == seed
            &&& t.output@ == bytes
            &&& t.max_count == truncator_limit(bytes.len())
        },
        Mutilator::LenCorrupt(l) => {
            &&& l.input@ == inp
            &&& l.seed == seed
            &&& l.output@ == bytes
            &&& l.max_count == (if SPECIAL_NUMS_LEN * bytes.len() < 0xFFFFFFFF {
                SPECIAL_NUMS_LEN * bytes.len()
            } else {
                0xFFFFFFFF
            })
        },
        Mutilator::Invert(v) => {
            &&& v.input@ == inp
            &&& v.seed == seed
            &&& v.output@ == negated_at(bytes, seed as int)
            &&& v.max_count == bytes.len() - 1
        },
    }
}

/// The inputs on which the chosen mutators can be set up: a truncator needs an input shorter
/// than `usize::MAX` bytes, a length corrupter one whose round count `22 * len` fits in a
/// `usize`, an inversion a non-zero byte at the seed.
pub open spec fn run_can_be_built(inp: Seq<char>, choice: Seq<u8>, seed: usize) -> bool {
    let bytes = utf8_bytes(inp);
    &&& chooses(choice, "truncator"@) ==> bytes.len() < usize::MAX
    &&& chooses(choice, "lencorrupt"@) ==> SPECIAL_NUMS_LEN * bytes.len() <= usize::MAX
    &&& names(choice, "inversion"@) ==> seed < bytes.len() && bytes[seed as int] != 0
}

/// The choice `all` selects the documented mutators, in the order chaos flipper, truncator,
/// length corrupter; it does not select the inversion.
pub proof fn lemma_all_selects_documented_mutators()
    ensures
        chosen_kinds(utf8_bytes("all"@)) == seq![
            MutatorKind::Chaos,
            MutatorKind::Truncate,
            MutatorKind::LenCorrupt,
        ],
{
    reveal_strlit("all");
    reveal_strlit("inversion");
    assert(is_ascii_chars("all"@));
    assert(is_ascii_chars("inversion"@));
    is_ascii_chars_encode_utf8("all"@);
    is_ascii_chars_encode_utf8("inversion"@);
    assert(!names(utf8_bytes("all"@), "inversion"@));
    assert(chosen_kinds(utf8_bytes("all"@)) =~= seq![
        MutatorKind::Chaos,
        MutatorKind::Truncate,
        MutatorKind::LenCorrupt,
    ]);
}

/// Whether the choice names the mutator called `name`.
pub fn choice_names(choice: &[u8], name: &str) -> (b: bool)
    ensures
        b == names(choice@, name@),
{
    find_bytes(choice, name.as_bytes())
}

/// Whether the choice selects the mutator called `name`.
pub fn choice_selects(choice: &[u8], name: &str) -> (b: bool)
    ensures
        b == chooses(choice@, name@),
{
    find_bytes(choice, name.as_bytes()) || bytes_equal(choice, "all".as_bytes())
}

/// Whether `gen_mutilator_list` can set up the mutators that `mutator_choice` selects.
pub fn run_buildable(inp: &String, mutator_choice: &String, seed: usize) -> (b: bool)
    ensures
        b == run_can_be_built(inp@, utf8_bytes(mutator_choice@), seed),
{
    let choice = mutator_choice.as_str().as_bytes();
    let bytes = inp.as_str().as_bytes();
    let len = bytes.len();
    let trunc_ok = !choice_selects(choice, "truncator") || len < usize::MAX;
    let lencor_ok = !choice_selects(choice, "lencorrupt") || len <= usize::MAX / SPECIAL_NUMS_LEN;
    let inv_ok = !choice_names(choice, "inversion") || (seed < len && bytes[seed] != 0);
    trunc_ok && lencor_ok && inv_ok
}

/// Sets up the mutators that `mutator_choice` selects, each with its own copy of `inp`, at
/// seed `seed`, in the order chaos flipper, truncator, length corrupter, inversion. `all`
/// selects the first three; the inversion runs only where the choice names it.
pub fn gen_mutilator_list(inp: &String, mutator_choice: String, seed: usize) -> (list: Vec<
    Mutilator,
>)
    requires
        run_can_be_built(inp@, utf8_bytes(mutator_choice@), seed),
    ensures
        list@.map_values(|m: Mutilator| m.kind()) == chosen_kinds(utf8_bytes(mutator_choice@)),
        forall|i: int| 0 <= i < list@.len() ==> fresh_for(#[trigger] list@[i], inp@, seed),
{
    let choice = mutator_choice.as_str().as_bytes();
    let strlen = inp.as_str().as_bytes().len();
    let mut mutilator_list: Vec<Mutilator> = Vec::new();
    let ghost bytes = utf8_bytes(inp@);
    let ghost kinds = chosen_kinds(choice@);

    if choice_selects(choice, "chaos") {
        let mut chaos_flipper = ChaosFlipper {
            input: inp.clone(),
            seed: seed,
            output: Vec::new(),
            tmp_vec: zeros(strlen),
            max_count: 0x0,
        };
        chaos_flipper.init_output();
        mutilator_list.push(Mutilator::Chaos(chaos_flipper));
    }
    let ghost after_chaos = mutilator_list@;

    if choice_selects(choice, "truncator") {
        let mut truncator = Truncator {
            input: inp.clone(),
            seed: seed,
            output: Vec::new(),
            max_count: 0x0,
        };
        truncator.init_output();
        mutilator_list.push(Mutilator::Truncate(truncator));
    }
    let ghost after_trunc = mutilator_list@;

    if choice_selects(choice, "lencorrupt") {
        let mut len_corruption = LenCorruption {
            input: inp.clone(),
            seed: seed,
            output: Vec::new(),
            max_count: 0x0,
        };
        len_corruption.init_output();
        mutilator_list.push(Mutilator::LenCorrupt(len_corruption));
    }
    let ghost after_lencor = mutilator_list@;

    if choice_names(choice, "inversion") {
        let mut inversion = Inversion {
            input: inp.clone(),
            seed: seed,
            output: Vec::new(),
            max_count: 0x0,
        };
        inversion.init_output();
        mutilator_list.push(Mutilator::Invert(inversion));
    }
    assert(mutilator_list@.map_values(|m: Mutilator| m.kind()) =~= kinds);
    mutilator_list
}

} // verus!
