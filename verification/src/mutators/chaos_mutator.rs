//! An earlier family of mutators that switch themselves off when they run out of work,
//! instead of announcing a round count.

use vstd::prelude::*;

use crate::bytes::char_boundary;
use crate::bytes::is_boundary;
use crate::bytes::push_range;
use crate::bytes::string_bytes;
use crate::bytes::utf8_bytes;
use crate::walk::chaos_round;
use crate::walk::lemma_wrapping_seed_below_max;
use crate::walk::walk_flips;
use crate::walk::walk_terminates;
use crate::walk::walk_wraps_above;
use crate::walk::xor_prefix;

verus! {

/// A mutator that reports whether it still has work: after `init_output`, each call of
/// `mutate` produces the next mutated buffer.
pub trait Mutilate: Sized {
    /// The states from which a round runs to its end.
    spec fn mutate_ready(&self) -> bool;

    /// The states from which the output can be initialised.
    spec fn init_ready(&self) -> bool;

    /// The buffer that the mutator currently hands out.
    spec fn output_view(&self) -> Seq<u8>;

    /// Whether the mutator still has work.
    spec fn enabled_view(&self) -> bool;

    /// Runs one round and hands out a copy of the resulting buffer.
    fn mutate(&mut self) -> (out: Option<Vec<u8>>)
        requires
            old(self).mutate_ready(),
        ensures
            out matches Some(v) && v@ == final(self).output_view(),
    ;

    /// Sets the output up from the input.
    fn init_output(&mut self)
        requires
            old(self).init_ready(),
    ;

    /// Whether the mutator still has work.
    fn is_enabled(&mut self) -> (b: bool)
        ensures
            b == old(self).enabled_view(),
            *final(self) == *old(self),
    ;

    /// Whether `mutate` may run from this state.
    fn can_mutate(&self) -> (b: bool)
        ensures
            b == self.mutate_ready(),
    ;

    /// Whether `init_output` may run from this state.
    fn can_init(&self) -> (b: bool)
        ensures
            b == self.init_ready(),
    ;
}

//////////////////////////////////////////////////////////////////////////////////////////////

/// Flips bits of a scratch buffer along a walk through the seed space and xors the scratch
/// buffer into the output; both buffers keep their changes from round to round.
#[derive(Debug)]
pub struct ChaosFlipper {
    pub seed: usize,
    pub input: String,
    pub output: Vec<u8>,
    pub tmp_vec: Vec<u8>,
    pub enabled: bool,
}

impl ChaosFlipper {
    /// What one round makes of this state.
    pub open spec fn mutated_to(self, next: Self) -> bool {
        &&& next.tmp_vec@ == walk_flips(
            self.tmp_vec@,
            self.seed as int,
            self.output@.len() as int,
            self.output@.len() as int,
        )
        &&& next.output@ == xor_prefix(self.output@, next.tmp_vec@)
        &&& next.seed == self.seed + 1
        &&& next.input == self.input
        &&& next.enabled == self.enabled
    }

    /// What setting the output up makes of this state.
    pub open spec fn initialized_to(self, next: Self) -> bool {
        &&& next.output@ == utf8_bytes(self.input@)
        &&& next.seed == self.seed
        &&& next.input == self.input
        &&& next.tmp_vec == self.tmp_vec
        &&& next.enabled == self.enabled
    }

    /// Sets the seed that the next round starts from; nothing else changes.
    pub fn set_seed(&mut self, seed: usize)
        ensures
            *final(self) == (ChaosFlipper { seed, ..*old(self) }),
    {
        self.seed = seed;
    }
}

impl Mutilate for ChaosFlipper {
    open spec fn mutate_ready(&self) -> bool {
        &&& self.output@.len() > 0
        &&& self.tmp_vec@.len() >= self.output@.len()
        &&& walk_wraps_above(self.seed as int, self.output@.len() as int)
    }

    open spec fn init_ready(&self) -> bool {
        true
    }

    open spec fn output_view(&self) -> Seq<u8> {
        self.output@
    }

    open spec fn enabled_view(&self) -> bool {
        self.enabled
    }

    fn mutate(&mut self) -> (out: Option<Vec<u8>>)
        ensures
            old(self).mutated_to(*final(self)),
    {
        proof {
            lemma_wrapping_seed_below_max(self.seed as int, self.output@.len() as int);
        }
        chaos_round(self.seed, &mut self.output, &mut self.tmp_vec);
        self.seed = self.seed + 1;
        Some(self.output.clone())
    }

    fn init_output(&mut self)
        ensures
            old(self).initialized_to(*final(self)),
    {
        self.output = string_bytes(&self.input);
    }

    fn is_enabled(&mut self) -> (b: bool) {
        self.enabled
    }

    fn can_mutate(&self) -> (b: bool) {
        let len = self.output.len();
        len > 0 && self.tmp_vec.len() >= len && walk_terminates(self.seed, len)
    }

    fn can_init(&self) -> (b: bool) {
        true
    }
}

//////////////////////////////////////////////////////////////////////////////////////////////

/// The walk that places the truncation window for a seed: while the remaining seed `t` is at
/// least `len`, it drops the current end offset `e` from `t` and moves the end in by one.
/// Returns the remaining seed and end offset where the walk stops.
pub open spec fn trim_walk(t: int, e: int, len: int) -> (int, int)
    decreases e,
{
    if t >= len && e > 0 {
        trim_walk(t - e, e - 1, len)
    } else {
        (t, e)
    }
}

/// The walk stays between zero and where it started.
pub proof fn lemma_trim_walk_bounds(t: int, e: int, len: int)
    requires
        0 <= e <= len,
        t >= 0,
    ensures
        trim_walk(t, e, len).0 >= 0,
        0 <= trim_walk(t, e, len).1 <= e,
        trim_walk(t, e, len).0 <= t,
    decreases e,
{
    if t >= len && e > 0 {
        lemma_trim_walk_bounds(t - e, e - 1, len);
    }
}

/// Cuts windows out of the input, switching itself off once the seed has no window left.
pub struct Truncator {
    pub seed: usize,
    pub input: String,
    pub output: Vec<u8>,
    pub enabled: bool,
}

impl Truncator {
    /// What one round makes of this state.
    pub open spec fn mutated_to(self, next: Self) -> bool {
        let bytes = utf8_bytes(self.input@);
        let len = bytes.len() as int;
        let w = trim_walk(self.seed as int, len, len);
        &&& next.input == self.input
        &&& if w.0 > w.1 {
            &&& next.enabled == false
            &&& next.output == self.output
            &&& next.seed == self.seed
        } else {
            &&& next.output@ == bytes.subrange(len - w.1, len - w.0)
            &&& next.enabled == self.enabled
            &&& next.seed == self.seed + 1
        }
    }

    /// What setting the output up makes of this state.
    pub open spec fn initialized_to(self, next: Self) -> bool {
        &&& next.output@ == utf8_bytes(self.input@)
        &&& next.seed == self.seed
        &&& next.input == self.input
        &&& next.enabled == self.enabled
    }

    /// Sets the seed that the next round starts from; nothing else changes.
    pub fn set_seed(&mut self, seed: usize)
        ensures
            *final(self) == (Truncator { seed, ..*old(self) }),
    {
        self.seed = seed;
    }
}

impl Mutilate for Truncator {
    open spec fn mutate_ready(&self) -> bool {
        let len = utf8_bytes(self.input@).len() as int;
        let w = trim_walk(self.seed as int, len, len);
        &&& w.0 < len
        &&& w.0 <= w.1 ==> {
            &&& self.seed < usize::MAX
            &&& char_boundary(self.input@, len - w.1)
            &&& char_boundary(self.input@, len - w.0)
        }
    }

    open spec fn init_ready(&self) -> bool {
        true
    }

    open spec fn output_view(&self) -> Seq<u8> {
        self.output@
    }

    open spec fn enabled_view(&self) -> bool {
        self.enabled
    }

    fn mutate(&mut self) -> (out: Option<Vec<u8>>)
        ensures
            old(self).mutated_to(*final(self)),
    {
        let bytes = self.input.as_str().as_bytes();
        let strlen = bytes.len();
        let mut tmp_seed = self.seed;
        let mut end_index = strlen;
        proof {
            lemma_trim_walk_bounds(tmp_seed as int, strlen as int, strlen as int);
        }
        while tmp_seed >= strlen
            invariant
                strlen == bytes@.len(),
                0 <= end_index <= strlen,
                tmp_seed <= old(self).seed,
                trim_walk(tmp_seed as int, end_index as int, strlen as int) == trim_walk(
                    old(self).seed as int,
                    strlen as int,
                    strlen as int,
                ),
                trim_walk(old(self).seed as int, strlen as int, strlen as int).0 < strlen,
            decreases end_index,
        {
            tmp_seed = tmp_seed - end_index;
            end_index = end_index - 1;
        }
        if tmp_seed > self.seed || tmp_seed > end_index {
            self.enabled = false;
            return Some(self.output.clone());
        }
        self.output.clear();
        push_range(&mut self.output, bytes, strlen - end_index, strlen - tmp_seed);
        self.seed = self.seed + 1;
        Some(self.output.clone())
    }

    fn init_output(&mut self)
        ensures
            old(self).initialized_to(*final(self)),
    {
        self.output = string_bytes(&self.input);
    }

    fn is_enabled(&mut self) -> (b: bool) {
        self.enabled
    }

    fn can_mutate(&self) -> (b: bool) {
        let strlen = self.input.as_str().as_bytes().len();
        let mut tmp_seed = self.seed;
        let mut end_index = strlen;
        proof {
            lemma_trim_walk_bounds(tmp_seed as int, strlen as int, strlen as int);
        }
        while tmp_seed >= strlen && end_index > 0
            invariant
                0 <= end_index <= strlen,
                tmp_seed <= self.seed,
                trim_walk(tmp_seed as int, end_index as int, strlen as int) == trim_walk(
                    self.seed as int,
                    strlen as int,
                    strlen as int,
                ),
            decreases end_index,
        {
            tmp_seed = tmp_seed - end_index;
            end_index = end_index - 1;
        }
        if tmp_seed >= strlen {
            return false;
        }
        if tmp_seed > end_index {
            return true;
        }
        self.seed < usize::MAX && is_boundary(&self.input, strlen - end_index) && is_boundary(
            &self.input,
            strlen - tmp_seed,
        )
    }

    fn can_init(&self) -> (b: bool) {
        true
    }
}

/// Once a round finds no window left for the seed and switches the truncator off, every
/// further round hands the same buffer out again and changes nothing.
pub proof fn lemma_switched_off_truncator_is_stable(a: Truncator, b: Truncator, c: Truncator)
    requires
        a.mutated_to(b),
        !b.enabled,
        b.mutated_to(c),
        ({
            let len = utf8_bytes(a.input@).len() as int;
            let w = trim_walk(a.seed as int, len, len);
            w.0 > w.1
        }),
    ensures
        c == b,
{
}

/// The first `len` seeds need no walk: seed `s` keeps the input with its last `s` bytes cut.
pub proof fn lemma_small_seed_trims_the_end(a: Truncator, b: Truncator)
    requires
        a.mutated_to(b),
        (a.seed as int) < utf8_bytes(a.input@).len(),
    ensures
        b.output@ == utf8_bytes(a.input@).subrange(
            0,
            utf8_bytes(a.input@).len() - a.seed as int,
        ),
        b.seed == a.seed + 1,
{
}

//////////////////////////////////////////////////////////////////////////////////////////////

/// Hands the input out unchanged; it never has work of its own.
pub struct Empty {
    pub input: String,
}

impl Mutilate for Empty {
    open spec fn mutate_ready(&self) -> bool {
        true
    }

    open spec fn init_ready(&self) -> bool {
        true
    }

    open spec fn output_view(&self) -> Seq<u8> {
        utf8_bytes(self.input@)
    }

    open spec fn enabled_view(&self) -> bool {
        false
    }

    fn mutate(&mut self) -> (out: Option<Vec<u8>>)
        ensures
            *final(self) == *old(self),
    {
        Some(string_bytes(&self.input))
    }

    fn init_output(&mut self)
        ensures
            *final(self) == *old(self),
    {
    }

    fn is_enabled(&mut self) -> (b: bool) {
        false
    }

    fn can_mutate(&self) -> (b: bool) {
        true
    }

    fn can_init(&self) -> (b: bool) {
        true
    }
}

} // verus!
