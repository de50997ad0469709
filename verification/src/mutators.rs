//! The mutators that the tool runs: a chaotic bit flipper, a window truncator, a length-field
//! corrupter and a byte negator. Each keeps a seed that advances by one with every round.

pub mod chaos_mutator;

use vstd::prelude::*;

use crate::bytes::char_boundary;
use crate::bytes::is_boundary;
use crate::bytes::push_range;
use crate::bytes::string_bytes;
use crate::bytes::utf8_bytes;
use crate::walk::chaos_round;
use crate::walk::walk_flips;
use crate::walk::walk_terminates;
use crate::walk::walk_wraps_above;
use crate::walk::xor_prefix;
use crate::walk::lemma_wrapping_seed_below_max;
use crate::walk::lemma_walk_flips_len;
use crate::walk::lemma_xor_prefix_undo;
use crate::walk::lemma_low_seeds_end;
use crate::bytes::lemma_ascii_char_boundaries;
use vstd::utf8::is_ascii_chars;

verus! {

/// A mutator: after `init_output`, each call of `mutate` produces the next mutated buffer.
pub trait Mutilate: Sized {
    /// The states from which a round runs to its end.
    spec fn mutate_ready(&self) -> bool;

    /// The states from which the output can be initialised.
    spec fn init_ready(&self) -> bool;

    /// The buffer that the mutator currently holds as its output.
    spec fn output_view(&self) -> Seq<u8>;

    /// How many rounds the mutator offers.
    spec fn count_limit(&self) -> usize;

    /// Runs one round and hands out a copy of the new output.
    fn mutate(&mut self) -> (out: Option<Vec<u8>>)
        requires
            old(self).mutate_ready(),
        ensures
            out matches Some(v) && v@ == final(self).output_view(),
    ;

    /// Sets the output up from the input.
    fn init_output(&mut self)
        requires
            old(self).init_ready(),
    ;

    /// The number of rounds the mutator offers.
    fn max_count(&mut self) -> (n: usize)
        ensures
            n == old(self).count_limit(),
            *final(self) == *old(self),
    ;

    /// Whether `mutate` may run from this state.
    fn can_mutate(&self) -> (b: bool)
        ensures
            b == self.mutate_ready(),
    ;

    /// Whether `init_output` may run from this state.
    fn can_init(&self) -> (b: bool)
        ensures
            b == self.init_ready(),
    ;
}

//////////////////////////////////////////////////////////////////////////////////////////////

/// Flips bits of a scratch buffer along a walk through the seed space and xors the scratch
/// buffer into the output; both buffers keep their changes from round to round.
#[derive(Debug)]
pub struct ChaosFlipper {
    pub seed: usize,
    pub input: String,
    pub output: Vec<u8>,
    pub tmp_vec: Vec<u8>,
    pub max_count: usize,
}

impl ChaosFlipper {
    /// What one round makes of this state.
    pub open spec fn mutated_to(self, next: Self) -> bool {
        &&& next.tmp_vec@ == walk_flips(
            self.tmp_vec@,
            self.seed as int,
            self.output@.len() as int,
            self.output@.len() as int,
        )
        &&& next.output@ == xor_prefix(self.output@, next.tmp_vec@)
        &&& next.seed == self.seed + 1
        &&& next.input == self.input
        &&& next.max_count == self.max_count
    }

    /// What setting the output up makes of this state.
    pub open spec fn initialized_to(self, next: Self) -> bool {
        &&& next.output@ == utf8_bytes(self.input@)
        &&& next.max_count == 0x1000
        &&& next.seed == self.seed
        &&& next.input == self.input
        &&& next.tmp_vec == self.tmp_vec
    }

    /// Sets the seed that the next round starts from; nothing else changes.
    pub fn set_seed(&mut self, seed: usize)
        ensures
            *final(self) == (ChaosFlipper { seed, ..*old(self) }),
    {
        self.seed = seed;
    }
}

impl Mutilate for ChaosFlipper {
    open spec fn mutate_ready(&self) -> bool {
        &&& self.output@.len() > 0
        &&& self.tmp_vec@.len() >= self.output@.len()
        &&& walk_wraps_above(self.seed as int, self.output@.len() as int)
    }

    open spec fn init_ready(&self) -> bool {
        true
    }

    open spec fn output_view(&self) -> Seq<u8> {
        self.output@
    }

    open spec fn count_limit(&self) -> usize {
        self.max_count
    }

    fn mutate(&mut self) -> (out: Option<Vec<u8>>)
        ensures
            old(self).mutated_to(*final(self)),
    {
        proof {
            lemma_wrapping_seed_below_max(self.seed as int, self.output@.len() as int);
        }
        chaos_round(self.seed, &mut self.output, &mut self.tmp_vec);
        self.seed = self.seed + 1;
        Some(self.output.clone())
    }

    fn init_output(&mut self)
        ensures
            old(self).initialized_to(*final(self)),
    {
        self.output = string_bytes(&self.input);
        self.max_count = 0x1000;
    }

    fn max_count(&mut self) -> (n: usize) {
        self.max_count
    }

    fn can_mutate(&self) -> (b: bool) {
        let len = self.output.len();
        len > 0 && self.tmp_vec.len() >= len && walk_terminates(self.seed, len)
    }

    fn can_init(&self) -> (b: bool) {
        true
    }
}

/// A chaos round can be reverted: xor-ing the round's scratch buffer into the new output gives
/// the previous output back.
pub proof fn lemma_chaos_round_reverts(a: ChaosFlipper, b: ChaosFlipper)
    requires
        a.mutate_ready(),
        a.mutated_to(b),
    ensures
        xor_prefix(b.output@, b.tmp_vec@) == a.output@,
{
    let len = a.output@.len() as int;
    lemma_walk_flips_len(a.tmp_vec@, a.seed as int, len, len);
    lemma_xor_prefix_undo(a.output@, b.tmp_vec@);
}

/////////////////////////////////////////////////////////////////////////////////////// The rounds a chaos flipper offers run: a flipper with a non-empty output, a scratch buffer
/// at least as long, and a seed in the lower half of the seed space (its `0x1000` rounds from a
/// start there stay there) can always take its next round.
pub proof fn lemma_chaos_round_runs(m: ChaosFlipper)
    requires
        m.output@.len() > 0,
        m.tmp_vec@.len() >= m.output@.len(),
        m.seed + m.output@.len() <= usize::MAX,
        2 * m.seed + 1 <= usize::MAX,
    ensures
        m.mutate_ready(),
{
    lemma_low_seeds_end(m.seed as int, m.output@.len() as int);
}

//////////

/// The window `[start, end)` of the input that the truncator keeps for `seed`: the end moves
/// in by one byte for every `len` seeds, the start cycles through the window's length.
pub open spec fn truncation_window(seed: int, len: int) -> (int, int) {
    let end = len - seed / len;
    (seed % end, end)
}

/// The sum `1 + 2 + ... + n`.
pub open spec fn triangle(n: nat) -> nat
    decreases n,
{
    if n == 0 {
        0
    } else {
        n + triangle((n - 1) as nat)
    }
}

/// The number of rounds a truncator offers for an input of `len` bytes: the number of
/// non-empty windows `len * (len + 1) / 2`, or `0x10000` where that exceeds `0xFFFFFFFF`.
pub open spec fn truncator_limit(len: nat) -> usize {
    let windows = len * (len + 1) / 2;
    if windows > 0xFFFFFFFF {
        0x10000
    } else {
        windows as usize
    }
}

/// `2 * (1 + ... + n) == n * (n + 1)`.
pub proof fn lemma_triangle_closed_form(n: nat)
    ensures
        2 * triangle(n) == n * (n + 1),
    decreases n,
{
    if n > 0 {
        let m = (n - 1) as nat;
        lemma_triangle_closed_form(m);
        assert(triangle(n) == n + triangle(m));
        assert(n * (n + 1) == m * (m + 1) + 2 * n) by (nonlinear_arith)
            requires
                m + 1 == n,
        ;
    } else {
        assert(n * (n + 1) == 0) by (nonlinear_arith)
            requires
                n == 0,
        ;
    }
}

/// Every round that a truncator offers has a window: a seed below the round count keeps the
/// end of the window inside the input.
pub proof fn lemma_truncator_rounds_have_windows(len: nat, s: nat)
    requires
        len >= 1,
        s < truncator_limit(len),
    ensures
        s / len < len,
{
    let windows = len * (len + 1) / 2;
    if windows > 0xFFFFFFFF {
        if len < 0x10000 {
            assert(len * (len + 1) <= 0xFFFF * 0x10000) by (nonlinear_arith)
                requires
                    len <= 0xFFFF,
            ;
        }
        assert(len * len >= 0x10000 * 0x10000) by (nonlinear_arith)
            requires
                len >= 0x10000,
        ;
    } else {
        assert(len * (len + 1) / 2 <= len * len) by (nonlinear_arith)
            requires
                len >= 1,
        ;
    }
    assert(s / len < len) by (nonlinear_arith)
        requires
            s < len * len,
            len >= 1,
    ;
}

/// The count bounds the rounds, so no round needs to check: a truncator over an ASCII input,
/// with the count that `init_output` sets, can take its next round while its seed is below that
/// count.
pub proof fn lemma_truncator_round_runs(t: Truncator)
    requires
        is_ascii_chars(t.input@),
        t.max_count == truncator_limit(utf8_bytes(t.input@).len()),
        t.seed < t.max_count,
    ensures
        t.mutate_ready(),
{
    let len = utf8_bytes(t.input@).len();
    lemma_ascii_char_boundaries(t.input@);
    lemma_truncator_rounds_have_windows(len, t.seed as nat);
    let w = truncation_window(t.seed as int, len as int);
    assert(0 <= w.0 < w.1 <= len) by (nonlinear_arith)
        requires
            w == truncation_window(t.seed as int, len as int),
            (t.seed as nat) / len < len,
            len >= 1,
    ;
    assert(char_boundary(t.input@, w.0));
    assert(char_boundary(t.input@, w.1));
}

/// A truncator's round depends only on its input and seed: two states that agree on them
/// hand out the same window and move to the same seed, whatever their earlier outputs.
pub proof fn lemma_truncator_round_ignores_output(a: Truncator, b: Truncator, x: Truncator, y: Truncator)
    requires
        a.input == b.input,
        a.seed == b.seed,
        a.mutated_to(x),
        b.mutated_to(y),
    ensures
        x.output@ == y.output@,
        x.seed == y.seed,
        x.input == y.input,
{
}

/// Cuts the input down to a window that shrinks from the right as the seed grows.
#[derive(Debug)]
pub struct Truncator {
    pub seed: usize,
    pub input: String,
    pub output: Vec<u8>,
    pub max_count: usize,
}

impl Truncator {
    /// What one round makes of this state.
    pub open spec fn mutated_to(self, next: Self) -> bool {
        let bytes = utf8_bytes(self.input@);
        let w = truncation_window(self.seed as int, bytes.len() as int);
        &&& 0 <= w.0 < w.1 <= bytes.len()
        &&& next.output@ == bytes.subrange(w.0, w.1)
        &&& next.seed == self.seed + 1
        &&& next.input == self.input
        &&& next.max_count == self.max_count
    }

    /// What setting the output up makes of this state.
    pub open spec fn initialized_to(self, next: Self) -> bool {
        &&& next.output@ == utf8_bytes(self.input@)
        &&& next.max_count == truncator_limit(utf8_bytes(self.input@).len())
        &&& next.seed == self.seed
        &&& next.input == self.input
    }

    /// Sets the seed that the next round starts from; nothing else changes.
    pub fn set_seed(&mut self, seed: usize)
        ensures
            *final(self) == (Truncator { seed, ..*old(self) }),
    {
        self.seed = seed;
    }
}

impl Mutilate for Truncator {
    open spec fn mutate_ready(&self) -> bool {
        let len = utf8_bytes(self.input@).len() as int;
        let w = truncation_window(self.seed as int, len);
        &&& len > 0
        &&& (self.seed as int) / len < len
        &&& self.seed < usize::MAX
        &&& char_boundary(self.input@, w.0)
        &&& char_boundary(self.input@, w.1)
    }

    open spec fn init_ready(&self) -> bool {
        utf8_bytes(self.input@).len() < usize::MAX
    }

    open spec fn output_view(&self) -> Seq<u8> {
        self.output@
    }

    open spec fn count_limit(&self) -> usize {
        self.max_count
    }

    fn mutate(&mut self) -> (out: Option<Vec<u8>>)
        ensures
            old(self).mutated_to(*final(self)),
    {
        let tmp_seed = self.seed;
        let bytes = self.input.as_str().as_bytes();
        let strlen = bytes.len();
        let end_index = strlen - (tmp_seed / strlen);
        let start_index = tmp_seed % end_index;
        self.output.clear();
        push_range(&mut self.output, bytes, start_index, end_index);
        self.seed = self.seed + 1;
        Some(self.output.clone())
    }

    fn init_output(&mut self)
        ensures
            old(self).initialized_to(*final(self)),
    {
        self.output = string_bytes(&self.input);
        let n = self.output.len();
        let mut tmp_num: u128 = 0;
        let mut i: usize = 1;
        while i < n + 1
            invariant
                1 <= i <= n + 1,
                n < usize::MAX,
                tmp_num == triangle((i - 1) as nat),
            decreases n + 1 - i,
        {
            proof {
                lemma_triangle_closed_form(i as nat);
                assert(i * (i + 1) <= (usize::MAX as int) * (usize::MAX + 1)) by (nonlinear_arith)
                    requires
                        i <= usize::MAX,
                ;
            }
            tmp_num = tmp_num + i as u128;
            i = i + 1;
        }
        proof {
            lemma_triangle_closed_form(n as nat);
        }
        if tmp_num > 0xFFFFFFFF {
            self.max_count = 0x10000;
        } else {
            self.max_count = tmp_num as usize;
        }
    }

    fn max_count(&mut self) -> (n: usize) {
        self.max_count
    }

    fn can_mutate(&self) -> (b: bool) {
        let strlen = self.input.as_str().as_bytes().len();
        if strlen == 0 || self.seed / strlen >= strlen || self.seed == usize::MAX {
            return false;
        }
        let end_index = strlen - (self.seed / strlen);
        let start_index = self.seed % end_index;
        is_boundary(&self.input, start_index) && is_boundary(&self.input, end_index)
    }

    fn can_init(&self) -> (b: bool) {
        self.input.as_str().as_bytes().len() < usize::MAX
    }
}

//////////////////////////////////////////////////////////////////////////////////////////////

/// How many special numbers the length corrupter cycles through.
pub const SPECIAL_NUMS_LEN: usize = 22;

/// The special numbers that the length corrupter writes into the input: boundary values of
/// one to five byte wide fields.
pub open spec fn special_num(i: int) -> u64 {
    if i == 0 { 0x0 }
    else if i == 1 { 0x01 }
    else if i == 2 { 0x10 }
    else if i == 3 { 0x7F }
    else if i == 4 { 0x80 }
    else if i == 5 { 0xFF }
    else if i == 6 { 0x1000 }
    else if i == 7 { 0x7FFF }
    else if i == 8 { 0x8000 }
    else if i == 9 { 0xFFFF }
    else if i == 10 { 0x100000 }
    else if i == 11 { 0x7FFFFF }
    else if i == 12 { 0x800000 }
    else if i == 13 { 0xFFFFFF }
    else if i == 14 { 0x0100000 }
    else if i == 15 { 0x7FFFFFFF }
    else if i == 16 { 0x80000000 }
    else if i == 17 { 0xFFFFFFFF }
    else if i == 18 { 0x100000000 }
    else if i == 19 { 0x7FFFFFFFF }
    else if i == 20 { 0x800000000 }
    else { 0xFFFFFFFFF }
}

/// The special numbers are boundary values of integer fields: zero, one, sixteen, the signed
/// and unsigned limits of 8, 16 and 32 bit fields (`i8::MAX`, `i8::MAX + 1`, `u8::MAX`, ...),
/// and powers of two and their predecessors around the 24 and 36 bit boundaries; `2^20` stands
/// twice in the table.
pub proof fn lemma_special_nums_are_field_bounds()
    ensures
        special_num(0) == 0,
        special_num(1) == 1,
        special_num(2) == 16,
        special_num(3) == i8::MAX,
        special_num(4) == i8::MAX + 1,
        special_num(5) == u8::MAX,
        special_num(6) == 1u64 << 12,
        special_num(7) == i16::MAX,
        special_num(8) == i16::MAX + 1,
        special_num(9) == u16::MAX,
        special_num(10) == 1u64 << 20,
        special_num(11) == (1u64 << 23) - 1,
        special_num(12) == 1u64 << 23,
        special_num(13) == (1u64 << 24) - 1,
        special_num(14) == 1u64 << 20,
        special_num(15) == i32::MAX,
        special_num(16) == i32::MAX + 1,
        special_num(17) == u32::MAX,
        special_num(18) == 1u64 << 32,
        special_num(19) == (1u64 << 35) - 1,
        special_num(20) == 1u64 << 35,
        special_num(21) == (1u64 << 36) - 1,
{
    assert(1u64 << 12 == 0x1000) by (bit_vector);
    assert(1u64 << 20 == 0x100000) by (bit_vector);
    assert(1u64 << 23 == 0x800000) by (bit_vector);
    assert(1u64 << 24 == 0x1000000) by (bit_vector);
    assert(1u64 << 32 == 0x100000000) by (bit_vector);
    assert(1u64 << 35 == 0x800000000) by (bit_vector);
    assert(1u64 << 36 == 0x1000000000) by (bit_vector);
}

/// The special number at position `i` of the table.
pub fn special_num_at(i: usize) -> (v: u64)
    requires
        i < SPECIAL_NUMS_LEN,
    ensures
        v == special_num(i as int),
{
    match i {
        0 => 0x0,
        1 => 0x01,
        2 => 0x10,
        3 => 0x7F,
        4 => 0x80,
        5 => 0xFF,
        6 => 0x1000,
        7 => 0x7FFF,
        8 => 0x8000,
        9 => 0xFFFF,
        10 => 0x100000,
        11 => 0x7FFFFF,
        12 => 0x800000,
        13 => 0xFFFFFF,
        14 => 0x0100000,
        15 => 0x7FFFFFFF,
        16 => 0x80000000,
        17 => 0xFFFFFFFF,
        18 => 0x100000000,
        19 => 0x7FFFFFFFF,
        20 => 0x800000000,
        _ => 0xFFFFFFFFF,
    }
}

/// The little-endian bytes of `v`, least significant first, with no trailing zero byte.
pub open spec fn le_bytes(v: nat) -> Seq<u8>
    decreases v,
{
    if v == 0 {
        seq![]
    } else {
        seq![(v % 256) as u8] + le_bytes(v / 256)
    }
}

/// `256` to the power `k`.
pub open spec fn pow256(k: nat) -> nat
    decreases k,
{
    if k == 0 {
        1
    } else {
        256 * pow256((k - 1) as nat)
    }
}

/// `256^8` is `2^64`: every `u64` is below it.
pub proof fn lemma_pow256_eight()
    ensures
        pow256(8) == 0x1_0000_0000_0000_0000,
{
    reveal_with_fuel(pow256, 9);
}

/// A number below `256^k` has at most `k` little-endian bytes.
pub proof fn lemma_le_bytes_len(v: nat, k: nat)
    requires
        v < pow256(k),
    ensures
        le_bytes(v).len() <= k,
    decreases v,
{
    if v > 0 {
        let j = (k - 1) as nat;
        assert(k > 0);
        assert(v / 256 < pow256(j)) by (nonlinear_arith)
            requires
                v < 256 * pow256(j),
        ;
        lemma_le_bytes_len(v / 256, j);
    }
}

/// The number whose little-endian bytes are `s`, least significant first.
pub open spec fn le_value(s: Seq<u8>) -> nat
    decreases s.len(),
{
    if s.len() == 0 {
        0
    } else {
        s[0] as nat + 256 * le_value(s.drop_first())
    }
}

/// Reading the little-endian bytes of `v` gives `v` back.
pub proof fn lemma_le_bytes_value(v: nat)
    ensures
        le_value(le_bytes(v)) == v,
    decreases v,
{
    if v > 0 {
        lemma_le_bytes_value(v / 256);
        let s = le_bytes(v);
        assert(s.drop_first() =~= le_bytes(v / 256));
        assert(s[0] as nat == v % 256);
    }
}

/// The bytes that the corrupter writes for the special number `v`: one byte where `v` fits in
/// one, else the little-endian bytes of `v`.
pub open spec fn corrupt_bytes(v: u64) -> Seq<u8> {
    if v <= 0xFF {
        seq![v as u8]
    } else {
        le_bytes(v as nat)
    }
}

/// How many input bytes the corrupter passes over after its write: one for a one-byte write,
/// else one more than the bytes written.
pub open spec fn corrupt_skip(v: u64) -> int {
    if v <= 0xFF {
        1
    } else {
        le_bytes(v as nat).len() + 1int
    }
}

/// The corrupter writes the special number itself: its bytes, read little-endian, give the
/// number back.
pub proof fn lemma_corrupt_bytes_encode(v: u64)
    ensures
        le_value(corrupt_bytes(v)) == v,
{
    if v <= 0xFF {
        let s = corrupt_bytes(v);
        assert(s.drop_first() =~= Seq::<u8>::empty());
        assert(le_value(s.drop_first()) == 0);
        assert(s[0] as nat == v);
    } else {
        lemma_le_bytes_value(v as nat);
    }
}

/// What the length corrupter makes of `bytes` for `seed`: the bytes before position
/// `seed / len`, the special number `seed % 22` in place, then the rest of the input after the
/// bytes passed over, if any is left.
pub open spec fn corrupted(bytes: Seq<u8>, seed: int) -> Seq<u8> {
    let len = bytes.len() as int;
    let dst = seed / len;
    let v = special_num(seed % (SPECIAL_NUMS_LEN as int));
    let rest = dst + corrupt_skip(v);
    bytes.subrange(0, dst) + corrupt_bytes(v) + (if rest < len {
        bytes.subrange(rest, len)
    } else {
        seq![]
    })
}

/// Writes special numbers into the input, at a position and with a value taken from the seed.
#[derive(Debug)]
pub struct LenCorruption {
    pub seed: usize,
    pub input: String,
    pub output: Vec<u8>,
    pub max_count: usize,
}

impl LenCorruption {
    /// What one round makes of this state.
    pub open spec fn mutated_to(self, next: Self) -> bool {
        &&& next.output@ == corrupted(utf8_bytes(self.input@), self.seed as int)
        &&& next.seed == self.seed + 1
        &&& next.input == self.input
        &&& next.max_count == self.max_count
    }

    /// What setting the output up makes of this state.
    pub open spec fn initialized_to(self, next: Self) -> bool {
        &&& next.output@ == utf8_bytes(self.input@)
        &&& next.max_count == (if SPECIAL_NUMS_LEN * utf8_bytes(self.input@).len()
            < 0xFFFFFFFF {
            SPECIAL_NUMS_LEN * utf8_bytes(self.input@).len()
        } else {
            0xFFFFFFFF
        })
        &&& next.seed == self.seed
        &&& next.input == self.input
    }

    /// Sets the seed that the next round starts from; nothing else changes.
    pub fn set_seed(&mut self, seed: usize)
        ensures
            *final(self) == (LenCorruption { seed, ..*old(self) }),
    {
        self.seed = seed;
    }
}

impl Mutilate for LenCorruption {
    open spec fn mutate_ready(&self) -> bool {
        let len = utf8_bytes(self.input@).len() as int;
        let dst = (self.seed as int) / len;
        let rest = dst + corrupt_skip(special_num((self.seed as int) % (SPECIAL_NUMS_LEN as int)));
        &&& len > 0
        &&& dst <= len
        &&& rest <= usize::MAX
        &&& self.seed < usize::MAX
        &&& char_boundary(self.input@, dst)
        &&& rest < len ==> char_boundary(self.input@, rest)
    }

    open spec fn init_ready(&self) -> bool {
        SPECIAL_NUMS_LEN * utf8_bytes(self.input@).len() <= usize::MAX
    }

    open spec fn output_view(&self) -> Seq<u8> {
        self.output@
    }

    open spec fn count_limit(&self) -> usize {
        self.max_count
    }

    fn mutate(&mut self) -> (out: Option<Vec<u8>>)
        ensures
            old(self).mutated_to(*final(self)),
    {
        let tmp_seed = self.seed;
        let bytes = self.input.as_str().as_bytes();
        let strlen = bytes.len();
        let dst_index = tmp_seed / strlen;
        let v = special_num_at(tmp_seed % SPECIAL_NUMS_LEN);
        let mut corrupt_val = v;
        let mut val_len: usize = 1;
        self.output.clear();
        push_range(&mut self.output, bytes, 0, dst_index);
        let ghost prefix = self.output@;
        if corrupt_val <= 0xFF {
            self.output.push(corrupt_val as u8);
        } else {
            proof {
                lemma_pow256_eight();
                lemma_le_bytes_len(v as nat, 8);
            }
            while corrupt_val > 0
                invariant
                    self.output@ + le_bytes(corrupt_val as nat) == prefix + le_bytes(v as nat),
                    self.seed == old(self).seed,
                    self.input == old(self).input,
                    self.max_count == old(self).max_count,
                    tmp_seed == old(self).seed,
                    tmp_seed < usize::MAX,
                    val_len + le_bytes(corrupt_val as nat).len() == 1 + le_bytes(v as nat).len(),
                    le_bytes(v as nat).len() <= 8,
                decreases corrupt_val,
            {
                let ghost cv = corrupt_val;
                let b = (corrupt_val & 0xFF) as u8;
                assert(cv & 0xFF == cv % 256) by (bit_vector);
                assert(cv >> 8 == cv / 256) by (bit_vector);
                assert(le_bytes(cv as nat) == seq![(cv as nat % 256) as u8] + le_bytes(
                    cv as nat / 256,
                ));
                self.output.push(b);
                corrupt_val = corrupt_val >> 8;
                val_len = val_len + 1;
                assert(self.output@ + le_bytes(corrupt_val as nat) =~= prefix + le_bytes(v as nat));
            }
            assert(self.output@ =~= prefix + le_bytes(v as nat));
        }
        assert(val_len == corrupt_skip(v));
        let ghost written = self.output@;
        if dst_index + val_len < strlen {
            push_range(&mut self.output, bytes, dst_index + val_len, strlen);
        } else {
            assert(self.output@ =~= written + seq![]);
        }
        assert(self.output@ =~= corrupted(bytes@, tmp_seed as int));
        self.seed = self.seed + 1;
        Some(self.output.clone())
    }

    fn init_output(&mut self)
        ensures
            old(self).initialized_to(*final(self)),
    {
        self.output = string_bytes(&self.input);
        let total = SPECIAL_NUMS_LEN * self.output.len();
        self.max_count = if total < 0xFFFFFFFF {
            total
        } else {
            0xFFFFFFFF
        };
    }

    fn max_count(&mut self) -> (n: usize) {
        self.max_count
    }

    fn can_mutate(&self) -> (b: bool) {
        let strlen = self.input.as_str().as_bytes().len();
        if strlen == 0 || self.seed == usize::MAX {
            return false;
        }
        let dst_index = self.seed / strlen;
        if dst_index > strlen {
            return false;
        }
        let v = special_num_at(self.seed % SPECIAL_NUMS_LEN);
        let skip: usize = if v <= 0xFF {
            1
        } else {
            let mut cv = v;
            let mut n: usize = 1;
            proof {
                lemma_pow256_eight();
                lemma_le_bytes_len(v as nat, 8);
            }
            while cv > 0
                invariant
                    n + le_bytes(cv as nat).len() == 1 + le_bytes(v as nat).len(),
                    le_bytes(v as nat).len() <= 8,
                decreases cv,
            {
                let ghost c = cv;
                assert(c >> 8 == c / 256) by (bit_vector);
                cv = cv >> 8;
                n = n + 1;
            }
            n
        };
        if dst_index > usize::MAX - skip {
            return false;
        }
        let rest = dst_index + skip;
        is_boundary(&self.input, dst_index) && (rest >= strlen || is_boundary(&self.input, rest))
    }

    fn can_init(&self) -> (b: bool) {
        self.input.as_str().as_bytes().len() <= usize::MAX / SPECIAL_NUMS_LEN
    }
}

//////////////////////////////////////////////////////////////////////////////////////////////

/// The two's complement negation of a non-zero byte, written `(x ^ 0xFF) + 1`.
pub open spec fn negate(x: u8) -> u8 {
    ((x ^ 0xFF) + 1) as u8
}

/// `bytes` with the byte at `pos` negated: the state of an inversion at seed `pos`.
pub open spec fn negated_at(bytes: Seq<u8>, pos: int) -> Seq<u8> {
    bytes.update(pos, negate(bytes[pos]))
}

/// Negation is two's complement negation on every byte: a byte and its negation add up to
/// 256, except zero, whose negation is zero.
pub proof fn lemma_negate_is_twos_complement(x: u8)
    ensures
        negate(x) as int == (256 - x) % 256,
        x != 0 ==> negate(x) + x == 256,
{
    assert(x != 0 ==> ((x ^ 0xFF) + 1) as u8 == 256 - x) by (bit_vector);
    assert(x == 0 ==> ((x ^ 0xFF) + 1) as u8 == 0) by (bit_vector);
}

/// The negation of a non-zero byte is non-zero, and negating it again gives the byte back.
pub proof fn lemma_negate_involutive(x: u8)
    requires
        x != 0,
    ensures
        negate(x) != 0,
        negate(negate(x)) == x,
        (x ^ 0xFF) < 0xFF,
{
    assert((x ^ 0xFF) < 0xFF) by (bit_vector)
        requires
            x != 0,
    ;
    assert(((((x ^ 0xFF) + 1) as u8) ^ 0xFF) < 0xFF) by (bit_vector)
        requires
            x != 0,
    ;
    assert(((((((x ^ 0xFF) + 1) as u8) ^ 0xFF) + 1) as u8) == x) by (bit_vector)
        requires
            x != 0,
    ;
}

/// Negates one byte of the input at a time, moving one byte to the right with every round.
#[derive(Debug)]
pub struct Inversion {
    pub seed: usize,
    pub input: String,
    pub output: Vec<u8>,
    pub max_count: usize,
}

impl Inversion {
    /// What one round makes of this state.
    pub open spec fn mutated_to(self, next: Self) -> bool {
        &&& next.output@ == inversion_round(self.output@, self.seed as int)
        &&& next.seed == self.seed + 1
        &&& next.input == self.input
        &&& next.max_count == self.max_count
    }

    /// What setting the output up makes of this state.
    pub open spec fn initialized_to(self, next: Self) -> bool {
        &&& next.output@ == negated_at(utf8_bytes(self.input@), self.seed as int)
        &&& next.max_count == utf8_bytes(self.input@).len() - 1
        &&& next.seed == self.seed
        &&& next.input == self.input
    }

    /// Sets the seed that the next round starts from; nothing else changes.
    pub fn set_seed(&mut self, seed: usize)
        ensures
            *final(self) == (Inversion { seed, ..*old(self) }),
    {
        self.seed = seed;
    }
}

/// A round of the inversion on `out` at seed `seed`: the byte at the seed is negated back and
/// the next byte is negated.
pub open spec fn inversion_round(out: Seq<u8>, seed: int) -> Seq<u8> {
    let once = negated_at(out, seed);
    negated_at(once, seed + 1)
}

/// The state an inversion keeps between rounds: its output is its input with only the byte at
/// the seed negated.
pub open spec fn inversion_invariant(m: Inversion) -> bool {
    let bytes = utf8_bytes(m.input@);
    &&& m.seed < bytes.len()
    &&& m.output@ == negated_at(bytes, m.seed as int)
}

/// Setting the output up from an input whose byte at the seed is non-zero establishes the
/// inversion's state.
pub proof fn lemma_inversion_init_establishes(a: Inversion, b: Inversion)
    requires
        a.init_ready(),
        a.initialized_to(b),
    ensures
        inversion_invariant(b),
{
}

/// A round keeps the inversion's state: the negated byte moves one place to the right, and the
/// byte it leaves is restored.
pub proof fn lemma_inversion_round_keeps_state(a: Inversion, b: Inversion)
    requires
        inversion_invariant(a),
        a.mutate_ready(),
        a.mutated_to(b),
    ensures
        inversion_invariant(b),
{
    let bytes = utf8_bytes(a.input@);
    let s = a.seed as int;
    let x = bytes[s];
    assert(((x ^ 0xFF) + 1) as u8 != 0 ==> x != 0) by (bit_vector);
    lemma_negate_involutive(x);
    assert(bytes[s + 1] == a.output@[s + 1]);
    assert(inversion_round(a.output@, s) =~= negated_at(bytes, s + 1));
}

/// Setting an inversion up negates exactly the input byte at the seed: that byte and its new
/// value add up to 256, every other byte is the input's.
pub proof fn lemma_inversion_init_negates_seed_byte(a: Inversion, b: Inversion)
    requires
        a.init_ready(),
        a.initialized_to(b),
    ensures
        b.output@.len() == utf8_bytes(a.input@).len(),
        b.output@[a.seed as int] + utf8_bytes(a.input@)[a.seed as int] == 256,
        forall|j: int|
            0 <= j < b.output@.len() && j != a.seed ==> #[trigger] b.output@[j] == utf8_bytes(
                a.input@,
            )[j],
{
    lemma_negate_is_twos_complement(utf8_bytes(a.input@)[a.seed as int]);
}

/// A round of the inversion negates exactly the bytes at the seed and after it: each of them
/// and its new value add up to 256, every other byte stays.
pub proof fn lemma_inversion_round_negates_two_bytes(a: Inversion, b: Inversion)
    requires
        a.mutate_ready(),
        a.mutated_to(b),
    ensures
        b.output@.len() == a.output@.len(),
        b.output@[a.seed as int] + a.output@[a.seed as int] == 256,
        b.output@[a.seed + 1] + a.output@[a.seed + 1] == 256,
        forall|j: int|
            0 <= j < b.output@.len() && j != a.seed && j != a.seed + 1 ==> #[trigger] b.output@[j]
                == a.output@[j],
{
    lemma_negate_is_twos_complement(a.output@[a.seed as int]);
    lemma_negate_is_twos_complement(a.output@[a.seed + 1]);
}

/// The rounds an inversion offers run: from the state that `init_output` sets up, with the
/// count it sets and no zero byte in the input, every round below the count can be taken.
pub proof fn lemma_inversion_round_runs(m: Inversion)
    requires
        inversion_invariant(m),
        m.max_count == utf8_bytes(m.input@).len() - 1,
        m.seed < m.max_count,
        forall|i: int|
            0 <= i < utf8_bytes(m.input@).len() ==> #[trigger] utf8_bytes(m.input@)[i] != 0,
    ensures
        m.mutate_ready(),
{
    let bytes = utf8_bytes(m.input@);
    lemma_negate_involutive(bytes[m.seed as int]);
    assert(m.output@[m.seed + 1] == bytes[m.seed + 1]);
}

impl Mutilate for Inversion {
    open spec fn mutate_ready(&self) -> bool {
        &&& self.seed + 1 < self.output@.len()
        &&& self.output@[self.seed as int] != 0
        &&& self.output@[self.seed + 1] != 0
    }

    open spec fn init_ready(&self) -> bool {
        &&& self.seed < utf8_bytes(self.input@).len()
        &&& utf8_bytes(self.input@)[self.seed as int] != 0
    }

    open spec fn output_view(&self) -> Seq<u8> {
        self.output@
    }

    open spec fn count_limit(&self) -> usize {
        self.max_count
    }

    fn mutate(&mut self) -> (out: Option<Vec<u8>>)
        ensures
            old(self).mutated_to(*final(self)),
    {
        let len = self.output.len();
        let s = self.seed;
        proof {
            lemma_negate_involutive(self.output@[s as int]);
        }
        let b = (self.output[s] ^ 0xFF) + 1;
        self.output.set(s, b);
        self.seed = self.seed + 1;
        let s = self.seed;
        proof {
            lemma_negate_involutive(self.output@[s as int]);
        }
        let b = (self.output[s] ^ 0xFF) + 1;
        self.output.set(s, b);
        Some(self.output.clone())
    }

    fn init_output(&mut self)
        ensures
            old(self).initialized_to(*final(self)),
    {
        self.output = string_bytes(&self.input);
        let s = self.seed;
        proof {
            lemma_negate_involutive(self.output@[s as int]);
        }
        let b = (self.output[s] ^ 0xFF) + 1;
        self.output.set(s, b);
        self.max_count = self.output.len() - 1;
    }

    fn max_count(&mut self) -> (n: usize) {
        self.max_count
    }

    fn can_mutate(&self) -> (b: bool) {
        let len = self.output.len();
        self.seed < len && len - self.seed > 1 && self.output[self.seed] != 0
            && self.output[self.seed + 1] != 0
    }

    fn can_init(&self) -> (b: bool) {
        let bytes = self.input.as_str().as_bytes();
        self.seed < bytes.len() && bytes[self.seed] != 0
    }
}

} // verus!
