//! The seed walk of a chaos round, and the bit flips it leaves in the scratch buffer.

use vstd::prelude::*;

verus! {

/// The walk that a chaos round takes from position `t` with first stride `step`: it visits
/// `t`, `t - step`, `t - step - (step + 1)`, ... while the next position stays non-negative.
/// Returns the last position visited and the stride whose subtraction from it goes below zero.
pub open spec fn walk_end(t: int, step: int) -> (int, int)
    decreases t,
{
    if t < 0 || step <= 0 || t < step {
        (t, step)
    } else {
        walk_end(t - step, step + 1)
    }
}

/// Whether a round started at `seed` over a buffer of `len` bytes ends: the subtraction that
/// leaves the walk wraps around to a `usize` above the seed, which is what stops the loop.
pub open spec fn walk_wraps_above(seed: int, len: int) -> bool {
    let end = walk_end(seed, len);
    end.0 - end.1 + usize::MAX + 1 > seed
}

/// The flip that position `t` makes in the scratch buffer: byte `t % len` is xor-ed with the
/// low eight bits of `t / len + 1`.
pub open spec fn flip_at(tmp: Seq<u8>, t: int, len: int) -> Seq<u8> {
    let i = t % len;
    tmp.update(i, tmp[i] ^ ((t / len + 1) as u8))
}

/// The low eight bits of a non-negative number below `2^128`, read as a byte, are the number
/// modulo 256.
pub proof fn lemma_low_byte(q: int)
    requires
        0 <= q < 0x1_0000_0000_0000_0000_0000_0000_0000_0000,
    ensures
        (q as u8) as int == q % 256,
{
    let y = q as u128;
    assert(y as int == q);
    assert((y as u8) as u128 == y % 256) by (bit_vector);
}

/// A position of the walk flips exactly one scratch byte, the one at `t % len`: xor-ing the new
/// byte with the old one gives `t / len + 1` modulo 256, and every other byte is unchanged.
pub proof fn lemma_flip_changes_one_byte(tmp: Seq<u8>, t: int, len: int)
    requires
        len >= 1,
        0 <= t <= usize::MAX,
        tmp.len() >= len,
    ensures
        flip_at(tmp, t, len).len() == tmp.len(),
        (flip_at(tmp, t, len)[t % len] ^ tmp[t % len]) as int == (t / len + 1) % 256,
        forall|j: int|
            0 <= j < tmp.len() && j != t % len ==> #[trigger] flip_at(tmp, t, len)[j] == tmp[j],
{
    let i = t % len;
    let a = tmp[i];
    let q = t / len + 1;
    assert(0 <= t / len <= t) by (nonlinear_arith)
        requires
            len >= 1,
            t >= 0,
    ;
    lemma_low_byte(q);
    let b = q as u8;
    assert((a ^ b) ^ a == b) by (bit_vector);
}

/// A walk that stops at its first position flips only that position's byte: the round's scratch
/// byte at `t % len` changes by `t / len + 1` modulo 256, the others stay.
pub proof fn lemma_single_position_walk(tmp: Seq<u8>, t: int, step: int, len: int)
    requires
        len >= 1,
        0 <= t < step,
        t <= usize::MAX,
        tmp.len() >= len,
    ensures
        walk_flips(tmp, t, step, len).len() == tmp.len(),
        (walk_flips(tmp, t, step, len)[t % len] ^ tmp[t % len]) as int == (t / len + 1) % 256,
        forall|j: int|
            0 <= j < tmp.len() && j != t % len ==> #[trigger] walk_flips(tmp, t, step, len)[j]
                == tmp[j],
{
    lemma_flip_changes_one_byte(tmp, t, len);
}

/// The scratch buffer after the flips of every position of the walk from `t` with stride `step`.
pub open spec fn walk_flips(tmp: Seq<u8>, t: int, step: int, len: int) -> Seq<u8>
    decreases t,
{
    if t < 0 || step <= 0 || len <= 0 {
        tmp
    } else if t < step {
        flip_at(tmp, t, len)
    } else {
        walk_flips(flip_at(tmp, t, len), t - step, step + 1, len)
    }
}

/// Byte-wise xor of `a` with the first `a.len()` bytes of `b`.
pub open spec fn xor_prefix(a: Seq<u8>, b: Seq<u8>) -> Seq<u8> {
    Seq::new(a.len(), |i: int| a[i] ^ b[i])
}

/// Xor-ing the same bytes in twice gives the original bytes back.
pub proof fn lemma_xor_prefix_undo(a: Seq<u8>, t: Seq<u8>)
    requires
        t.len() >= a.len(),
    ensures
        xor_prefix(xor_prefix(a, t), t) == a,
{
    assert forall|i: int| 0 <= i < a.len() implies (a[i] ^ t[i]) ^ t[i] == a[i] by {
        let x = a[i];
        let y = t[i];
        assert((x ^ y) ^ y == x) by (bit_vector);
    }
    assert(xor_prefix(xor_prefix(a, t), t) =~= a);
}

/// The walk from a non-negative position ends at a position between zero and where it
/// started, before a stride at least as long as the first.
pub proof fn lemma_walk_end_bounds(t: int, step: int)
    requires
        t >= 0,
        step >= 1,
    ensures
        0 <= walk_end(t, step).0 <= t,
        walk_end(t, step).1 >= step,
        walk_end(t, step).0 < walk_end(t, step).1,
    decreases t,
{
    if t >= step {
        lemma_walk_end_bounds(t - step, step + 1);
    }
}

/// Flipping along a walk never changes the length of the scratch buffer.
pub proof fn lemma_walk_flips_len(tmp: Seq<u8>, t: int, step: int, len: int)
    requires
        len >= 1,
        tmp.len() >= len,
    ensures
        walk_flips(tmp, t, step, len).len() == tmp.len(),
    decreases t,
{
    if t >= 0 && step > 0 && t >= step {
        lemma_walk_flips_len(flip_at(tmp, t, len), t - step, step + 1, len);
    }
}

/// The last stride of a walk is at most the first stride or one more than the start.
pub proof fn lemma_walk_end_stride(t: int, step: int)
    requires
        t >= 0,
        step >= 1,
    ensures
        walk_end(t, step).1 <= step || walk_end(t, step).1 <= t + 1,
    decreases t,
{
    if t >= step {
        lemma_walk_end_stride(t - step, step + 1);
    }
}

/// Every round started in the lower half of the seed space ends: where neither the seed plus
/// the buffer length nor twice the seed passes `usize::MAX`, the walk's wrap lands above the
/// seed.
pub proof fn lemma_low_seeds_end(seed: int, len: int)
    requires
        seed >= 0,
        len >= 1,
        seed + len <= usize::MAX,
        2 * seed + 1 <= usize::MAX,
    ensures
        walk_wraps_above(seed, len),
{
    lemma_walk_end_bounds(seed, len);
    lemma_walk_end_stride(seed, len);
}

/// A round that ends was started at a seed below `usize::MAX`.
pub proof fn lemma_wrapping_seed_below_max(seed: int, len: int)
    requires
        seed >= 0,
        len >= 1,
        walk_wraps_above(seed, len),
    ensures
        seed < usize::MAX,
        walk_end(seed, len).1 <= usize::MAX,
{
    lemma_walk_end_bounds(seed, len);
}

/// Decides whether a chaos round started at `seed` over a buffer of `len` bytes ends, by
/// running the walk itself.
pub fn walk_terminates(seed: usize, len: usize) -> (b: bool)
    requires
        len >= 1,
    ensures
        b == walk_wraps_above(seed as int, len as int),
{
    let mut t: u128 = seed as u128;
    let mut step: u128 = len as u128;
    proof {
        lemma_walk_end_bounds(seed as int, len as int);
    }
    while t >= step
        invariant
            0 <= t <= seed,
            1 <= step,
            step <= len || step <= seed + 1,
            walk_end(t as int, step as int) == walk_end(seed as int, len as int),
        decreases t,
    {
        t = t - step;
        step = step + 1;
    }
    t + (usize::MAX as u128) + 1 > (seed as u128) + step
}

/// One chaos round: walk the seed space from `seed` with first stride `output.len()`,
/// flipping scratch bytes at every position, then xor the scratch bytes into the output.
pub fn chaos_round(seed: usize, output: &mut Vec<u8>, tmp_vec: &mut Vec<u8>)
    requires
        old(output).len() > 0,
        old(tmp_vec).len() >= old(output).len(),
        walk_wraps_above(seed as int, old(output).len() as int),
    ensures
        final(tmp_vec)@ == walk_flips(
            old(tmp_vec)@,
            seed as int,
            old(output).len() as int,
            old(output).len() as int,
        ),
        final(output)@ == xor_prefix(old(output)@, final(tmp_vec)@),
{
    let strlen = output.len();
    let mut tmp_seed = seed;
    let mut counter: usize = 0;
    let ghost mut t: int = seed as int;
    let ghost end = walk_end(seed as int, strlen as int);
    let ghost target = walk_flips(tmp_vec@, seed as int, strlen as int, strlen as int);
    let ghost tmp_len = tmp_vec@.len();
    proof {
        lemma_walk_end_bounds(seed as int, strlen as int);
        lemma_walk_flips_len(tmp_vec@, seed as int, strlen as int, strlen as int);
        lemma_wrapping_seed_below_max(seed as int, strlen as int);
    }
    while tmp_seed <= seed
        invariant
            strlen == output.len(),
            strlen > 0,
            tmp_vec@.len() == tmp_len,
            tmp_len >= strlen,
            target.len() == tmp_len,
            0 <= end.0 <= seed,
            end.0 < end.1,
            end.0 - end.1 + usize::MAX + 1 > seed,
            t >= 0 ==> {
                &&& tmp_seed == t
                &&& t <= seed
                &&& walk_end(t, strlen + counter) == end
                &&& walk_flips(tmp_vec@, t, strlen + counter, strlen as int) == target
                &&& strlen + counter <= end.1
            },
            t < 0 ==> {
                &&& tmp_seed == t + usize::MAX + 1
                &&& t == end.0 - end.1
                &&& tmp_vec@ == target
            },
        decreases (if t >= 0 { t + 1 } else { 0 }),
    {
        let ghost old_tmp = tmp_vec@;
        let byte_index = tmp_seed % strlen;
        let bit_index = tmp_seed / strlen;
        let flipped = tmp_vec[byte_index] ^ ((bit_index + 1) as u8);
        tmp_vec.set(byte_index, flipped);
        let step = strlen + counter;
        proof {
            lemma_walk_end_bounds(t, step as int);
        }
        tmp_seed = tmp_seed.wrapping_sub(step);
        counter = counter + 1;
        proof {
            assert(tmp_vec@ == flip_at(old_tmp, t, strlen as int));
            if t - step >= 0 {
                lemma_walk_end_bounds(t - step, step + 1);
            }
            t = t - step;
        }
    }
    let ghost flipped_tmp = tmp_vec@;
    let mut i: usize = 0;
    while i < strlen
        invariant
            strlen == output.len(),
            i <= strlen,
            tmp_vec@ == flipped_tmp,
            flipped_tmp.len() >= strlen,
            forall|j: int| 0 <= j < i ==> output@[j] == old(output)@[j] ^ flipped_tmp[j],
            forall|j: int| i <= j < strlen ==> output@[j] == old(output)@[j],
        decreases strlen - i,
    {
        let b = output[i] ^ tmp_vec[i];
        output.set(i, b);
        i = i + 1;
    }
    assert(output@ =~= xor_prefix(old(output)@, flipped_tmp));
}

} // verus!
