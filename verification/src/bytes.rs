//! Byte-buffer helpers shared by the mutators: the UTF-8 bytes of a string, copying a
//! range of bytes, zero-filled buffers and byte-string search.

use vstd::prelude::*;
use vstd::utf8::encode_utf8;
use vstd::utf8::is_ascii_chars;
use vstd::utf8::is_ascii_chars_encode_utf8;
use vstd::utf8::is_char_boundary;
use vstd::utf8::valid_utf8;

verus! {

/// The UTF-8 bytes of a string, as `str::as_bytes` hands them out.
pub open spec fn utf8_bytes(s: Seq<char>) -> Seq<u8> {
    encode_utf8(s)
}

/// Whether byte offset `index` of the string starts a character or is its end: the offsets at
/// which a string may be sliced.
pub open spec fn char_boundary(s: Seq<char>, index: int) -> bool {
    is_char_boundary(encode_utf8(s), index)
}

/// Whether every byte is below `0x80`.
pub open spec fn ascii_bytes(b: Seq<u8>) -> bool {
    forall|i: int| 0 <= i < b.len() ==> #[trigger] b[i] <= 0x7f
}

/// Bytes below `0x80` are valid UTF-8, and every offset into them is a character boundary.
pub proof fn lemma_ascii_bytes_boundaries(b: Seq<u8>)
    requires
        ascii_bytes(b),
    ensures
        valid_utf8(b),
        forall|i: int| 0 <= i <= b.len() ==> #[trigger] is_char_boundary(b, i),
    decreases b.len(),
{
    if b.len() > 0 {
        let rest = b.subrange(1, b.len() as int);
        assert(ascii_bytes(rest));
        lemma_ascii_bytes_boundaries(rest);
        let x = b[0];
        assert((x & 0x7F) as u32 <= 0x7F) by (bit_vector);
        assert(vstd::utf8::pop_first_scalar(b) =~= rest);
        assert forall|i: int| 0 <= i <= b.len() implies #[trigger] is_char_boundary(b, i) by {
            if i > 0 {
                assert(is_char_boundary(rest, i - 1));
            }
        }
    }
}

/// Every byte offset into an ASCII string is one at which it may be sliced.
pub proof fn lemma_ascii_char_boundaries(s: Seq<char>)
    requires
        is_ascii_chars(s),
    ensures
        utf8_bytes(s).len() == s.len(),
        forall|i: int| 0 <= i <= s.len() ==> #[trigger] char_boundary(s, i),
{
    is_ascii_chars_encode_utf8(s);
    let b = encode_utf8(s);
    assert forall|i: int| 0 <= i < b.len() implies #[trigger] b[i] <= 0x7f by {
        assert(s[i] as u8 == b[i]);
        let c = s[i];
        assert('\0' <= c <= '\u{7f}');
    }
    lemma_ascii_bytes_boundaries(b);
}

/// Whether `needle` occurs in `hay` as a run of consecutive bytes.
pub open spec fn contains_bytes(hay: Seq<u8>, needle: Seq<u8>) -> bool {
    exists|i: int|
        0 <= i <= hay.len() - needle.len() && #[trigger] hay.subrange(i, i + needle.len())
            == needle
}

/// The bytes of `s`, copied into a fresh vector.
pub fn string_bytes(s: &String) -> (bytes: Vec<u8>)
    ensures
        bytes@ == utf8_bytes(s@),
{
    let b = s.as_str().as_bytes();
    let mut out: Vec<u8> = Vec::with_capacity(b.len());
    push_range(&mut out, b, 0, b.len());
    assert(b@.subrange(0, b@.len() as int) =~= b@);
    out
}

/// Whether byte offset `index` of `s` is one at which `s` may be sliced.
pub fn is_boundary(s: &String, index: usize) -> (b: bool)
    ensures
        b == char_boundary(s@, index as int),
{
    s.as_str().is_char_boundary(index)
}

/// Appends `src[from..to]` to `dst`.
pub fn push_range(dst: &mut Vec<u8>, src: &[u8], from: usize, to: usize)
    requires
        from <= to <= src@.len(),
    ensures
        final(dst)@ == old(dst)@ + src@.subrange(from as int, to as int),
{
    let mut i = from;
    while i < to
        invariant
            from <= i <= to,
            to <= src@.len(),
            dst@ == old(dst)@ + src@.subrange(from as int, i as int),
        decreases to - i,
    {
        dst.push(src[i]);
        i = i + 1;
        assert(dst@ =~= old(dst)@ + src@.subrange(from as int, i as int));
    }
}

/// A buffer of `n` zero bytes.
pub fn zeros(n: usize) -> (v: Vec<u8>)
    ensures
        v@ == Seq::new(n as nat, |i: int| 0u8),
{
    let mut v: Vec<u8> = Vec::with_capacity(n);
    let mut i: usize = 0;
    while i < n
        invariant
            i <= n,
            v@ == Seq::new(i as nat, |j: int| 0u8),
        decreases n - i,
    {
        v.push(0u8);
        i = i + 1;
        assert(v@ =~= Seq::new(i as nat, |j: int| 0u8));
    }
    v
}

/// Whether `needle` occurs in `hay` starting at byte `at`.
fn matches_at(hay: &[u8], needle: &[u8], at: usize) -> (b: bool)
    requires
        at + needle@.len() <= hay@.len(),
    ensures
        b == (hay@.subrange(at as int, at + needle@.len()) == needle@),
{
    let n = needle.len();
    let hl = hay.len();
    let mut j: usize = 0;
    while j < n
        invariant
            n == needle@.len(),
            hl == hay@.len(),
            j <= n,
            at + n <= hay@.len(),
            forall|k: int| 0 <= k < j ==> hay@[at + k] == needle@[k],
        decreases n - j,
    {
        if hay[at + j] != needle[j] {
            assert(hay@.subrange(at as int, at + n)[j as int] != needle@[j as int]);
            return false;
        }
        j = j + 1;
    }
    assert(hay@.subrange(at as int, at + n) =~= needle@);
    true
}

/// Whether `needle` occurs anywhere in `hay`; an empty needle occurs in every buffer.
pub fn find_bytes(hay: &[u8], needle: &[u8]) -> (found: bool)
    ensures
        found == contains_bytes(hay@, needle@),
{
    if needle.len() > hay.len() {
        return false;
    }
    let last = hay.len() - needle.len();
    let mut i: usize = 0;
    loop
        invariant
            i <= last,
            last == hay@.len() - needle@.len(),
            forall|k: int|
                0 <= k < i ==> #[trigger] hay@.subrange(k, k + needle@.len()) != needle@,
        decreases last - i,
    {
        if matches_at(hay, needle, i) {
            return true;
        }
        if i == last {
            return false;
        }
        i = i + 1;
    }
}

/// Whether the two buffers hold the same bytes.
pub fn bytes_equal(a: &[u8], b: &[u8]) -> (eq: bool)
    ensures
        eq == (a@ == b@),
{
    if a.len() != b.len() {
        return false;
    }
    let r = matches_at(a, b, 0);
    assert(a@.subrange(0, b@.len() as int) =~= a@);
    r
}

} // verus!
