//! Character-level model of the analyzed text: UTF-8 widths, byte offsets of
//! character positions, byte alignment of two texts, and the CJK range test
//! used by the Chinese-aware stages.

use vstd::prelude::*;
use vstd::utf8::{char_is_scalar, encode_scalar, encode_utf8};

verus! {

/// Number of bytes the UTF-8 encoding of `c` occupies.
pub open spec fn char_width(c: char) -> int {
    encode_scalar(c as u32).len() as int
}

/// Byte offset of character position `i` in a text: the length in bytes of
/// the UTF-8 encoding of the first `i` characters.
pub open spec fn byte_index(s: Seq<char>, i: int) -> int
    recommends
        0 <= i <= s.len(),
{
    encode_utf8(s.subrange(0, i)).len() as int
}

/// Two texts are byte-aligned when they have the same length in characters
/// and corresponding characters occupy the same number of bytes, so that
/// every byte offset into one is the same byte offset into the other.
pub open spec fn aligned(a: Seq<char>, b: Seq<char>) -> bool {
    &&& a.len() == b.len()
    &&& forall|i: int| 0 <= i < a.len() ==> #[trigger] char_width(a[i]) == char_width(b[i])
}

pub proof fn lemma_char_width_range(c: char)
    ensures
        1 <= char_width(c) <= 4,
{
}

pub proof fn lemma_encode_utf8_push(s: Seq<char>, c: char)
    ensures
        encode_utf8(s.push(c)) == encode_utf8(s) + encode_scalar(c as u32),
    decreases s.len(),
{
    if s.len() == 0 {
        assert(s.push(c).drop_first() =~= s);
        assert(encode_utf8(s.push(c)) =~= encode_utf8(s) + encode_scalar(c as u32));
    } else {
        lemma_encode_utf8_push(s.drop_first(), c);
        assert(s.push(c).drop_first() =~= s.drop_first().push(c));
        assert(encode_utf8(s.push(c)) =~= encode_utf8(s) + encode_scalar(c as u32));
    }
}

pub proof fn lemma_encode_utf8_concat(a: Seq<char>, b: Seq<char>)
    ensures
        encode_utf8(a + b) == encode_utf8(a) + encode_utf8(b),
    decreases a.len(),
{
    if a.len() == 0 {
        assert(a + b =~= b);
        assert(encode_utf8(a + b) =~= encode_utf8(a) + encode_utf8(b));
    } else {
        lemma_encode_utf8_concat(a.drop_first(), b);
        assert((a + b).drop_first() =~= a.drop_first() + b);
        assert((a + b)[0] == a[0]);
        assert(encode_utf8(a + b) =~= encode_utf8(a) + encode_utf8(b));
    }
}

/// The byte offset of any character position is at most the total byte
/// length of the text.
pub proof fn lemma_byte_index_le_total(s: Seq<char>, i: int)
    requires
        0 <= i <= s.len(),
    ensures
        byte_index(s, i) <= encode_utf8(s).len(),
{
    lemma_encode_utf8_concat(s.subrange(0, i), s.subrange(i, s.len() as int));
    assert(s.subrange(0, i) + s.subrange(i, s.len() as int) =~= s);
}

pub proof fn lemma_byte_index_zero(s: Seq<char>)
    ensures
        byte_index(s, 0) == 0,
{
    assert(s.subrange(0, 0) =~= Seq::<char>::empty());
}

pub proof fn lemma_byte_index_step(s: Seq<char>, i: int)
    requires
        0 <= i < s.len(),
    ensures
        byte_index(s, i + 1) == byte_index(s, i) + char_width(s[i]),
{
    assert(s.subrange(0, i + 1) =~= s.subrange(0, i).push(s[i]));
    lemma_encode_utf8_push(s.subrange(0, i), s[i]);
}

pub proof fn lemma_aligned_byte_index(a: Seq<char>, b: Seq<char>, i: int)
    requires
        aligned(a, b),
        0 <= i <= a.len(),
    ensures
        byte_index(a, i) == byte_index(b, i),
    decreases i,
{
    if i > 0 {
        lemma_aligned_byte_index(a, b, i - 1);
        lemma_byte_index_step(a, i - 1);
        lemma_byte_index_step(b, i - 1);
    }
}

/// Number of bytes the UTF-8 encoding of `c` occupies.
pub fn char_len(c: char) -> (r: usize)
    ensures
        r == char_width(c),
{
    proof {
        char_is_scalar(c);
    }
    let u = c as u32;
    if u < 0x80 {
        1
    } else if u < 0x800 {
        2
    } else if u < 0x10000 {
        3
    } else {
        4
    }
}

/// Whether `c` lies in one of the code-point blocks treated as CJK: Han
/// ideographs, kana, Hangul, their extensions, and the neighbouring
/// punctuation and compatibility blocks.
pub open spec fn spec_is_cjk(c: char) -> bool {
    ||| 0x1100 <= c as u32 <= 0x11FF
    ||| 0x2E80 <= c as u32 <= 0x2EFF
    ||| 0x2F00 <= c as u32 <= 0x2FDF
    ||| 0x3000 <= c as u32 <= 0x303F
    ||| 0x3040 <= c as u32 <= 0x309F
    ||| 0x30A0 <= c as u32 <= 0x30FF
    ||| 0x3100 <= c as u32 <= 0x312F
    ||| 0x3130 <= c as u32 <= 0x318F
    ||| 0x3190 <= c as u32 <= 0x319F
    ||| 0x31C0 <= c as u32 <= 0x31EF
    ||| 0x31F0 <= c as u32 <= 0x31FF
    ||| 0x3200 <= c as u32 <= 0x32FF
    ||| 0x3300 <= c as u32 <= 0x33FF
    ||| 0x3400 <= c as u32 <= 0x4DBF
    ||| 0x4DC0 <= c as u32 <= 0x4DFF
    ||| 0x4E00 <= c as u32 <= 0x9FFF
    ||| 0xA960 <= c as u32 <= 0xA97F
    ||| 0xAC00 <= c as u32 <= 0xD7A3
    ||| 0xD7B0 <= c as u32 <= 0xD7FF
    ||| 0xF900 <= c as u32 <= 0xFAFF
    ||| 0xFE30 <= c as u32 <= 0xFE4F
    ||| 0xFF00 <= c as u32 <= 0xFFEF
    ||| 0x20000 <= c as u32 <= 0x2FA1F
}

/// Whether `c` belongs to a CJK code-point block.
pub fn is_cjk(c: char) -> (r: bool)
    ensures
        r == spec_is_cjk(c),
{
    let u = c as u32;
    (0x1100 <= u && u <= 0x11FF) || (0x2E80 <= u && u <= 0x2EFF) || (0x2F00 <= u && u <= 0x2FDF)
        || (0x3000 <= u && u <= 0x303F) || (0x3040 <= u && u <= 0x309F) || (0x30A0 <= u && u
        <= 0x30FF) || (0x3100 <= u && u <= 0x312F) || (0x3130 <= u && u <= 0x318F) || (0x3190 <= u
        && u <= 0x319F) || (0x31C0 <= u && u <= 0x31EF) || (0x31F0 <= u && u <= 0x31FF) || (0x3200
        <= u && u <= 0x32FF) || (0x3300 <= u && u <= 0x33FF) || (0x3400 <= u && u <= 0x4DBF) || (
    0x4DC0 <= u && u <= 0x4DFF) || (0x4E00 <= u && u <= 0x9FFF) || (0xA960 <= u && u <= 0xA97F) || (
    0xAC00 <= u && u <= 0xD7A3) || (0xD7B0 <= u && u <= 0xD7FF) || (0xF900 <= u && u <= 0xFAFF) || (
    0xFE30 <= u && u <= 0xFE4F) || (0xFF00 <= u && u <= 0xFFEF) || (0x20000 <= u && u <= 0x2FA1F)
}

} // verus!
