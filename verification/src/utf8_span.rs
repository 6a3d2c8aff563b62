//! Byte offsets into UTF-8 text, computed from character positions.
//!
//! Warning spans point into the original text as byte offsets. The text is
//! handled as a sequence of characters, so the byte offset of a character
//! position is the length of the UTF-8 encoding of the preceding characters.

use vstd::prelude::*;

use vstd::utf8::{encode_scalar, encode_utf8};

verus! {

/// The machine limit on scanned texts: the character count and the UTF-8
/// byte count both fit in a `usize`. Every text held in a real `&str`
/// satisfies it.
pub open spec fn text_fits(s: Seq<char>) -> bool {
    s.len() < usize::MAX && encode_utf8(s).len() <= usize::MAX
}

/// The byte offset of character position `i` into the UTF-8 encoding of `s`.
pub open spec fn utf8_offset(s: Seq<char>, i: int) -> int
    recommends
        0 <= i <= s.len(),
{
    encode_utf8(s.take(i)).len() as int
}

/// Encoding a sequence with one more character appends that character's
/// encoding.
pub proof fn lemma_encode_utf8_push(s: Seq<char>, c: char)
    ensures
        encode_utf8(s.push(c)) == encode_utf8(s) + encode_scalar(c as u32),
    decreases s.len(),
{
    if s.len() == 0 {
        assert(s.push(c)[0] == c);
        assert(s.push(c).drop_first() =~= s);
        assert(encode_utf8(s.push(c)) =~= encode_utf8(s) + encode_scalar(c as u32));
    } else {
        assert(s.push(c)[0] == s[0]);
        assert(s.push(c).drop_first() =~= s.drop_first().push(c));
        lemma_encode_utf8_push(s.drop_first(), c);
        assert(encode_utf8(s.push(c)) =~= encode_utf8(s) + encode_scalar(c as u32));
    }
}

/// Byte offsets grow by the width of the character passed over.
pub proof fn lemma_utf8_offset_step(s: Seq<char>, i: int)
    requires
        0 <= i < s.len(),
    ensures
        utf8_offset(s, i + 1) == utf8_offset(s, i) + encode_scalar(s[i] as u32).len(),
{
    assert(s.take(i + 1) =~= s.take(i).push(s[i]));
    lemma_encode_utf8_push(s.take(i), s[i]);
}

/// Byte offsets grow with the character position.
pub proof fn lemma_utf8_offset_mono(s: Seq<char>, i: int, j: int)
    requires
        0 <= i <= j <= s.len(),
    ensures
        utf8_offset(s, i) <= utf8_offset(s, j),
    decreases j - i,
{
    if i < j {
        lemma_utf8_offset_step(s, i);
        lemma_utf8_offset_mono(s, i + 1, j);
    }
}

/// Byte offsets never exceed the total byte length of the text.
pub proof fn lemma_utf8_offset_le(s: Seq<char>, i: int, j: int)
    requires
        0 <= i <= j <= s.len(),
    ensures
        utf8_offset(s, i) <= utf8_offset(s, j),
        utf8_offset(s, j) <= utf8_offset(s, s.len() as int),
{
    lemma_utf8_offset_mono(s, i, j);
    lemma_utf8_offset_mono(s, j, s.len() as int);
}

/// A character encodes to at most four bytes, so a text of at most a
/// quarter of the address space is always within the machine limit.
pub proof fn lemma_short_text_fits(s: Seq<char>)
    requires
        s.len() * 4 < usize::MAX,
    ensures
        text_fits(s),
        encode_utf8(s).len() <= s.len() * 4,
    decreases s.len(),
{
    if s.len() == 0 {
        assert(encode_utf8(s).len() == 0);
    } else {
        lemma_short_text_fits(s.drop_first());
        assert(encode_scalar(s[0] as u32).len() <= 4);
        assert(encode_utf8(s) == encode_scalar(s[0] as u32) + encode_utf8(s.drop_first()));
    }
}

/// The UTF-8 byte width of one character.
pub fn char_width(c: char) -> (w: usize)
    ensures
        w == encode_scalar(c as u32).len(),
{
    let u = c as u32;
    if u < 0x80 {
        1
    } else if u < 0x800 {
        2
    } else if u < 0x10000 {
        3
    } else {
        4
    }
}

/// The byte offset of character position `i` into the text `s`, whose total
/// encoded length is at most `byte_len`.
pub fn byte_offset(s: &Vec<char>, i: usize, Ghost(byte_len): Ghost<int>) -> (r: usize)
    requires
        i <= s@.len(),
        utf8_offset(s@, s@.len() as int) <= byte_len,
        byte_len <= usize::MAX,
    ensures
        r == utf8_offset(s@, i as int),
{
    let mut off: usize = 0;
    let mut k: usize = 0;
    proof {
        assert(s@.take(0) =~= Seq::<char>::empty());
    }
    while k < i
        invariant
            k <= i <= s@.len(),
            utf8_offset(s@, s@.len() as int) <= byte_len <= usize::MAX,
            off == utf8_offset(s@, k as int),
        decreases i - k,
    {
        let w = char_width(s[k]);
        proof {
            lemma_utf8_offset_step(s@, k as int);
            lemma_utf8_offset_le(s@, k + 1, k + 1);
        }
        off = off + w;
        k = k + 1;
    }
    off
}

} // verus!
