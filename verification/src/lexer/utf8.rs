//! Byte offsets into UTF-8 text.
//!
//! Source text is held as `&str`, whose view is a sequence of characters,
//! while match lengths and columns count bytes. The functions here move
//! between the two: they cut a character sequence at a byte offset and say
//! when such a cut falls between two characters.

use vstd::prelude::*;
use vstd::string::*;
use vstd::utf8::*;

verus! {

/// The number of bytes that `s` takes in UTF-8.
pub open spec fn utf8_len(s: Seq<char>) -> nat {
    encode_utf8(s).len()
}

/// Whether byte offset `n` of `s` lies between two characters (or at
/// either end).
pub open spec fn on_boundary(s: Seq<char>, n: int) -> bool {
    is_char_boundary(encode_utf8(s), n)
}

/// The characters that the first `n` bytes of `s` encode.
pub open spec fn byte_take(s: Seq<char>, n: int) -> Seq<char> {
    decode_utf8(encode_utf8(s).subrange(0, n))
}

/// The characters that the bytes of `s` from offset `n` on encode.
pub open spec fn byte_skip(s: Seq<char>, n: int) -> Seq<char> {
    decode_utf8(encode_utf8(s).subrange(n, encode_utf8(s).len() as int))
}

/// Encoding distributes over concatenation.
pub proof fn lemma_encode_concat(a: Seq<char>, b: Seq<char>)
    ensures
        encode_utf8(a + b) == encode_utf8(a) + encode_utf8(b),
    decreases a.len(),
{
    if a.len() > 0 {
        lemma_encode_concat(a.drop_first(), b);
        assert((a + b).drop_first() =~= a.drop_first() + b);
    }
}

/// A boundary offset lies within the text.
pub proof fn lemma_boundary_in_range(s: Seq<char>, n: int)
    requires
        on_boundary(s, n),
    ensures
        0 <= n <= utf8_len(s),
{
    broadcast use encode_utf8_valid_utf8;
}

/// Cutting at a boundary loses nothing: the two parts are the text again,
/// and each part encodes to its share of the bytes.
pub proof fn lemma_split(s: Seq<char>, n: int)
    requires
        on_boundary(s, n),
    ensures
        0 <= n <= utf8_len(s),
        byte_take(s, n) + byte_skip(s, n) == s,
        encode_utf8(byte_take(s, n)) == encode_utf8(s).subrange(0, n),
        encode_utf8(byte_skip(s, n)) == encode_utf8(s).subrange(n, utf8_len(s) as int),
        utf8_len(byte_take(s, n)) == n,
        utf8_len(byte_skip(s, n)) == utf8_len(s) - n,
{
    broadcast use encode_utf8_valid_utf8, encode_utf8_decode_utf8;

    let bytes = encode_utf8(s);
    lemma_boundary_in_range(s, n);
    valid_utf8_split(bytes, n);
    decode_utf8_split(bytes, n);
    decode_utf8_encode_utf8(bytes.subrange(0, n));
    decode_utf8_encode_utf8(bytes.subrange(n, bytes.len() as int));
}

/// The end of a prefix is a boundary, and cutting there gives the prefix
/// and the rest.
pub proof fn lemma_prefix(a: Seq<char>, b: Seq<char>)
    ensures
        on_boundary(a + b, utf8_len(a) as int),
        byte_take(a + b, utf8_len(a) as int) == a,
        byte_skip(a + b, utf8_len(a) as int) == b,
    decreases a.len(),
{
    broadcast use encode_utf8_valid_utf8, encode_utf8_decode_utf8;

    let s = a + b;
    let bytes = encode_utf8(s);
    let n = utf8_len(a) as int;
    lemma_encode_concat(a, b);
    if a.len() > 0 {
        encode_utf8_first_scalar(s);
        encode_utf8_first_scalar(a);
        assert(s.drop_first() =~= a.drop_first() + b);
        lemma_prefix(a.drop_first(), b);
        assert(pop_first_scalar(bytes) =~= encode_utf8(s.drop_first()));
    }
    assert(bytes.subrange(0, n) =~= encode_utf8(a));
    assert(bytes.subrange(n, bytes.len() as int) =~= encode_utf8(b));
}

/// A cut past the start takes at least one character.
pub proof fn lemma_cut_progress(s: Seq<char>, n: int)
    requires
        on_boundary(s, n),
        n >= 1,
    ensures
        byte_take(s, n).len() >= 1,
        byte_skip(s, n).len() < s.len(),
{
    lemma_split(s, n);
}

/// The number of bytes that one character takes in UTF-8.
pub fn char_width(c: char) -> (w: usize)
    ensures
        w == utf8_len(seq![c]),
        1 <= w <= 4,
{
    proof {
        assert(encode_utf8(seq![c].drop_first()) =~= Seq::<u8>::empty());
    }
    let v: u32 = c as u32;
    if v <= 0x7f {
        1
    } else if v <= 0x7ff {
        2
    } else if v <= 0xffff {
        3
    } else {
        4
    }
}

/// The length of `s` in bytes.
pub fn byte_len(s: &str) -> (n: usize)
    ensures
        n == utf8_len(s@),
{
    s.as_bytes().len()
}

/// Cuts `input` in two at byte offset `n`.
pub fn split_prefix<'a>(input: &'a str, n: usize) -> (parts: (&'a str, &'a str))
    requires
        on_boundary(input@, n as int),
    ensures
        parts.0@ == byte_take(input@, n as int),
        parts.1@ == byte_skip(input@, n as int),
        parts.0@ + parts.1@ == input@,
        utf8_len(parts.0@) == n,
        utf8_len(parts.1@) == utf8_len(input@) - n,
{
    proof {
        broadcast use encode_utf8_decode_utf8;

        lemma_split(input@, n as int);
    }
    let parts = input.split_at(n);
    parts
}

} // verus!
