//! Reading characters out of UTF-8 bytes at byte offsets.
//!
//! The tokenizer moves a byte cursor over the source and always advances it
//! by the encoded length of the character it has just read. This module says
//! which character stands at a byte offset, how long its encoding is, and
//! proves that such a step leads from one character boundary to the next.

use vstd::prelude::*;
use vstd::string::StringSliceAdditionalSpecFns;
use vstd::utf8::*;

verus! {

/// The character whose encoding starts at byte `i` of `src`, or `None` where
/// `i` is the end of `src`, lies outside it or inside an encoding.
pub open spec fn char_at(src: Seq<u8>, i: int) -> Option<char> {
    if 0 <= i < src.len() && is_char_boundary(src, i) {
        Some(decode_first_scalar(src.skip(i)) as char)
    } else {
        None
    }
}

/// Number of bytes in the UTF-8 encoding of `c`.
pub open spec fn utf8_len(c: char) -> int {
    if (c as u32) < 0x80 {
        1
    } else if (c as u32) < 0x800 {
        2
    } else if (c as u32) < 0x10000 {
        3
    } else {
        4
    }
}

/// The characters with the Unicode property `White_Space`.
pub open spec fn is_space(c: char) -> bool {
    let v = c as u32;
    ||| 0x09 <= v <= 0x0d
    ||| v == 0x20
    ||| v == 0x85
    ||| v == 0xa0
    ||| v == 0x1680
    ||| 0x2000 <= v <= 0x200a
    ||| v == 0x2028
    ||| v == 0x2029
    ||| v == 0x202f
    ||| v == 0x205f
    ||| v == 0x3000
}

/// `0` to `9`.
pub open spec fn is_digit(c: char) -> bool {
    '0' <= c <= '9'
}

/// A digit of a `\xHH` escape.
pub open spec fn is_hex_digit(c: char) -> bool {
    is_digit(c) || 'a' <= c <= 'f' || 'A' <= c <= 'F'
}

/// A character that may start an identifier or keyword.
pub open spec fn is_word_start(c: char) -> bool {
    'a' <= c <= 'z' || 'A' <= c <= 'Z' || c == '_'
}

/// A character that may continue an identifier or keyword.
pub open spec fn is_word_part(c: char) -> bool {
    is_word_start(c) || is_digit(c)
}

/// Number of bytes in the UTF-8 encoding of `c`.
pub fn char_width(c: char) -> (w: u32)
    ensures
        w == utf8_len(c),
        1 <= w <= 4,
{
    let v: u32 = c as u32;
    if v < 0x80 {
        1
    } else if v < 0x800 {
        2
    } else if v < 0x10000 {
        3
    } else {
        4
    }
}

/// Whether `c` is whitespace.
pub fn char_is_space(c: char) -> (r: bool)
    ensures
        r == is_space(c),
{
    let v: u32 = c as u32;
    (0x09 <= v && v <= 0x0d) || v == 0x20 || v == 0x85 || v == 0xa0 || v == 0x1680 || (0x2000 <= v
        && v <= 0x200a) || v == 0x2028 || v == 0x2029 || v == 0x202f || v == 0x205f || v == 0x3000
}

/// Whether `c` is one of `0` to `9`.
pub fn char_is_digit(c: char) -> (r: bool)
    ensures
        r == is_digit(c),
{
    '0' <= c && c <= '9'
}

/// Whether `c` is a hexadecimal digit.
pub fn char_is_hex_digit(c: char) -> (r: bool)
    ensures
        r == is_hex_digit(c),
{
    ('0' <= c && c <= '9') || ('a' <= c && c <= 'f') || ('A' <= c && c <= 'F')
}

/// Whether `c` may start an identifier or keyword.
pub fn char_is_word_start(c: char) -> (r: bool)
    ensures
        r == is_word_start(c),
{
    ('a' <= c && c <= 'z') || ('A' <= c && c <= 'Z') || c == '_'
}

/// Whether `c` may continue an identifier or keyword.
pub fn char_is_word_part(c: char) -> (r: bool)
    ensures
        r == is_word_part(c),
{
    char_is_word_start(c) || char_is_digit(c)
}

/// The first character of `s`, read off its bytes.
pub fn first_char(s: &str) -> (r: Option<char>)
    ensures
        r == char_at(s.spec_bytes(), 0),
{
    let mut it = s.chars();
    let r = it.next();
    proof {
        broadcast use vstd::string::group_string_axioms;

        encode_utf8_valid_utf8(s@);
        assert(s.spec_bytes().skip(0) =~= s.spec_bytes());
        if s@.len() > 0 {
            encode_utf8_first_scalar(s@);
            char_u32_cast(s@[0], decode_first_scalar(s.spec_bytes()));
        }
    }
    r
}

/// The length of the encoding that starts at a boundary is the length of the
/// character that `char_at` reads there.
pub proof fn lemma_char_len(src: Seq<u8>, i: int)
    requires
        valid_utf8(src),
        char_at(src, i) is Some,
    ensures
        utf8_len(char_at(src, i).unwrap()) == length_of_first_scalar(src.skip(i)),
        valid_utf8(src.skip(i)),
{
    let t = src.skip(i);
    valid_utf8_split(src, i);
    assert(src.subrange(i, src.len() as int) =~= t);
    let c = decode_first_scalar(t) as char;
    decode_utf8_first_scalar(t);
    char_is_scalar(c);
    assert(encode_scalar(c as u32).len() == take_first_scalar(t).len());
}

/// One step of the cursor: from a boundary before a character to the
/// boundary behind it, which lies inside the buffer.
pub proof fn lemma_char_step(src: Seq<u8>, i: int)
    requires
        valid_utf8(src),
        char_at(src, i) is Some,
    ensures
        i + utf8_len(char_at(src, i).unwrap()) <= src.len(),
        is_char_boundary(src, i + utf8_len(char_at(src, i).unwrap())),
{
    let t = src.skip(i);
    lemma_char_len(src, i);
    let w = length_of_first_scalar(t);
    let rest = pop_first_scalar(t);
    assert(valid_utf8(rest));
    if i + w == src.len() {
        is_char_boundary_start_end_of_seq(src);
    } else {
        assert(rest.len() > 0);
        assert(valid_first_scalar(rest));
        assert(rest[0] == src[i + w]);
        is_char_boundary_iff_not_is_continuation_byte(src, i + w);
    }
}

/// In a buffer of ASCII bytes every byte is a character.
pub proof fn lemma_ascii(src: Seq<u8>)
    requires
        forall|i: int| 0 <= i < src.len() ==> src[i] < 0x80,
    ensures
        valid_utf8(src),
        forall|i: int| 0 <= i < src.len() ==> #[trigger] char_at(src, i) == Some(src[i] as char),
        forall|i: int| i >= src.len() ==> #[trigger] char_at(src, i) is None,
{
    assert(src.subrange(0, 0) =~= Seq::<u8>::empty());
    assert(partial_valid_utf8(src, 0));
    assert forall|i: int| 0 <= i < src.len() implies #[trigger] is_leading_byte_width_1(src[i]) by {}
    partial_valid_utf8_extend_ascii_block(src, 0, src.len() as int);
    assert(src.subrange(0, src.len() as int) =~= src);
    assert forall|i: int| 0 <= i < src.len() implies #[trigger] char_at(src, i) == Some(
        src[i] as char,
    ) by {
        is_char_boundary_iff_not_is_continuation_byte(src, i);
        let b = src[i];
        assert(src.skip(i)[0] == b);
        assert((b & 0x7f) as u32 == b as u32) by (bit_vector)
            requires
                b < 0x80,
        ;
    }
}

} // verus!
