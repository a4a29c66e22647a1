//! How the characters of a text and the bytes of its UTF-8 encoding correspond.

use vstd::prelude::*;
use vstd::utf8::*;

verus! {

/// The encoding of two texts joined is the two encodings joined.
pub proof fn lemma_encode_concat(front: Seq<char>, back: Seq<char>)
    ensures
        encode_utf8(front + back) == encode_utf8(front) + encode_utf8(back),
    decreases front.len(),
{
    if front.len() > 0 {
        lemma_encode_concat(front.drop_first(), back);
        assert((front + back).drop_first() =~= front.drop_first() + back);
    }
}

/// The bytes from a character boundary on, and the bytes before it, decode to the
/// characters of the text after and before some index.
pub proof fn lemma_split_at_boundary(chars: Seq<char>, at: int) -> (index: int)
    requires
        is_char_boundary(encode_utf8(chars), at),
    ensures
        0 <= index <= chars.len(),
        0 <= at <= encode_utf8(chars).len(),
        encode_utf8(chars.take(index)) == encode_utf8(chars).subrange(0, at),
        encode_utf8(chars.skip(index)) == encode_utf8(chars).subrange(
            at,
            encode_utf8(chars).len() as int,
        ),
{
    let bytes = encode_utf8(chars);
    encode_utf8_valid_utf8(chars);
    encode_utf8_decode_utf8(chars);
    lemma_boundary_in_range(bytes, at);
    let front = bytes.subrange(0, at);
    let back = bytes.subrange(at, bytes.len() as int);
    valid_utf8_split(bytes, at);
    decode_utf8_split(bytes, at);
    decode_utf8_encode_utf8(front);
    decode_utf8_encode_utf8(back);
    let index = decode_utf8(front).len() as int;
    assert(chars.take(index) =~= decode_utf8(front));
    assert(chars.skip(index) =~= decode_utf8(back));
    index
}

/// A character boundary lies within the bytes.
proof fn lemma_boundary_in_range(bytes: Seq<u8>, at: int)
    requires
        valid_utf8(bytes),
        is_char_boundary(bytes, at),
    ensures
        0 <= at <= bytes.len(),
{
}

/// A byte below 128 in the encoding of a text is the whole encoding of one character
/// of the text, which has the byte's value. The bytes before it encode the characters
/// before that character, and the bytes after it those after it.
pub proof fn lemma_ascii_byte_is_char(chars: Seq<char>, at: int) -> (index: int)
    requires
        0 <= at < encode_utf8(chars).len(),
        encode_utf8(chars)[at] < 0x80,
    ensures
        0 <= index < chars.len(),
        chars[index] as u32 == encode_utf8(chars)[at],
        is_char_boundary(encode_utf8(chars), at),
        encode_utf8(chars.take(index)) == encode_utf8(chars).subrange(0, at),
        encode_utf8(chars.skip(index + 1)) == encode_utf8(chars).subrange(
            at + 1,
            encode_utf8(chars).len() as int,
        ),
{
    let bytes = encode_utf8(chars);
    encode_utf8_valid_utf8(chars);
    is_char_boundary_iff_not_is_continuation_byte(bytes, at);
    let index = lemma_split_at_boundary(chars, at);
    let back = chars.skip(index);
    assert(encode_utf8(back).len() > 0);
    encode_utf8_first_scalar(back);
    let byte = encode_utf8(back)[0];
    assert(byte & 0x7F == byte) by (bit_vector)
        requires
            byte < 0x80,
    ;
    assert(back.drop_first() =~= chars.skip(index + 1));
    assert(encode_utf8(back.drop_first()) =~= encode_utf8(back).subrange(
        1,
        encode_utf8(back).len() as int,
    ));
    assert(encode_utf8(back).subrange(1, encode_utf8(back).len() as int) =~= bytes.subrange(
        at + 1,
        bytes.len() as int,
    ));
    index
}

/// A character below 128 is encoded as the one byte of its value. That byte stands
/// after the encoding of the characters before it, and the encoding of the characters
/// after it follows.
pub proof fn lemma_ascii_char_is_byte(chars: Seq<char>, index: int) -> (at: int)
    requires
        0 <= index < chars.len(),
        (chars[index] as u32) < 0x80,
    ensures
        0 <= at < encode_utf8(chars).len(),
        encode_utf8(chars)[at] == chars[index] as u32,
        encode_utf8(chars.take(index)) == encode_utf8(chars).subrange(0, at),
        encode_utf8(chars.skip(index + 1)) == encode_utf8(chars).subrange(
            at + 1,
            encode_utf8(chars).len() as int,
        ),
{
    let front = chars.take(index);
    let back = chars.skip(index);
    let scalar = chars[index] as u32;
    let at = encode_utf8(front).len() as int;
    assert(chars =~= front + back);
    lemma_encode_concat(front, back);
    assert(scalar & 0x7F == scalar) by (bit_vector)
        requires
            scalar < 0x80,
    ;
    assert(back.drop_first() =~= chars.skip(index + 1));
    assert(encode_utf8(chars).subrange(at + 1, encode_utf8(chars).len() as int) =~= encode_utf8(
        back.drop_first(),
    ));
    at
}

/// Texts with the same encoding are the same text.
pub proof fn lemma_same_encoding_same_text(one: Seq<char>, other: Seq<char>)
    requires
        encode_utf8(one) == encode_utf8(other),
    ensures
        one == other,
{
    encode_utf8_decode_utf8(one);
    encode_utf8_decode_utf8(other);
}

/// Where valid bytes begin with the encoding of `chars`, that encoding ends at a
/// character boundary.
pub proof fn lemma_encoded_prefix_ends_at_boundary(bytes: Seq<u8>, chars: Seq<char>)
    requires
        valid_utf8(bytes),
        encode_utf8(chars).len() <= bytes.len(),
        bytes.subrange(0, encode_utf8(chars).len() as int) == encode_utf8(chars),
    ensures
        is_char_boundary(bytes, encode_utf8(chars).len() as int),
    decreases chars.len(),
{
    let prefix = encode_utf8(chars);
    if chars.len() > 0 {
        encode_utf8_first_scalar(chars);
        let width = length_of_first_scalar(prefix);
        let rest = chars.drop_first();
        assert(pop_first_scalar(bytes).subrange(0, encode_utf8(rest).len() as int) =~= encode_utf8(
            rest,
        )) by {
            assert forall|i: int| 0 <= i < encode_utf8(rest).len() implies pop_first_scalar(
                bytes,
            )[i] == encode_utf8(rest)[i] by {
                assert(bytes[width + i] == prefix[width + i]);
            }
        }
        lemma_encoded_prefix_ends_at_boundary(pop_first_scalar(bytes), rest);
    }
}

/// The encoding of the first `index` characters of a text ends at a character
/// boundary of the text's encoding, and the encoding of the other characters follows.
pub proof fn lemma_char_index_is_boundary(chars: Seq<char>, index: int) -> (at: int)
    requires
        0 <= index <= chars.len(),
    ensures
        at == encode_utf8(chars.take(index)).len(),
        is_char_boundary(encode_utf8(chars), at),
        encode_utf8(chars.take(index)) == encode_utf8(chars).subrange(0, at),
        encode_utf8(chars.skip(index)) == encode_utf8(chars).subrange(
            at,
            encode_utf8(chars).len() as int,
        ),
{
    let front = chars.take(index);
    let back = chars.skip(index);
    let at = encode_utf8(front).len() as int;
    assert(chars =~= front + back);
    lemma_encode_concat(front, back);
    encode_utf8_valid_utf8(chars);
    assert(encode_utf8(chars).subrange(0, at) =~= encode_utf8(front));
    lemma_encoded_prefix_ends_at_boundary(encode_utf8(chars), front);
    at
}

} // verus!
