//! Facts about UTF-8 byte sequences that the text cursor rests on.

use vstd::prelude::*;
use vstd::utf8::*;

verus! {

/// True when `byte` starts the encoding of a scalar value, that is when it
/// is no continuation byte.
pub open spec fn is_scalar_leading(byte: u8) -> bool {
    !is_continuation_byte(byte)
}

/// Tells whether `byte` is scalar-leading: read as a signed 8-bit value it is
/// at least -64.
pub fn leads_scalar(byte: u8) -> (r: bool)
    ensures
        r == is_scalar_leading(byte),
{
    let signed: i8 = #[verifier::truncate] (byte as i8);
    assert(signed >= -0x40i8 <==> !(0x80u8 <= byte <= 0xbfu8)) by (bit_vector)
        requires
            signed == byte as i8,
    ;
    signed >= -0x40
}

/// The number of scalar-leading bytes in `bytes`.
pub open spec fn leading_count(bytes: Seq<u8>) -> nat
    decreases bytes.len(),
{
    if bytes.len() == 0 {
        0
    } else {
        leading_count(bytes.drop_last()) + if is_scalar_leading(bytes.last()) {
            1nat
        } else {
            0nat
        }
    }
}

/// The number of bytes that the UTF-8 encoding of `c` takes.
pub open spec fn scalar_width(c: char) -> nat {
    encode_scalar(c as u32).len()
}

/// Every scalar value is encoded in one to four bytes.
pub proof fn lemma_scalar_width_bounds(c: char)
    ensures
        1 <= scalar_width(c) <= 4,
{
}

/// The encoding of a non-empty text starts with the encoding of its first
/// scalar value, followed by the encoding of the rest.
pub proof fn lemma_encode_first(chars: Seq<char>)
    requires
        chars.len() > 0,
    ensures
        valid_utf8(encode_utf8(chars)),
        valid_first_scalar(encode_utf8(chars)),
        length_of_first_scalar(encode_utf8(chars)) == scalar_width(chars[0]),
        encode_utf8(chars).len() == scalar_width(chars[0]) + encode_utf8(chars.drop_first()).len(),
        pop_first_scalar(encode_utf8(chars)) == encode_utf8(chars.drop_first()),
        1 <= scalar_width(chars[0]) <= 4,
{
    encode_utf8_valid_utf8(chars);
    encode_utf8_first_scalar(chars);
    assert(pop_first_scalar(encode_utf8(chars)) =~= encode_utf8(chars.drop_first()));
}

/// Within a non-empty text, the first offset after 0 that is a character
/// boundary is the width of the first scalar value.
pub proof fn lemma_first_boundary(chars: Seq<char>)
    requires
        chars.len() > 0,
    ensures
        is_char_boundary(encode_utf8(chars), scalar_width(chars[0]) as int),
        forall|k: int|
            0 < k < scalar_width(chars[0]) ==> !is_char_boundary(encode_utf8(chars), k),
{
    lemma_encode_first(chars);
    reveal_with_fuel(is_char_boundary, 2);
}

/// Two texts with the same encoding are the same text.
pub proof fn lemma_encode_injective(a: Seq<char>, b: Seq<char>)
    requires
        encode_utf8(a) == encode_utf8(b),
    ensures
        a == b,
{
    encode_utf8_decode_utf8(a);
    encode_utf8_decode_utf8(b);
}

/// The leading bytes of a concatenation are those of its two parts.
pub proof fn lemma_leading_count_concat(a: Seq<u8>, b: Seq<u8>)
    ensures
        leading_count(a + b) == leading_count(a) + leading_count(b),
    decreases b.len(),
{
    if b.len() == 0 {
        assert(a + b =~= a);
    } else {
        assert((a + b).drop_last() =~= a + b.drop_last());
        lemma_leading_count_concat(a, b.drop_last());
    }
}

/// The encoding of one scalar value holds exactly one scalar-leading byte.
pub proof fn lemma_leading_count_scalar(c: char)
    ensures
        leading_count(encode_scalar(c as u32)) == 1,
{
    let chars = seq![c];
    lemma_encode_first(chars);
    let bytes = encode_scalar(c as u32);
    assert(encode_utf8(chars.drop_first()) =~= Seq::<u8>::empty());
    assert(encode_utf8(chars) =~= bytes);
    reveal_with_fuel(leading_count, 5);
}

/// The encoding of a text holds as many scalar-leading bytes as the text
/// holds scalar values.
pub proof fn lemma_leading_count_encode(chars: Seq<char>)
    ensures
        leading_count(encode_utf8(chars)) == chars.len(),
    decreases chars.len(),
{
    if chars.len() > 0 {
        lemma_leading_count_scalar(chars[0]);
        lemma_leading_count_concat(encode_scalar(chars[0] as u32), encode_utf8(chars.drop_first()));
        lemma_leading_count_encode(chars.drop_first());
    }
}

/// A text of `n` scalar values is encoded in at least `n` and at most `4 * n`
/// bytes.
pub proof fn lemma_encode_len_bounds(chars: Seq<char>)
    ensures
        chars.len() <= encode_utf8(chars).len() <= 4 * chars.len(),
    decreases chars.len(),
{
    if chars.len() > 0 {
        lemma_scalar_width_bounds(chars[0]);
        lemma_encode_len_bounds(chars.drop_first());
    }
}

} // verus!
