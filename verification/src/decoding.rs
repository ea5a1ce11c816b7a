//! Which texts encode something, and what.

use vstd::prelude::*;
use crate::alphabet::{is_symbol, lemma_is_symbol, symbol_value, PAD};
use crate::encoding::{
    byte_of_digits, byte_or_zero, encoded_len, encoding, group_value, is_encoding,
    lemma_encoding_at, lemma_encoding_injective, lemma_sextet_range, lemma_symbol_count, sextet,
    symbol_count, text_of,
};

verus! {

/// The number of padding characters at the end of `text`, of which no more than two count.
pub open spec fn padding_len(text: Seq<char>) -> nat {
    if text.len() >= 1 && text[text.len() - 1] == PAD {
        if text.len() >= 2 && text[text.len() - 2] == PAD {
            2
        } else {
            1
        }
    } else {
        0
    }
}

/// Whether `text` is encoded text in its one accepted form: whole groups of four characters;
/// symbols throughout, but for one or two padding characters at the very end; and in the last
/// symbol before padding no bit set that belongs to no byte.
pub open spec fn is_canonical(text: Seq<char>) -> bool {
    let symbols = text.len() - padding_len(text);
    &&& text.len() % 4 == 0
    &&& forall|position: int| 0 <= position < symbols ==> is_symbol(#[trigger] text[position])
    &&& padding_len(text) == 1 ==> symbol_value(text[symbols - 1]) % 4 == 0
    &&& padding_len(text) == 2 ==> symbol_value(text[symbols - 1]) % 16 == 0
}

/// The six-bit value of the character at `position`, with zero for padding.
pub open spec fn digit(text: Seq<char>, position: int) -> int {
    if text[position] == PAD {
        0
    } else {
        symbol_value(text[position])
    }
}

/// The number of bytes that a canonical `text` encodes: three for each group, less one for
/// each padding character.
pub open spec fn decoded_len(text: Seq<char>) -> nat {
    (text.len() / 4 * 3 - padding_len(text)) as nat
}

/// The bytes that a canonical `text` encodes: each group of four digits to the base 64 read as
/// three bytes.
pub open spec fn decoded(text: Seq<char>) -> Seq<u8> {
    Seq::new(
        decoded_len(text),
        |index: int|
            byte_of_digits(
                digit(text, index / 3 * 4),
                digit(text, index / 3 * 4 + 1),
                digit(text, index / 3 * 4 + 2),
                digit(text, index / 3 * 4 + 3),
                index % 3,
            ) as u8,
    )
}

/// The bytes that `input` decodes to, where it holds canonical text.
pub open spec fn decoding(input: Seq<u8>) -> Option<Seq<u8>> {
    if is_canonical(text_of(input)) {
        Some(decoded(text_of(input)))
    } else {
        None
    }
}

/// In the text of one or two last bytes, the last symbol has no bit set beyond theirs.
proof fn lemma_last_digit(high: u8, middle: u8)
    by (bit_vector)
    ensures
        ({
            let one = high * 0x1_0000;
            let two = high * 0x1_0000 + middle * 0x100;
            &&& one / 0x1000 % 64 % 16 == 0int
            &&& two / 64 % 64 % 4 == 0int
        }),
{
}

/// Every encoded text is canonical.
pub proof fn lemma_encoding_is_canonical(bytes: Seq<u8>)
    ensures
        is_canonical(encoding(bytes)),
        padding_len(encoding(bytes)) == encoded_len(bytes.len()) - symbol_count(bytes.len()),
{
    let text = encoding(bytes);
    let count = symbol_count(bytes.len()) as int;
    lemma_symbol_count(bytes.len());
    assert forall|position: int| 0 <= position < text.len() implies (position < count ==> is_symbol(
        #[trigger] text[position],
    ) && text[position] != PAD) && (position >= count ==> text[position] == PAD) by {
        lemma_encoding_at(bytes, position);
        lemma_sextet_range(bytes, position);
        lemma_is_symbol(text[position]);
    }
    if bytes.len() % 3 != 0 {
        let group = bytes.len() as int / 3;
        let last = count - 1;
        lemma_encoding_at(bytes, last);
        lemma_last_digit(
            byte_or_zero(bytes, 3 * group) as u8,
            byte_or_zero(bytes, 3 * group + 1) as u8,
        );
        assert(last / 4 == group);
        assert(group_value(bytes, group) == byte_or_zero(bytes, 3 * group) * 0x1_0000
            + byte_or_zero(bytes, 3 * group + 1) * 0x100);
    }
}

/// Four digits are read back from the three bytes they make.
proof fn lemma_digits_group(first: u8, second: u8, third: u8, fourth: u8)
    by (bit_vector)
    requires
        first < 64,
        second < 64,
        third < 64,
        fourth < 64,
    ensures
        ({
            let high = first * 4 + second / 16;
            let middle = second % 16 * 16 + third / 4;
            let low = third % 4 * 64 + fourth;
            let value = high * 0x1_0000 + middle * 0x100 + low;
            &&& high < 256 && middle < 256 && low < 256
            &&& value / 0x4_0000 == first
            &&& value / 0x1000 % 64 == second
            &&& value / 64 % 64 == third
            &&& value % 64 == fourth
        }),
{
}

/// The lengths of what a canonical text encodes, and of the text of that.
proof fn lemma_decoded_len(text: Seq<char>)
    requires
        is_canonical(text),
    ensures
        encoded_len(decoded_len(text)) == text.len(),
        symbol_count(decoded_len(text)) == text.len() - padding_len(text),
        padding_len(text) > 0 ==> text.len() >= 4,
{
}

/// Every character of a canonical text has a digit, and padding stands where symbols end.
proof fn lemma_digit_range(text: Seq<char>, position: int)
    requires
        is_canonical(text),
        0 <= position < text.len(),
    ensures
        0 <= digit(text, position) < 64,
        position < text.len() - padding_len(text) ==> text[position] != PAD && digit(
            text,
            position,
        ) == symbol_value(text[position]),
        position >= text.len() - padding_len(text) ==> text[position] == PAD,
{
    lemma_is_symbol(text[position]);
}

/// The six-bit values of what a canonical text encodes are the digits of the text.
proof fn lemma_decoded_sextet(text: Seq<char>, position: int)
    requires
        is_canonical(text),
        0 <= position < text.len(),
    ensures
        sextet(decoded(text), position) == digit(text, position),
{
    let bytes = decoded(text);
    let group = position / 4;
    let start = group * 4;
    lemma_decoded_len(text);
    lemma_digit_range(text, start);
    lemma_digit_range(text, start + 1);
    lemma_digit_range(text, start + 2);
    lemma_digit_range(text, start + 3);
    let first = digit(text, start);
    let second = digit(text, start + 1);
    let third = digit(text, start + 2);
    let fourth = digit(text, start + 3);
    lemma_digits_group(first as u8, second as u8, third as u8, fourth as u8);
    assert forall|place: int| 0 <= place < 3 implies byte_or_zero(bytes, 3 * group + place)
        == byte_of_digits(first, second, third, fourth, place) by {
        let index = 3 * group + place;
        assert(index / 3 == group && index % 3 == place);
        if index < bytes.len() {
            assert(bytes[index] == byte_of_digits(first, second, third, fourth, place) as u8);
        } else {
            assert(start + 4 == text.len());
        }
    }
    assert(byte_or_zero(bytes, 3 * group) == byte_of_digits(first, second, third, fourth, 0));
    assert(byte_or_zero(bytes, 3 * group + 1) == byte_of_digits(first, second, third, fourth, 1));
    assert(byte_or_zero(bytes, 3 * group + 2) == byte_of_digits(first, second, third, fourth, 2));
}

/// Every canonical text is the text of the bytes it is decoded to.
pub proof fn lemma_canonical_is_encoding(text: Seq<char>)
    requires
        is_canonical(text),
    ensures
        encoding(decoded(text)) == text,
{
    let bytes = decoded(text);
    lemma_decoded_len(text);
    assert forall|position: int| 0 <= position < text.len() implies encoding(bytes)[position]
        == text[position] by {
        lemma_encoding_at(bytes, position);
        lemma_decoded_sextet(text, position);
        lemma_digit_range(text, position);
        lemma_is_symbol(text[position]);
    }
    assert(encoding(bytes) =~= text);
}

/// The canonical texts are the texts that encode something, and `decoded` is what they encode.
pub proof fn lemma_decoding(input: Seq<u8>)
    ensures
        is_encoding(input) <==> is_canonical(text_of(input)),
        forall|bytes: Seq<u8>| #[trigger]
            encoding(bytes) == text_of(input) ==> decoding(input) == Some(bytes),
{
    let text = text_of(input);
    if is_canonical(text) {
        lemma_canonical_is_encoding(text);
    }
    assert forall|bytes: Seq<u8>| #[trigger] encoding(bytes) == text implies decoding(input)
        == Some(bytes) by {
        lemma_encoding_is_canonical(bytes);
        lemma_canonical_is_encoding(text);
        lemma_encoding_injective(bytes, decoded(text));
    }
}

} // verus!
