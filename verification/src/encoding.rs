//! What the encoded text of a byte sequence is.

use vstd::prelude::*;
use crate::alphabet::{lemma_symbol_value, symbol, symbol_value, PAD};

verus! {

/// The byte at `index`, and zero past the end of `bytes`.
pub open spec fn byte_or_zero(bytes: Seq<u8>, index: int) -> int {
    if 0 <= index < bytes.len() {
        bytes[index] as int
    } else {
        0
    }
}

/// The 24-bit number that the three bytes of group `group` make, first byte highest.
pub open spec fn group_value(bytes: Seq<u8>, group: int) -> int {
    byte_or_zero(bytes, 3 * group) * 0x1_0000 + byte_or_zero(bytes, 3 * group + 1) * 0x100
        + byte_or_zero(bytes, 3 * group + 2)
}

/// The six-bit value at `position`: each group is written as four digits to the base 64, highest
/// first.
pub open spec fn sextet(bytes: Seq<u8>, position: int) -> int {
    let value = group_value(bytes, position / 4);
    if position % 4 == 0 {
        value / 0x4_0000
    } else if position % 4 == 1 {
        value / 0x1000 % 64
    } else if position % 4 == 2 {
        value / 64 % 64
    } else {
        value % 64
    }
}

/// The length of the text for `len` bytes: four characters for every three bytes begun.
pub open spec fn encoded_len(len: nat) -> nat {
    (len + 2) / 3 * 4
}

/// The number of symbols in the text for `len` bytes: one for every six bits begun.
pub open spec fn symbol_count(len: nat) -> nat {
    (len * 8 + 5) / 6
}

/// The text that encodes `bytes`: the symbols of its six-bit values, then padding up to a
/// whole group of four.
pub open spec fn encoding(bytes: Seq<u8>) -> Seq<char> {
    Seq::new(
        encoded_len(bytes.len()),
        |position: int|
            if position < symbol_count(bytes.len()) {
                symbol(sextet(bytes, position))
            } else {
                PAD
            },
    )
}

/// The bytes of `input` read as text, one character for each byte.
pub open spec fn text_of(input: Seq<u8>) -> Seq<char> {
    Seq::new(input.len(), |index: int| input[index] as char)
}

/// Whether `input` holds the text that encodes some byte sequence.
pub open spec fn is_encoding(input: Seq<u8>) -> bool {
    exists|bytes: Seq<u8>| #[trigger] encoding(bytes) == text_of(input)
}

/// Every six-bit value has a symbol.
pub(crate) proof fn lemma_sextet_range(bytes: Seq<u8>, position: int)
    requires
        0 <= position,
    ensures
        0 <= sextet(bytes, position) < 64,
{
}

/// The text and its symbols end together, or one or two padding characters apart.
pub(crate) proof fn lemma_symbol_count(len: nat)
    ensures
        symbol_count(len) <= encoded_len(len) <= symbol_count(len) + 2,
        len % 3 == 0 ==> encoded_len(len) == symbol_count(len),
        len % 3 == 1 ==> encoded_len(len) == symbol_count(len) + 2,
        len % 3 == 2 ==> encoded_len(len) == symbol_count(len) + 1,
{
}

/// What stands at `position` of the text, and the value it is read back to.
pub(crate) proof fn lemma_encoding_at(bytes: Seq<u8>, position: int)
    requires
        0 <= position < encoded_len(bytes.len()),
    ensures
        encoding(bytes).len() == encoded_len(bytes.len()),
        position < symbol_count(bytes.len()) ==> encoding(bytes)[position] == symbol(
            sextet(bytes, position),
        ) && symbol_value(encoding(bytes)[position]) == sextet(bytes, position),
        position >= symbol_count(bytes.len()) ==> encoding(bytes)[position] == PAD && symbol_value(
            encoding(bytes)[position],
        ) == -1,
{
    lemma_sextet_range(bytes, position);
    lemma_symbol_value(sextet(bytes, position));
}

/// The byte that four digits to the base 64 hold at place `place` of their group.
pub open spec fn byte_of_digits(first: int, second: int, third: int, fourth: int, place: int) -> int {
    if place == 0 {
        first * 4 + second / 16
    } else if place == 1 {
        second % 16 * 16 + third / 4
    } else {
        third % 4 * 64 + fourth
    }
}

/// Three bytes are read back from the four digits of the number they make.
proof fn lemma_group_digits(high: u8, middle: u8, low: u8)
    by (bit_vector)
    ensures
        ({
            let value = high * 0x1_0000 + middle * 0x100 + low;
            let first = value / 0x4_0000;
            let second = value / 0x1000 % 64;
            let third = value / 64 % 64;
            let fourth = value % 64;
            &&& first * 4 + second / 16 == high
            &&& second % 16 * 16 + third / 4 == middle
            &&& third % 4 * 64 + fourth == low
        }),
{
}

/// Every byte is read back from the six-bit values of its group.
pub proof fn lemma_byte_of_sextets(bytes: Seq<u8>, index: int)
    requires
        0 <= index < bytes.len(),
    ensures
        bytes[index] == byte_of_digits(
            sextet(bytes, index / 3 * 4),
            sextet(bytes, index / 3 * 4 + 1),
            sextet(bytes, index / 3 * 4 + 2),
            sextet(bytes, index / 3 * 4 + 3),
            index % 3,
        ),
{
    let group = index / 3;
    lemma_group_digits(
        byte_or_zero(bytes, 3 * group) as u8,
        byte_or_zero(bytes, 3 * group + 1) as u8,
        byte_or_zero(bytes, 3 * group + 2) as u8,
    );
    assert((group * 4) / 4 == group && (group * 4) % 4 == 0);
    assert((group * 4 + 1) / 4 == group && (group * 4 + 1) % 4 == 1);
    assert((group * 4 + 2) / 4 == group && (group * 4 + 2) % 4 == 2);
    assert((group * 4 + 3) / 4 == group && (group * 4 + 3) % 4 == 3);
}

/// Byte sequences with the same text are the same.
pub proof fn lemma_encoding_injective(first: Seq<u8>, second: Seq<u8>)
    requires
        encoding(first) == encoding(second),
    ensures
        first == second,
{
    let text = encoding(first);
    let count = symbol_count(first.len());
    lemma_symbol_count(first.len());
    lemma_symbol_count(second.len());
    assert(text.len() == encoded_len(first.len()) == encoded_len(second.len()));
    if count < symbol_count(second.len()) {
        lemma_encoding_at(first, count as int);
        lemma_encoding_at(second, count as int);
        lemma_sextet_range(second, count as int);
    }
    if symbol_count(second.len()) < count {
        lemma_encoding_at(first, symbol_count(second.len()) as int);
        lemma_encoding_at(second, symbol_count(second.len()) as int);
        lemma_sextet_range(first, symbol_count(second.len()) as int);
    }
    assert(count == symbol_count(second.len()));
    assert(first.len() == second.len());
    assert forall|position: int| 0 <= position < count implies sextet(first, position) == sextet(
        second,
        position,
    ) by {
        lemma_encoding_at(first, position);
        lemma_encoding_at(second, position);
    }
    assert forall|index: int| 0 <= index < first.len() implies first[index] == second[index] by {
        lemma_byte_of_sextets(first, index);
        lemma_byte_of_sextets(second, index);
        let start = index / 3 * 4;
        assert(start + 1 < count);
        if start + 2 >= count {
            assert(index % 3 == 0);
        }
        if start + 3 >= count {
            assert(index % 3 <= 1);
        }
    }
    assert(first =~= second);
}

} // verus!
