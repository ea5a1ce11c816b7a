//! Encoding and decoding.

use vstd::prelude::*;
use vstd::utf8::{encode_utf8, is_ascii_chars, is_ascii_chars_encode_utf8};
use crate::alphabet::{is_symbol, lemma_is_symbol, PAD};
use crate::decoding::{
    decoding, is_canonical, lemma_decoding, lemma_encoding_is_canonical, padding_len,
};
use crate::encoding::{encoding, text_of};
use crate::engine::{decode_failure, failure_text, standard_decode, standard_encode};
use crate::error::Base64DecodeError;

verus! {

/// Encodes `input` as padded text in the standard alphabet. Every input has a text, of four
/// characters for every three bytes begun.
pub fn base64_encode(input: &[u8]) -> (text: String)
    ensures
        text@ == encoding(input@),
        text@.len() == (input@.len() + 2) / 3 * 4,
        is_canonical(text@),
{
    let text = standard_encode(input);
    proof {
        lemma_encoding_is_canonical(input@);
    }
    text
}

/// Decodes the text that the bytes of `input` spell. The result is the bytes that the text
/// encodes where it is canonical, and otherwise the error that carries the engine's
/// description of what is wrong with it.
pub fn base64_decode(input: &[u8]) -> (result: Result<Vec<u8>, Base64DecodeError>)
    ensures
        result is Ok <==> is_canonical(text_of(input@)),
        match result {
            Ok(bytes) => decoding(input@) == Some(bytes@) && encoding(bytes@) == text_of(input@),
            Err(error) => decoding(input@) is None && error.description() == failure_text(
                decode_failure(input@),
            ),
        },
{
    proof {
        lemma_decoding(input@);
    }
    match standard_decode(input) {
        Ok(bytes) => Ok(bytes),
        Err(error) => Err(Base64DecodeError::from(error)),
    }
}

/// Round trip: the bytes of the text that encodes `bytes` decode to `bytes`. The bytes of a
/// text are what `str::as_bytes` hands out, its UTF-8 form, which for encoded text spells the
/// text back character by character.
pub proof fn lemma_round_trip(bytes: Seq<u8>)
    ensures
        text_of(encode_utf8(encoding(bytes))) == encoding(bytes),
        decoding(encode_utf8(encoding(bytes))) == Some(bytes),
{
    let text = encoding(bytes);
    let input = encode_utf8(text);
    lemma_encoding_is_canonical(bytes);
    assert forall|position: int| 0 <= position < text.len() implies '\0' <= #[trigger] text[position]
        <= '\u{7f}' by {
        lemma_is_symbol(text[position]);
    }
    assert(is_ascii_chars(text));
    is_ascii_chars_encode_utf8(text);
    assert forall|position: int| 0 <= position < text.len() implies text_of(input)[position]
        == text[position] by {
        assert(input[position] == text[position] as u8);
    }
    assert(text_of(input) =~= text);
    lemma_decoding(input);
}

/// Determinism: inputs that hold the same bytes have the same text, and the same outcome of
/// decoding, down to the description of a failure.
pub proof fn lemma_same_input_same_result(first: Seq<u8>, second: Seq<u8>)
    requires
        first =~= second,
    ensures
        encoding(first) == encoding(second),
        decoding(first) == decoding(second),
        failure_text(decode_failure(first)) == failure_text(decode_failure(second)),
{
}

/// What is never decoded: a text whose length is no multiple of four, one that holds a
/// character that is neither a symbol nor padding, and one with padding before its last two
/// characters.
pub proof fn lemma_rejected(input: Seq<u8>)
    ensures
        input.len() % 4 != 0 ==> decoding(input) is None,
        (exists|position: int|
            0 <= position < input.len() && !is_symbol(#[trigger] text_of(input)[position])
                && text_of(input)[position] != PAD) ==> decoding(input) is None,
        (exists|position: int|
            0 <= position < input.len() - 2 && #[trigger] text_of(input)[position] == PAD)
            ==> decoding(input) is None,
{
    let text = text_of(input);
    assert forall|position: int|
        0 <= position < text.len() - padding_len(text) && is_symbol(
            #[trigger] text[position],
        ) implies text[position] != PAD by {
        lemma_is_symbol(text[position]);
    }
}

} // verus!
