//! The calls into the `base64` crate. Nothing here is proved: each contract states what the
//! crate's standard engine does.

use vstd::prelude::*;
use base64::engine::general_purpose::STANDARD;
use base64::DecodeError;
use base64::Engine;
use crate::encoding::{encoding, is_encoding, text_of};

verus! {

/// `base64::DecodeError`, carried from the engine to the caller unopened.
#[verifier::external_type_specification]
#[verifier::external_body]
pub struct ExDecodeError(DecodeError);

/// The error with which the standard engine's `decode` rejects `input`.
pub uninterp spec fn decode_failure(input: Seq<u8>) -> DecodeError;

/// The text that `DecodeError`'s `Display` writes for `error`.
pub uninterp spec fn failure_text(error: DecodeError) -> Seq<char>;

/// `Engine::encode` of `STANDARD`. Believed: the string it returns is the padded text of
/// `input` in the standard alphabet. The crate panics only where the length of the text
/// overflows `usize`; a slice, which spans at most `isize::MAX` bytes, is never that long.
#[verifier::external_body]
pub(crate) fn standard_encode(input: &[u8]) -> (text: String)
    ensures
        text@ == encoding(input@),
{
    STANDARD.encode(input)
}

/// `Engine::decode` of `STANDARD`. Believed: it accepts exactly the texts that `encode`
/// writes (canonical padding, no stray bits in the last symbol) and returns the bytes whose
/// text `input` is; what it reports otherwise depends on `input` alone.
#[verifier::external_body]
pub(crate) fn standard_decode(input: &[u8]) -> (result: Result<Vec<u8>, DecodeError>)
    ensures
        match result {
            Ok(bytes) => encoding(bytes@) == text_of(input@),
            Err(error) => !is_encoding(input@) && error == decode_failure(input@),
        },
{
    STANDARD.decode(input)
}

/// `to_string` on a `DecodeError`, that is its `Display`. Believed: the text depends on the
/// error alone.
#[verifier::external_body]
pub(crate) fn describe(error: &DecodeError) -> (text: String)
    ensures
        text@ == failure_text(*error),
{
    error.to_string()
}

} // verus!
