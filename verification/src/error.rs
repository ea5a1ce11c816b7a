//! The one error of this library.

use vstd::prelude::*;
use vstd::string::*;
use base64::DecodeError;
use vstd::std_specs::convert::FromSpecImpl;
use crate::engine::{describe, failure_text};

verus! {

/// What `Base64DecodeError::message` puts in front of the description.
pub const MESSAGE_PREFIX: &'static str = "Base64 decoding error: ";

/// Why a text could not be decoded.
#[derive(Debug)]
pub enum Base64DecodeError {
    /// The engine rejected the text; the string is the engine's own description.
    Base64Error(String),
}

impl Base64DecodeError {
    /// The engine's description that the error carries.
    pub open spec fn description(&self) -> Seq<char> {
        match self {
            Base64DecodeError::Base64Error(text) => text@,
        }
    }

    /// The error as a line for a reader.
    pub fn message(&self) -> (text: String)
        ensures
            text@ == MESSAGE_PREFIX@ + self.description(),
    {
        let mut text = String::from_str(MESSAGE_PREFIX);
        match self {
            Base64DecodeError::Base64Error(description) => {
                text.append(description.as_str());
            },
        }
        text
    }
}

impl From<DecodeError> for Base64DecodeError {
    /// The error that carries the engine's description of `error`.
    fn from(error: DecodeError) -> (converted: Self)
        ensures
            converted.description() == failure_text(error),
    {
        Base64DecodeError::Base64Error(describe(&error))
    }
}

/// `from` is held to its own contract above: no spec function can make the string that the
/// error carries, so none stands for the whole conversion.
impl FromSpecImpl<DecodeError> for Base64DecodeError {
    open spec fn obeys_from_spec() -> bool {
        false
    }

    open spec fn from_spec(error: DecodeError) -> Self {
        arbitrary()
    }
}

} // verus!
