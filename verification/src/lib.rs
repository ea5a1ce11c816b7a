//! Standard Base64 (RFC 4648, padded) between bytes and text.

pub mod alphabet;
pub mod codec;
pub mod decoding;
pub mod encoding;
pub mod engine;
pub mod error;

pub use codec::{base64_decode, base64_encode};
pub use error::Base64DecodeError;
