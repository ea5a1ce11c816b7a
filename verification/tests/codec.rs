use base64_codec::{base64_decode, base64_encode, Base64DecodeError};

fn description(error: Base64DecodeError) -> String {
    match error {
        Base64DecodeError::Base64Error(text) => text,
    }
}

#[test]
fn encode_works() {
    assert_eq!(base64_encode("test".as_bytes()), "dGVzdA==");
}

#[test]
fn decode_works() {
    let decoded_bytes = base64_decode("dGVzdA==".as_bytes()).unwrap();
    let decoded_string = String::from_utf8(decoded_bytes).unwrap();
    assert_eq!(decoded_string, "test");
}

#[test]
fn encode_empty_is_empty() {
    assert_eq!(base64_encode(&[]), "");
}

#[test]
fn decode_empty_is_empty() {
    assert_eq!(base64_decode(&[]).unwrap(), Vec::<u8>::new());
}

#[test]
fn encode_pads_by_length() {
    assert_eq!(base64_encode(b"f"), "Zg==");
    assert_eq!(base64_encode(b"fo"), "Zm8=");
    assert_eq!(base64_encode(b"foo"), "Zm9v");
    assert_eq!(base64_encode(b"foob"), "Zm9vYg==");
    assert_eq!(base64_encode(b"fooba"), "Zm9vYmE=");
    assert_eq!(base64_encode(b"foobar"), "Zm9vYmFy");
}

#[test]
fn decode_reads_padding_by_length() {
    assert_eq!(base64_decode(b"Zg==").unwrap(), b"f");
    assert_eq!(base64_decode(b"Zm8=").unwrap(), b"fo");
    assert_eq!(base64_decode(b"Zm9v").unwrap(), b"foo");
    assert_eq!(base64_decode(b"Zm9vYg==").unwrap(), b"foob");
    assert_eq!(base64_decode(b"Zm9vYmE=").unwrap(), b"fooba");
    assert_eq!(base64_decode(b"Zm9vYmFy").unwrap(), b"foobar");
}

#[test]
fn encode_uses_every_symbol() {
    let bytes: [u8; 48] = [
        0x00, 0x10, 0x83, 0x10, 0x51, 0x87, 0x20, 0x92, 0x8b, 0x30, 0xd3, 0x8f, 0x41, 0x14, 0x93,
        0x51, 0x55, 0x97, 0x61, 0x96, 0x9b, 0x71, 0xd7, 0x9f, 0x82, 0x18, 0xa3, 0x92, 0x59, 0xa7,
        0xa2, 0x9a, 0xab, 0xb2, 0xdb, 0xaf, 0xc3, 0x1c, 0xb3, 0xd3, 0x5d, 0xb7, 0xe3, 0x9e, 0xbb,
        0xf3, 0xdf, 0xbf,
    ];
    let alphabet = "ABCDEFGHIJKLMNOPQRSTUVWXYZabcdefghijklmnopqrstuvwxyz0123456789+/";
    assert_eq!(base64_encode(&bytes), alphabet);
    assert_eq!(base64_decode(alphabet.as_bytes()).unwrap(), bytes);
}

#[test]
fn encoded_length_is_four_per_three_bytes_begun() {
    let bytes = [0xa5u8; 100];
    for len in 0..=100usize {
        let text = base64_encode(&bytes[..len]);
        assert_eq!(text.len(), (len + 2) / 3 * 4);
    }
    assert_eq!(base64_encode(&bytes[..1]).len(), 4);
    assert_eq!(base64_encode(&bytes[..3]).len(), 4);
    assert_eq!(base64_encode(&bytes[..4]).len(), 8);
    assert_eq!(base64_encode(&bytes[..100]).len(), 136);
}

#[test]
fn encoded_text_is_symbols_then_padding() {
    let bytes: Vec<u8> = (0..=255u8).collect();
    for len in 0..bytes.len() {
        let text = base64_encode(&bytes[..len]);
        let pads = text.chars().rev().take_while(|c| *c == '=').count();
        assert_eq!(pads, (3 - len % 3) % 3);
        for c in text[..text.len() - pads].chars() {
            assert!(c.is_ascii_alphanumeric() || c == '+' || c == '/');
        }
    }
}

#[test]
fn round_trip_gives_the_bytes_back() {
    let bytes: Vec<u8> = (0..=255u8).chain((0..=255u8).rev()).collect();
    for len in 0..=bytes.len() {
        let text = base64_encode(&bytes[..len]);
        assert_eq!(base64_decode(text.as_bytes()).unwrap(), &bytes[..len]);
    }
}

#[test]
fn round_trip_of_every_byte_alone() {
    for byte in 0..=255u8 {
        let text = base64_encode(&[byte]);
        assert_eq!(base64_decode(text.as_bytes()).unwrap(), vec![byte]);
    }
}

#[test]
fn decode_rejects_characters_outside_the_alphabet() {
    let error = base64_decode("not valid base64!".as_bytes()).unwrap_err();
    assert_eq!(description(error), "Invalid symbol 33, offset 16.");
}

#[test]
fn decode_rejects_a_space() {
    let error = base64_decode(b"dGVz dA==").unwrap_err();
    assert_eq!(description(error), "Invalid symbol 32, offset 4.");
}

#[test]
fn decode_rejects_bytes_that_are_no_ascii() {
    let error = base64_decode(&[0x64, 0x47, 0xc3, 0xa9]).unwrap_err();
    assert_eq!(description(error), "Invalid symbol 195, offset 2.");
}

#[test]
fn decode_rejects_the_other_alphabet() {
    assert!(base64_decode(b"-_-_").is_err());
    assert_eq!(base64_decode(b"+/+/").unwrap(), vec![0xfb, 0xff, 0xbf]);
}

#[test]
fn decode_rejects_missing_padding() {
    let error = base64_decode(b"dGVzdA").unwrap_err();
    assert_eq!(description(error), "Invalid padding");
    let error = base64_decode(b"dGVzdA=").unwrap_err();
    assert_eq!(description(error), "Invalid padding");
}

#[test]
fn decode_rejects_padding_inside() {
    let error = base64_decode(b"dG=zdA==").unwrap_err();
    assert_eq!(description(error), "Invalid symbol 61, offset 2.");
    let error = base64_decode(b"dGVzdA==dGVz").unwrap_err();
    assert_eq!(description(error), "Invalid symbol 61, offset 6.");
    assert!(base64_decode(b"d===").is_err());
    assert!(base64_decode(b"====").is_err());
    assert!(base64_decode(b"dGV=dA==").is_err());
}

#[test]
fn decode_rejects_a_length_with_one_symbol_over() {
    let error = base64_decode(b"dGVzd").unwrap_err();
    assert_eq!(description(error), "Invalid input length: 5");
}

#[test]
fn decode_rejects_stray_bits_in_the_last_symbol() {
    let error = base64_decode(b"dGVzdB==").unwrap_err();
    assert_eq!(description(error), "Invalid last symbol 66, offset 5.");
    let error = base64_decode(b"Zm9vYmF=").unwrap_err();
    assert_eq!(description(error), "Invalid last symbol 70, offset 6.");
}

#[test]
fn message_puts_the_prefix_before_the_description() {
    let error = base64_decode(b"dGVzdA").unwrap_err();
    assert_eq!(error.message(), "Base64 decoding error: Invalid padding");
    let error = Base64DecodeError::Base64Error(String::from("x"));
    assert_eq!(error.message(), "Base64 decoding error: x");
    let error = Base64DecodeError::Base64Error(String::new());
    assert_eq!(error.message(), "Base64 decoding error: ");
}

#[test]
fn error_is_made_from_the_engine_error() {
    let error = Base64DecodeError::from(base64::DecodeError::InvalidByte(7, 42));
    assert_eq!(description(error), "Invalid symbol 42, offset 7.");
    let error: Base64DecodeError = base64::DecodeError::InvalidPadding.into();
    assert_eq!(error.message(), "Base64 decoding error: Invalid padding");
}

#[test]
fn same_input_gives_the_same_result() {
    let bytes = [0u8, 1, 2, 253, 254, 255, 7];
    assert_eq!(base64_encode(&bytes), base64_encode(&bytes));
    assert_eq!(base64_encode(&bytes), "AAEC/f7/Bw==");
    let good = b"AAEC/f7/Bw==";
    assert_eq!(base64_decode(good).unwrap(), base64_decode(good).unwrap());
    let bad = b"AAEC/f7/Bw=";
    let first = base64_decode(bad).unwrap_err();
    let second = base64_decode(bad).unwrap_err();
    assert_eq!(first.message(), second.message());
}

#[test]
fn error_can_be_printed_for_debugging() {
    let error = base64_decode(b"!").unwrap_err();
    assert_eq!(format!("{:?}", error), "Base64Error(\"Invalid symbol 33, offset 0.\")");
}

fn value_of(c: u8) -> Option<u8> {
    match c {
        b'A'..=b'Z' => Some(c - b'A'),
        b'a'..=b'z' => Some(c - b'a' + 26),
        b'0'..=b'9' => Some(c - b'0' + 52),
        b'+' => Some(62),
        b'/' => Some(63),
        _ => None,
    }
}

fn canonical(text: &[u8]) -> bool {
    let pads = text.iter().rev().take(2).take_while(|c| **c == b'=').count();
    let symbols = &text[..text.len() - pads];
    if text.len() % 4 != 0 || symbols.iter().any(|c| value_of(*c).is_none()) {
        return false;
    }
    match pads {
        1 => value_of(symbols[symbols.len() - 1]).unwrap() % 4 == 0,
        2 => value_of(symbols[symbols.len() - 1]).unwrap() % 16 == 0,
        _ => true,
    }
}

fn texts_of_length(chars: &[u8], len: usize) -> Vec<Vec<u8>> {
    let mut texts: Vec<Vec<u8>> = vec![Vec::new()];
    for _ in 0..len {
        let mut longer = Vec::new();
        for text in &texts {
            for c in chars {
                let mut next = text.clone();
                next.push(*c);
                longer.push(next);
            }
        }
        texts = longer;
    }
    texts
}

#[test]
fn decode_accepts_the_canonical_texts_and_no_others() {
    let chars = [b'A', b'Q', b'g', b'w', b'9', b'/', b'=', b'!'];
    let mut accepted = 0;
    for len in 0..=5 {
        for text in texts_of_length(&chars, len) {
            match base64_decode(&text) {
                Ok(bytes) => {
                    assert!(canonical(&text));
                    assert_eq!(base64_encode(&bytes).as_bytes(), &text[..]);
                    accepted += 1;
                }
                Err(_) => assert!(!canonical(&text)),
            }
        }
    }
    assert_eq!(accepted, 1 + 6 * 6 * 6 * 6 + 6 * 6 * 4 + 6 * 4);
}

#[test]
fn decode_accepts_padding_in_the_last_group_only() {
    let chars = [b'A', b'w', b'='];
    for text in texts_of_length(&chars, 8) {
        match base64_decode(&text) {
            Ok(bytes) => {
                assert!(canonical(&text));
                assert_eq!(base64_encode(&bytes).as_bytes(), &text[..]);
            }
            Err(_) => assert!(!canonical(&text)),
        }
    }
    assert_eq!(base64_decode(b"wwwwAw==").unwrap(), vec![0xc3, 0x0c, 0x30, 0x03]);
    assert_eq!(base64_decode(b"wwwwAAA=").unwrap(), vec![0xc3, 0x0c, 0x30, 0x00, 0x00]);
}
