//! The base64url codec and the constant-time comparison.
use kirino::base64url::{constant_time_eq, decode, encode, Base64UrlDecodeError};

#[test]
fn test_constant_time_eq_equal() {
    assert!(constant_time_eq(b"hello", b"hello"));
}

#[test]
fn test_constant_time_eq_not_equal() {
    assert!(!constant_time_eq(b"hello", b"world"));
}

#[test]
fn test_constant_time_eq_different_lengths() {
    assert!(!constant_time_eq(b"ab", b"abc"));
}

#[test]
fn test_constant_time_eq_empty() {
    assert!(constant_time_eq(b"", b""));
}

// RFC 4648 section 10 known-answer vectors, base64url variant (unpadded).
#[test]
fn base64url_encode_rfc4648_vectors() {
    assert_eq!(encode(b""), "");
    assert_eq!(encode(b"f"), "Zg");
    assert_eq!(encode(b"fo"), "Zm8");
    assert_eq!(encode(b"foo"), "Zm9v");
    assert_eq!(encode(b"foob"), "Zm9vYg");
    assert_eq!(encode(b"fooba"), "Zm9vYmE");
    assert_eq!(encode(b"foobar"), "Zm9vYmFy");
    // Alphabet checks: 62 -> '-', 63 -> '_', never '+' or '/' or '='.
    assert_eq!(encode(&[0xfb, 0xff]), "-_8");
    assert_eq!(encode(&[0xfb, 0xff, 0xfe, 0xfd]), "-__-_Q");
}

// RFC 4648 section 10 known-answer vectors, decode direction.
#[test]
fn base64url_decode_rfc4648_vectors() {
    assert_eq!(decode("").unwrap(), b"");
    assert_eq!(decode("Zg").unwrap(), b"f");
    assert_eq!(decode("Zm8").unwrap(), b"fo");
    assert_eq!(decode("Zm9v").unwrap(), b"foo");
    assert_eq!(decode("Zm9vYg").unwrap(), b"foob");
    assert_eq!(decode("Zm9vYmE").unwrap(), b"fooba");
    assert_eq!(decode("Zm9vYmFy").unwrap(), b"foobar");
    // Trailing padding tolerated though never required.
    assert_eq!(decode("Zg==").unwrap(), b"f");
    assert_eq!(decode("Zm8=").unwrap(), b"fo");
    assert_eq!(decode("Zm9v").unwrap(), b"foo");
}

#[test]
fn base64url_decode_rejects_malformed() {
    assert_eq!(decode("A").unwrap_err(), Base64UrlDecodeError::InvalidLength);
    assert_eq!(decode("Zm9=").unwrap_err(), Base64UrlDecodeError::NonCanonicalTrailingBits);
    assert_eq!(
        decode("Zm$v").unwrap_err(),
        Base64UrlDecodeError::InvalidByte { index: 2, byte: b'$' }
    );
    // Standard-alphabet symbols are invalid in the URL-safe form.
    assert!(decode("+/8A").is_err());
    // No whitespace tolerance.
    assert!(decode("Zm9 vYg").is_err());
}

#[test]
fn base64url_roundtrip_all_lengths() {
    for len in 0..=64 {
        let data: Vec<u8> = (0..len).map(|i| (i * 7 + 13) as u8).collect();
        let encoded = encode(&data);
        assert!(!encoded.contains('='), "unpadded for len={len}");
        assert_eq!(decode(&encoded).unwrap(), data, "roundtrip failed for len={len}");
    }
}

#[test]
fn every_byte_survives_the_round_trip() {
    for b in 0..=255u8 {
        assert_eq!(decode(&encode(&[b])).unwrap(), vec![b]);
        assert_eq!(decode(&encode(&[b, 255 - b])).unwrap(), vec![b, 255 - b]);
    }
}

#[test]
fn decoded_text_is_the_encoding_of_its_bytes() {
    for text in ["Zg", "Zm8", "-_8", "AAAA", "_-_-"] {
        assert_eq!(encode(&decode(text).unwrap()), text);
    }
}

#[test]
fn codec_failures_say_why() {
    assert_eq!(
        decode("A").unwrap_err().message(),
        "invalid base64url length (len % 4 == 1)"
    );
    assert_eq!(
        decode("Zm$v").unwrap_err().message(),
        "invalid base64url byte 0x24 at index 2"
    );
    assert_eq!(
        decode("Zm9=").unwrap_err().message(),
        "non-canonical trailing bits in base64url input"
    );
}

#[test]
fn texts_of_equal_length_decode_apart() {
    assert_eq!(decode("====").unwrap(), b"");
    assert_eq!(decode("A===").unwrap_err(), Base64UrlDecodeError::InvalidLength);
    assert_eq!(decode("AAAA====").unwrap(), [0, 0, 0]);
    assert_eq!(decode("AAAAA===").unwrap_err(), Base64UrlDecodeError::InvalidLength);
    assert_eq!(decode("B===").unwrap_err(), Base64UrlDecodeError::NonCanonicalTrailingBits);
    assert_eq!(decode("$===").unwrap_err(), Base64UrlDecodeError::InvalidByte { index: 0, byte: b'$' });
}

#[test]
fn signs_at_the_end_are_ignored_by_the_round_trip() {
    for len in 0..=9 {
        let data: Vec<u8> = (0..len).map(|i| (i * 31 + 200) as u8).collect();
        for signs in 0..=4 {
            let text = format!("{}{}", encode(&data), "=".repeat(signs));
            if text.len() % 4 == 1 {
                assert_eq!(decode(&text).unwrap_err(), Base64UrlDecodeError::InvalidLength);
            } else {
                assert_eq!(decode(&text).unwrap(), data);
            }
        }
    }
    assert_eq!(decode("Zg==").unwrap(), b"f");
    assert_eq!(decode("Zm8=").unwrap(), b"fo");
}
