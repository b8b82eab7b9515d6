use cipher312::{Codec, Grapheme, NormalizedCiphertext, UnicodeParseError};

fn decode_v2_graphemes(input: &str) -> Vec<Grapheme> {
    let normalized = NormalizedCiphertext::new(input);
    Codec::decode_v2(&normalized)
        .expect("decode failed")
        .get_codepoints()
}

#[test]
fn test_escape_resolves_codepoint() {
    // interior "111" "111" decodes to "AA", hexadecimal 0xAA
    let normalized = NormalizedCiphertext::new("791111111791");
    let result = Codec::decode_v2(&normalized).expect("decode failed");
    assert_eq!(result.to_string(), "ª");
}

#[test]
fn test_escape_empty_interior_is_invalid_cipher() {
    // nothing between the delimiters: the inner decode fails
    let graphemes = decode_v2_graphemes("791791");
    assert_eq!(graphemes.len(), 1);
    assert!(matches!(
        graphemes[0],
        Grapheme::InvalidUnicode(UnicodeParseError::InvalidCipher)
    ));
    let normalized = NormalizedCiphertext::new("791791");
    let result = Codec::decode_v2(&normalized).expect("decode failed");
    assert_eq!(result.to_string(), "⊠");
}

#[test]
fn test_escape_surrogate_is_invalid_hexadecimal() {
    // interior decodes to "DFFF": a hexadecimal numeral, but a surrogate
    let graphemes = decode_v2_graphemes("791121123123123791");
    assert_eq!(graphemes.len(), 1);
    assert!(matches!(
        graphemes[0],
        Grapheme::InvalidUnicode(UnicodeParseError::InvalidHexadecimal)
    ));
}

#[test]
fn test_escape_nonhex_is_invalid_hexadecimal() {
    // interior decodes to "Z", which is no hexadecimal digit
    let graphemes = decode_v2_graphemes("791332791");
    assert_eq!(graphemes.len(), 1);
    assert!(matches!(
        graphemes[0],
        Grapheme::InvalidUnicode(UnicodeParseError::InvalidHexadecimal)
    ));
}

#[test]
fn test_escape_overflowing_value_is_invalid_hexadecimal() {
    // interior decodes to nine "F" digits, past the largest 32-bit value
    let mut input = String::from("791");
    for _ in 0..9 {
        input.push_str("123");
    }
    input.push_str("791");
    let graphemes = decode_v2_graphemes(&input);
    assert_eq!(graphemes.len(), 1);
    assert!(matches!(
        graphemes[0],
        Grapheme::InvalidUnicode(UnicodeParseError::InvalidHexadecimal)
    ));
}

#[test]
fn test_unknown_sequence_keeps_raw_text() {
    let graphemes = decode_v2_graphemes("41fk");
    assert_eq!(graphemes.len(), 2);
    assert!(matches!(graphemes[0], Grapheme::KnownValue('A')));
    match &graphemes[1] {
        Grapheme::UnknownSequence(raw) => assert_eq!(raw, "fk"),
        other => panic!("expected an unknown sequence, got {:?}", other),
    }
}
