use cipher312::{Codec, DecodeResult, NormalizedCiphertext};

// text-only cases that both decoders must agree on
const SHARED_TESTS: &[(&str, &str)] = &[
    ("54634341653520343124126312", "MISSION START"),
    ("1321521321353", "HELLO"),
    ("31561652412661031323424431215", "TRINARY UPDATE"),
    ("3515413121321526031323424431215", "WEATHER UPDATE"),
    ("3121534312", "TEST"),
    (
        "16555152604353261505441652312155241524315",
        "INNER CORE MAINTENANCE",
    ),
    (
        "2656161216521504321315412641524315012443124104412345326231312165352",
        "ROUTINE CLEARANCE DATA ABSORPTION",
    ),
    (
        "26153431326261546121512104423123154612165352",
        "RESURRECTED AFFECTION",
    ),
    ("31561652412661031323424431215121", "TRINARY UPDATED"),
    ("41fk", "A¿fk?"),
];

fn run_test(
    input: &str,
    f: fn(i: &NormalizedCiphertext) -> Result<DecodeResult, cipher312::DecodeError>,
) -> DecodeResult {
    let normalized = NormalizedCiphertext::new(input);
    let result = match f(&normalized) {
        Ok(result) => result,
        Err(err) => panic!("Deciphering failed for input: {}, {:?}", input, err),
    };
    result
}

#[test]
fn test_decipher_v1() {
    for &(input, expected) in SHARED_TESTS {
        assert_eq!(run_test(input, Codec::decode_v1).to_string(), expected);
    }
}

#[test]
fn test_decipher_v2() {
    let cases = &[("794842328138412791", "👻")];
    for (input, expected) in [SHARED_TESTS, cases].concat() {
        assert_eq!(run_test(input, Codec::decode_v2).to_string(), expected);
    }
}

#[test]
fn test_combined_decode_matches_v2() {
    for &(input, expected) in SHARED_TESTS {
        assert_eq!(run_test(input, Codec::decode).to_string(), expected);
        assert_eq!(
            run_test(input, Codec::decode).to_string(),
            run_test(input, Codec::decode_v2).to_string()
        );
    }
}

#[test]
fn test_empty_input_fails() {
    let empty = NormalizedCiphertext::new("");
    assert!(matches!(
        Codec::decode_v1(&empty),
        Err(cipher312::DecodeError::EmptyInput)
    ));
    assert!(matches!(
        Codec::decode_v2(&empty),
        Err(cipher312::DecodeError::EmptyInput)
    ));
    assert!(matches!(
        Codec::decode(&empty),
        Err(cipher312::DecodeError::EmptyInput)
    ));
}

#[test]
fn test_rendering_deterministic() {
    let result = run_test("1321521321353", Codec::decode_v2);
    assert_eq!(result.to_string(), result.to_string());
    assert_eq!(result.to_string(), "HELLO");
}

#[test]
fn test_malformed_escape_is_total() {
    // opening delimiter with no closing one before input end: the escape
    // recognizer reports no match and the matcher falls back
    let result = run_test("79123", Codec::decode_v2);
    assert_eq!(result.to_string(), "¿791?¿23?");
}
