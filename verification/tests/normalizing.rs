use cipher312::{Mappings, NormalizedCiphertext, SymbolMapping};

#[test]
fn test_normalizer_expands_shorthand() {
    let normalized = NormalizedCiphertext::new("41fk");
    assert_eq!(normalized.text(), "111fk");
    let pairs = NormalizedCiphertext::new("456");
    assert_eq!(pairs.text(), "112233");
}

#[test]
fn test_normalizer_is_idempotent() {
    let once = NormalizedCiphertext::new("54634341653520343124126312");
    let twice = NormalizedCiphertext::new(once.text());
    assert_eq!(once.text(), twice.text());

    let empty = NormalizedCiphertext::new("");
    assert_eq!(empty.text(), "");
}

#[test]
fn test_generate_variants() {
    let kvs = vec![
        SymbolMapping { pattern: "111".chars().collect(), target: 'A' },
        SymbolMapping { pattern: "112".chars().collect(), target: 'B' },
    ];
    let mappings = Mappings::new(&kvs);
    let chars: Vec<char> = "4114".chars().collect();
    let parsed = mappings.decode_all(&chars);
    assert_eq!(parsed.to_string(), "AA")
}
