//! Tests of the deterministic field serialization.

use wallet_kv::codec::{decode_fields, digits_string, encode_fields, parse_u64_str};

#[test]
fn encode_fields_exact_shape() {
    let fields = vec!["ab".to_string(), "c".to_string()];
    assert_eq!(encode_fields(&fields), "2:ab1:c");
}

#[test]
fn encode_empty_field_list_is_empty() {
    let fields: Vec<String> = Vec::new();
    assert_eq!(encode_fields(&fields), "");
    assert_eq!(decode_fields("").unwrap(), fields);
}

#[test]
fn fields_round_trip_including_unicode_and_separators() {
    let fields = vec![
        "".to_string(),
        "héllo → wörld".to_string(),
        "12:34:56".to_string(),
        "0:".to_string(),
    ];
    let text = encode_fields(&fields);
    assert_eq!(decode_fields(&text).unwrap(), fields);
}

#[test]
fn malformed_field_text_is_rejected() {
    assert!(decode_fields("junk").is_none());
    assert!(decode_fields("5:ab").is_none()); // length overruns the text
    assert!(decode_fields("2ab").is_none()); // missing separator
    assert!(decode_fields(":ab").is_none()); // missing length
}

#[test]
fn digits_string_exact_values() {
    assert_eq!(digits_string(0), "0");
    assert_eq!(digits_string(7), "7");
    assert_eq!(digits_string(12345), "12345");
    assert_eq!(digits_string(u64::MAX), "18446744073709551615");
}

#[test]
fn parse_u64_exact_values_and_limits() {
    assert_eq!(parse_u64_str("0"), Some(0));
    assert_eq!(parse_u64_str("12345"), Some(12345));
    assert_eq!(parse_u64_str("18446744073709551615"), Some(u64::MAX));
    assert_eq!(parse_u64_str("18446744073709551616"), None); // one past the top
    assert_eq!(parse_u64_str("99999999999999999999"), None);
    assert_eq!(parse_u64_str(""), None);
    assert_eq!(parse_u64_str("12a"), None);
}
