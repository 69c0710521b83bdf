use kc_core::hashing::{blake3_hex_prefixed, validate_blake3_prefixed};
use kc_core::json::{canonical_string, hash_canonical, to_canonical_bytes, JsonNumber, JsonValue};

fn obj(entries: Vec<(&str, JsonValue)>) -> JsonValue {
    JsonValue::Object(entries.into_iter().map(|(k, v)| (k.to_string(), v)).collect())
}

fn s(x: &str) -> JsonValue {
    JsonValue::Str(x.to_string())
}

fn num(i: i64) -> JsonValue {
    if i < 0 {
        JsonValue::Number(JsonNumber::NegInt(i))
    } else {
        JsonValue::Number(JsonNumber::PosInt(i as u64))
    }
}

#[test]
fn blake3_hash_of_abc_matches_known_digest() {
    assert_eq!(
        blake3_hex_prefixed(b"abc"),
        "blake3:6437b3ac38465133ffb63b75273a8db548c558465d79db03fd359c6cd5bd9d85"
    );
}

#[test]
fn blake3_hash_agrees_with_the_blake3_crate() {
    let data = b"knowledge vault bytes";
    let expected = format!("blake3:{}", blake3::hash(data).to_hex());
    assert_eq!(blake3_hex_prefixed(data), expected);
}

#[test]
fn written_hashes_validate() {
    let h = blake3_hex_prefixed(b"some object");
    assert!(validate_blake3_prefixed(&h).is_ok());
}

#[test]
fn hashes_without_prefix_are_refused_as_format_errors() {
    for bad in ["", "sha256:6437b3ac38465133ffb63b75273a8db548c558465d79db03fd359c6cd5bd9d85", "blake3"] {
        let err = validate_blake3_prefixed(bad).unwrap_err();
        assert_eq!(err.code, "KC_HASH_INVALID_FORMAT");
    }
}

#[test]
fn prefixed_hashes_with_bad_digits_are_refused_as_decode_errors() {
    for bad in [
        "blake3:",
        "blake3:6437B3AC38465133FFB63B75273A8DB548C558465D79DB03FD359C6CD5BD9D85",
        "blake3:6437b3ac",
    ] {
        let err = validate_blake3_prefixed(bad).unwrap_err();
        assert_eq!(err.code, "KC_HASH_DECODE_FAILED");
        assert_eq!(err.category, "hash");
    }
}

#[test]
fn canonical_json_sorts_keys_and_drops_whitespace() {
    let v = obj(vec![
        ("b", num(2)),
        ("a", JsonValue::Array(vec![JsonValue::Null, JsonValue::Bool(true), num(-3)])),
        ("c", s("x\"y")),
    ]);
    assert_eq!(canonical_string(&v).unwrap(), r#"{"a":[null,true,-3],"b":2,"c":"x\"y"}"#);
}

#[test]
fn canonical_json_does_not_depend_on_key_order() {
    let a = obj(vec![("z", num(1)), ("a", obj(vec![("y", s("q")), ("b", JsonValue::Bool(false))]))]);
    let b = obj(vec![("a", obj(vec![("b", JsonValue::Bool(false)), ("y", s("q"))])), ("z", num(1))]);
    assert_eq!(canonical_string(&a).unwrap(), canonical_string(&b).unwrap());
    assert_eq!(hash_canonical(&a).unwrap(), hash_canonical(&b).unwrap());
}

#[test]
fn canonical_json_matches_serde_json_for_plain_values() {
    let v = obj(vec![("name", s("tab\there")), ("n", num(42)), ("u", s("\u{1}é"))]);
    let mut expected = serde_json::Map::new();
    expected.insert("name".to_string(), serde_json::Value::String("tab\there".to_string()));
    expected.insert("n".to_string(), serde_json::Value::from(42));
    expected.insert("u".to_string(), serde_json::Value::String("\u{1}é".to_string()));
    let text = serde_json::to_string(&serde_json::Value::Object(expected)).unwrap();
    assert_eq!(canonical_string(&v).unwrap(), text);
}

#[test]
fn canonical_json_refuses_floats() {
    let v = obj(vec![("x", JsonValue::Number(JsonNumber::Float))]);
    let err = to_canonical_bytes(&v).unwrap_err();
    assert_eq!(err.code, "KC_CANON_JSON_FLOAT_FORBIDDEN");
}

#[test]
fn canonical_hash_is_hash_of_canonical_bytes() {
    let v = obj(vec![("k", s("v"))]);
    let bytes = to_canonical_bytes(&v).unwrap();
    assert_eq!(bytes, br#"{"k":"v"}"#.to_vec());
    assert_eq!(hash_canonical(&v).unwrap(), blake3_hex_prefixed(&bytes));
}

#[test]
fn canonical_json_keeps_the_first_of_repeated_keys() {
    let v = obj(vec![("k", num(1)), ("k", num(2))]);
    assert_eq!(canonical_string(&v).unwrap(), r#"{"k":1}"#);
}

#[test]
fn canonical_text_tells_values_apart_up_to_key_order() {
    let obj = |es: Vec<(&str, JsonValue)>| JsonValue::Object(es.into_iter().map(|(k, v)| (k.to_string(), v)).collect());
    let n = |i: u64| JsonValue::Number(JsonNumber::PosInt(i));
    let arr = |xs: Vec<u64>| JsonValue::Array(xs.into_iter().map(|i| JsonValue::Number(JsonNumber::PosInt(i))).collect());
    let a = obj(vec![("a", n(1)), ("b", arr(vec![1, 2]))]);
    let b = obj(vec![("b", arr(vec![1, 2])), ("a", n(1))]);
    let c = obj(vec![("a", n(1)), ("b", arr(vec![2, 1]))]);
    assert_eq!(canonical_string(&a).unwrap(), canonical_string(&b).unwrap());
    assert_ne!(canonical_string(&a).unwrap(), canonical_string(&c).unwrap());
    assert_eq!(
        canonical_string(&JsonValue::Number(JsonNumber::NegInt(5))).unwrap(),
        canonical_string(&n(5)).unwrap()
    );
    let s1 = JsonValue::Str("a\"b".to_string());
    let s2 = JsonValue::Str("a\\\"b".to_string());
    assert_ne!(canonical_string(&s1).unwrap(), canonical_string(&s2).unwrap());
}
