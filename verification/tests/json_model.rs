use ijoka::json::{parse_json, JsonValue};

#[test]
fn parse_reads_structure() {
    let doc = parse_json("{\"a\": 1, \"b\": [true, null, \"x\"]}").unwrap();
    let a = doc.get("a").unwrap();
    assert_eq!(a.as_i64(), Some(1));
    let b = doc.get("b").unwrap();
    let items = b.as_arr().unwrap();
    assert_eq!(items.len(), 3);
    assert_eq!(items[0].as_bool(), Some(true));
    assert!(matches!(items[1], JsonValue::Null));
    assert_eq!(items[2].as_str(), Some("x"));
    assert!(doc.get("missing").is_none());
}

#[test]
fn parse_rejects_malformed_text() {
    assert!(parse_json("{not json").is_none());
    assert!(parse_json("").is_none());
    assert!(parse_json("[1, 2").is_none());
}

#[test]
fn serialization_round_trip() {
    let text = "{\"a\":1,\"b\":[true,null,\"x\"],\"c\":\"q\\\"uote\"}";
    let doc = parse_json(text).unwrap();
    assert_eq!(doc.to_json_string(), text);
}

#[test]
fn serialization_escapes_control_characters() {
    let doc = parse_json("\"line\\nbreak\\tand \\u0001\"").unwrap();
    assert_eq!(doc.to_json_string(), "\"line\\nbreak\\tand \\u0001\"");
}

#[test]
fn object_keys_come_back_sorted() {
    let doc = parse_json("{\"zeta\": 1, \"alpha\": 2}").unwrap();
    assert_eq!(doc.to_json_string(), "{\"alpha\":2,\"zeta\":1}");
}

#[test]
fn numbers_keep_their_text() {
    let doc = parse_json("[12345678901234, -7, 1.5]").unwrap();
    let items = doc.as_arr().unwrap();
    assert_eq!(items[0].as_i64(), Some(12345678901234));
    assert_eq!(items[1].as_i64(), Some(-7));
    assert_eq!(items[2].as_i64(), None);
    assert_eq!(doc.to_json_string(), "[12345678901234,-7,1.5]");
}
