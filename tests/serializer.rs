use phy_channels::{
    key_less, serialize, ClassificationError, FailureKind, Foreign, Key, SerializePyObject, Value,
};

fn text(s: &str) -> Value {
    Value::Text(s.to_string())
}

fn key(s: &str) -> Key {
    Key::Text(s.to_string())
}

fn ok(v: &Value, sort_keys: bool) -> String {
    serialize(v, sort_keys).expect("value should serialize")
}

fn err(v: &Value, sort_keys: bool) -> ClassificationError {
    match serialize(v, sort_keys) {
        Ok(s) => panic!("expected a classification failure, got {}", s),
        Err(e) => e,
    }
}

#[test]
fn scalars_serialize_directly() {
    assert_eq!(ok(&Value::Null, true), "null");
    assert_eq!(ok(&Value::Bool(true), true), "true");
    assert_eq!(ok(&Value::Bool(false), false), "false");
    assert_eq!(ok(&Value::Int(-42), true), "-42");
    assert_eq!(ok(&Value::Int(i64::MIN), true), "-9223372036854775808");
    assert_eq!(ok(&Value::UInt(u64::MAX), true), "18446744073709551615");
    assert_eq!(ok(&Value::UInt(0), true), "0");
    assert_eq!(ok(&Value::Float("1.5".to_string()), true), "1.5");
    assert_eq!(ok(&text("hi"), true), "\"hi\"");
}

#[test]
fn text_is_quoted_and_escaped() {
    assert_eq!(ok(&text("a\"b\\c\n"), true), "\"a\\\"b\\\\c\\n\"");
    assert_eq!(ok(&text(""), false), "\"\"");
}

#[test]
fn empty_containers() {
    assert_eq!(ok(&Value::Mapping(vec![]), true), "{}");
    assert_eq!(ok(&Value::Mapping(vec![]), false), "{}");
    assert_eq!(ok(&Value::Sequence(vec![]), true), "[]");
}

#[test]
fn sequences_keep_their_order() {
    let v = Value::Sequence(vec![
        Value::Int(3),
        Value::Sequence(vec![Value::Bool(true), Value::Null]),
        text("x"),
        Value::Int(1),
    ]);
    assert_eq!(ok(&v, true), "[3,[true,null],\"x\",1]");
    assert_eq!(ok(&v, false), "[3,[true,null],\"x\",1]");
}

#[test]
fn unsorted_mapping_keeps_insertion_order() {
    let v = Value::Mapping(vec![(key("b"), Value::Int(1)), (key("a"), Value::Int(2))]);
    assert_eq!(ok(&v, false), "{\"b\":1,\"a\":2}");
}

#[test]
fn sorted_mapping_orders_keys_at_every_depth() {
    let inner = Value::Mapping(vec![(key("z"), Value::Null), (key("m"), Value::Bool(false))]);
    let v = Value::Mapping(vec![
        (key("b"), Value::Int(1)),
        (key("ab"), Value::Sequence(vec![inner])),
        (key("a"), Value::Int(2)),
    ]);
    assert_eq!(ok(&v, true), "{\"a\":2,\"ab\":[{\"m\":false,\"z\":null}],\"b\":1}");
}

#[test]
fn sorted_mapping_keeps_the_last_of_equal_keys() {
    let v = Value::Mapping(vec![
        (key("a"), Value::Int(1)),
        (key("b"), Value::Int(5)),
        (key("a"), Value::Int(2)),
    ]);
    assert_eq!(ok(&v, true), "{\"a\":2,\"b\":5}");
    assert_eq!(ok(&v, false), "{\"a\":1,\"b\":5,\"a\":2}");
}

#[test]
fn boolean_and_null_keys_are_canonicalized() {
    let v = Value::Mapping(vec![
        (Key::Bool(true), Value::Int(1)),
        (Key::Bool(false), Value::Int(0)),
        (Key::Null, text("n")),
    ]);
    assert_eq!(ok(&v, false), "{\"true\":1,\"false\":0,\"null\":\"n\"}");
    assert_eq!(ok(&v, true), "{\"false\":0,\"null\":\"n\",\"true\":1}");
}

#[test]
fn sorted_output_ignores_insertion_order() {
    let a = Value::Mapping(vec![
        (key("x"), Value::Int(1)),
        (key("y"), Value::Sequence(vec![Value::Null])),
        (key("w"), text("t")),
    ]);
    let b = Value::Mapping(vec![
        (key("w"), text("t")),
        (key("x"), Value::Int(1)),
        (key("y"), Value::Sequence(vec![Value::Null])),
    ]);
    assert_eq!(ok(&a, true), ok(&b, true));
    assert_eq!(ok(&a, true), ok(&a, true));
    assert_eq!(ok(&a, true), "{\"w\":\"t\",\"x\":1,\"y\":[null]}");
}

#[test]
fn foreign_value_with_repr_fails() {
    let v = Value::Foreign(Foreign { repr: Some("<object at 0x1>".to_string()), class_name: "object".to_string() });
    let e = err(&v, true);
    assert_eq!(e.kind, FailureKind::ValueNotSerializable);
    assert_eq!(e.detail, "<object at 0x1>");
    assert_eq!(e.message(), "Value is not JSON serializable: <object at 0x1>");
}

#[test]
fn foreign_value_without_repr_names_its_type() {
    let v = Value::Foreign(Foreign { repr: None, class_name: "Handle".to_string() });
    let e = err(&v, false);
    assert_eq!(e.kind, FailureKind::TypeNotSerializable);
    assert_eq!(e.message(), "Type is not JSON serializable: Handle");
}

#[test]
fn nested_foreign_value_fails_the_whole_payload() {
    let f = Value::Foreign(Foreign { repr: Some("h".to_string()), class_name: "H".to_string() });
    let v = Value::Mapping(vec![
        (key("ok"), Value::Int(1)),
        (key("deep"), Value::Sequence(vec![Value::Null, f])),
    ]);
    assert_eq!(err(&v, true).detail, "h");
    assert_eq!(err(&v, false).detail, "h");
}

#[test]
fn unsupported_key_fails() {
    let v = Value::Mapping(vec![(Key::Unsupported("(1, 2)".to_string()), Value::Int(1))]);
    let e = err(&v, true);
    assert_eq!(e.kind, FailureKind::KeyNotText);
    assert_eq!(e.message(), "Dictionary key is not a string: (1, 2)");
}

#[test]
fn first_failure_is_reported() {
    let v = Value::Sequence(vec![
        Value::Foreign(Foreign { repr: Some("first".to_string()), class_name: "A".to_string() }),
        Value::Foreign(Foreign { repr: Some("second".to_string()), class_name: "B".to_string() }),
    ]);
    assert_eq!(err(&v, true).detail, "first");
}

#[test]
fn serialize_py_object_follows_its_flag() {
    let obj = Value::Mapping(vec![(key("b"), Value::Int(1)), (key("a"), Value::Int(2))]);
    let sorted = SerializePyObject { obj, sort_keys: true };
    assert_eq!(sorted.serialize().unwrap(), "{\"a\":2,\"b\":1}");
    let plain = SerializePyObject { obj: sorted.obj, sort_keys: false };
    assert_eq!(plain.serialize().unwrap(), "{\"b\":1,\"a\":2}");
}

#[test]
fn key_order_is_by_code_point() {
    assert!(key_less("a", "b"));
    assert!(!key_less("b", "a"));
    assert!(key_less("", "a"));
    assert!(key_less("a", "ab"));
    assert!(!key_less("ab", "ab"));
    assert!(key_less("Z", "a"));
    assert!(key_less("z", "\u{e9}"));
}

#[test]
fn serialized_text_parses_back_to_the_same_tree() {
    let v = Value::Mapping(vec![
        (key("name"), text("caf\u{e9} \"q\"")),
        (key("list"), Value::Sequence(vec![Value::Int(-7), Value::UInt(7), Value::Bool(true), Value::Null])),
        (Key::Bool(true), Value::Mapping(vec![(key("k"), text("v"))])),
    ]);
    let mut inner = serde_json::Map::new();
    inner.insert("k".to_string(), serde_json::Value::String("v".to_string()));
    let mut expected = serde_json::Map::new();
    expected.insert("name".to_string(), serde_json::Value::String("caf\u{e9} \"q\"".to_string()));
    expected.insert(
        "list".to_string(),
        serde_json::Value::Array(vec![
            serde_json::Value::from(-7),
            serde_json::Value::from(7u64),
            serde_json::Value::Bool(true),
            serde_json::Value::Null,
        ]),
    );
    expected.insert("true".to_string(), serde_json::Value::Object(inner));
    let expected = serde_json::Value::Object(expected);
    for sort_keys in [true, false] {
        let parsed: serde_json::Value = serde_json::from_str(&ok(&v, sort_keys)).unwrap();
        assert_eq!(parsed, expected);
    }
    let sorted = ok(&v, true);
    let list_at = sorted.find("\"list\"").unwrap();
    let name_at = sorted.find("\"name\"").unwrap();
    let true_at = sorted.find("\"true\"").unwrap();
    assert!(list_at < name_at && name_at < true_at);
}

#[test]
fn control_characters_use_escapes() {
    assert_eq!(ok(&text("\u{1}\t\u{8}\u{c}\r\u{1f}"), true), "\"\\u0001\\t\\b\\f\\r\\u001f\"");
    assert_eq!(ok(&text("\u{7f}/\u{e9}"), true), "\"\u{7f}/\u{e9}\"");
}
