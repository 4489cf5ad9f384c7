use kafka_json_processor::error::ErrorKind;
use kafka_json_processor::processor::{JsonValue, ObjectKey, OutputMessage};
use kafka_json_processor::serialize::to_json_string;

fn key(k: &str) -> ObjectKey {
    ObjectKey::Key(k.to_string())
}

fn index(i: usize) -> ObjectKey {
    ObjectKey::Index(i)
}

fn text(s: &str) -> JsonValue {
    JsonValue::Text(s.to_string())
}

#[test]
fn inserted_value_is_what_get_returns() {
    let mut message = OutputMessage::new();
    message.insert_val(&[key("a"), key("b")], text("first")).unwrap();
    message.insert_val(&[key("a"), key("b")], text("second")).unwrap();
    let got = message.get_val(&[key("a"), key("b")]).unwrap();
    assert_eq!(to_json_string(got), "\"second\"");
}

#[test]
fn empty_path_is_rejected_on_get_and_insert() {
    let mut message = OutputMessage::new();
    match message.get_val(&[]) {
        Err(e) => assert!(matches!(e.inner, ErrorKind::EmptyKey)),
        Ok(_) => panic!("an empty path must not resolve"),
    }
    match message.insert_val(&[], JsonValue::Null) {
        Err(e) => assert!(matches!(e.inner, ErrorKind::EmptyKey)),
        Ok(_) => panic!("an empty path must not insert"),
    }
}

#[test]
fn auto_vivification_builds_objects_and_padded_arrays() {
    let mut message = OutputMessage::new();
    message
        .insert_val(&[key("a"), index(3), key("b")], JsonValue::Number("42".to_string()))
        .unwrap();
    assert_eq!(
        to_json_string(&message.value),
        r#"{"a":[null,null,null,{"b":42}]}"#
    );
}

#[test]
fn container_kinds_cannot_overwrite_each_other() {
    let mut message = OutputMessage::new();
    message.insert_val(&[key("a"), index(0)], text("x")).unwrap();
    let before = to_json_string(&message.value);
    // "a" holds an array; addressing it as an object must fail without
    // touching the tree.
    let result = message.insert_val(&[key("a"), key("b")], text("y"));
    match result {
        Err(e) => assert!(matches!(e.inner, ErrorKind::InvalidObjectTree { .. })),
        Ok(_) => panic!("a key demand on an array must fail"),
    }
    assert_eq!(to_json_string(&message.value), before);
    // Overwriting the array with a scalar must fail too.
    let result = message.insert_val(&[key("a")], text("y"));
    assert!(result.is_err());
    assert_eq!(to_json_string(&message.value), before);
    // Overwriting it with another array is allowed.
    message.insert_val(&[key("a")], JsonValue::Array(vec![])).unwrap();
    assert_eq!(to_json_string(&message.value), r#"{"a":[]}"#);
}

#[test]
fn missing_field_reports_the_requested_path() {
    let mut message = OutputMessage::new();
    message.insert_val(&[key("present")], text("x")).unwrap();
    match message.get_val(&[key("absent")]) {
        Err(e) => match e.inner {
            ErrorKind::FieldNotFound { key: path } => {
                assert_eq!(path.len(), 1);
                assert!(matches!(&path[0], ObjectKey::Key(k) if k == "absent"));
            },
            other => panic!("unexpected error: {:?}", other),
        },
        Ok(_) => panic!("an absent field must not resolve"),
    }
}

#[test]
fn index_root_is_an_array_and_grows() {
    let mut message = OutputMessage::new();
    message.insert_val(&[index(1)], text("x")).unwrap();
    assert_eq!(to_json_string(&message.value), r#"[null,"x"]"#);
}

#[test]
fn only_missing_fields_and_skips_are_low_severity() {
    let low = ErrorKind::FieldNotFound { key: vec![] };
    assert!(low.is_low_severity());
    let low = ErrorKind::ProcessorSkipped { reason: "cond".to_string() };
    assert!(low.is_low_severity());
    let high = ErrorKind::EmptyKey;
    assert!(!high.is_low_severity());
    let high = ErrorKind::OtherError { description: "boom".to_string() };
    assert!(!high.is_low_severity());
}

#[test]
fn serializer_escapes_string_content() {
    let v = JsonValue::Object(vec![(
        "k\"ey".to_string(),
        JsonValue::Text("a\\b\n\tc".to_string()),
    )]);
    assert_eq!(to_json_string(&v), "{\"k\\\"ey\":\"a\\\\b\\n\\tc\"}");
}

#[test]
fn serializer_renders_every_scalar_kind() {
    let v = JsonValue::Array(vec![
        JsonValue::Null,
        JsonValue::Bool(true),
        JsonValue::Bool(false),
        JsonValue::Number("123.22".to_string()),
        JsonValue::Text("t".to_string()),
    ]);
    assert_eq!(to_json_string(&v), r#"[null,true,false,123.22,"t"]"#);
}
