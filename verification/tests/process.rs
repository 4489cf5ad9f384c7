use kafka_json_processor::error::{ErrorKind, ProcessingError};
use kafka_json_processor::formatters::json::pretty_json;
use kafka_json_processor::processor::{process_payload, JsonValue, ObjectKey, OutputMessage,
    TransformStep};
use kafka_json_processor::xml::pretty_xml;

/// A pipeline step as a test double: each variant mirrors one of the
/// step shapes the worker is assembled from.
enum Step {
    /// Puts a fixed string under a key of the output.
    Static(&'static str, &'static str),
    /// Copies a string field of the input to a field of the output.
    Copy(&'static str, &'static str),
    /// Declines to run.
    Skip,
    /// Pretty-prints an XML field of the input into a field of the
    /// output.
    PrettyXml(&'static str, &'static str),
    /// Pretty-prints a JSON field of the input into a field of the
    /// output.
    PrettyJson(&'static str, &'static str),
}

impl TransformStep for Step {
    fn apply(
        &self,
        input: &JsonValue,
        output: &mut OutputMessage,
    ) -> Result<(), ProcessingError> {
        match self {
            Step::Static(field, value) => output.insert_val(
                &[ObjectKey::Key(field.to_string())],
                JsonValue::Text(value.to_string()),
            ),
            Step::Copy(source, target) => {
                let value = match input.get_val(&[ObjectKey::Key(source.to_string())]) {
                    Ok(JsonValue::Text(s)) => s.clone(),
                    Ok(_) => return Ok(()),
                    Err(e) => return Err(e),
                };
                output.insert_val(
                    &[ObjectKey::Key(target.to_string())],
                    JsonValue::Text(value),
                )
            },
            Step::Skip => Err(ProcessingError::new(ErrorKind::ProcessorSkipped {
                reason: "condition unmet".to_string(),
            })),
            Step::PrettyXml(source, target) => {
                let value = match input.get_val(&[ObjectKey::Key(source.to_string())]) {
                    Ok(JsonValue::Text(s)) => s.clone(),
                    Ok(_) => return Ok(()),
                    Err(e) => return Err(e),
                };
                output.insert_val(
                    &[ObjectKey::Key(target.to_string())],
                    JsonValue::Text(pretty_xml(value)),
                )
            },
            Step::PrettyJson(source, target) => {
                let value = match input.get_val(&[ObjectKey::Key(source.to_string())]) {
                    Ok(JsonValue::Text(s)) => s.clone(),
                    Ok(_) => return Ok(()),
                    Err(e) => return Err(e),
                };
                output.insert_val(
                    &[ObjectKey::Key(target.to_string())],
                    JsonValue::Text(pretty_json(value)),
                )
            },
        }
    }
}

#[test]
fn minimal_static_field_stream() {
    let steps = vec![Step::Static("abc", "xyz")];
    let out = process_payload("id-1".to_string(), b"{}", &steps).unwrap();
    assert_eq!(out.message, r#"{"abc":"xyz"}"#);
    assert_eq!(out.key, "id-1");
}

#[test]
fn copy_with_missing_source_publishes_an_empty_document() {
    let steps = vec![Step::Copy("foo", "bar")];
    let out = process_payload("id-2".to_string(), br#"{"baz": 1}"#, &steps).unwrap();
    assert_eq!(out.message, "{}");
    // The step failed with a missing field; the message is still
    // published, with an empty document.
    assert_eq!(out.key, "id-2");
}

#[test]
fn an_existing_string_field_is_copied() {
    let steps = vec![Step::Copy("baz", "out")];
    let out = process_payload("id-7".to_string(), br#"{"baz": "qux"}"#, &steps).unwrap();
    assert_eq!(out.message, r#"{"out":"qux"}"#);
}

#[test]
fn step_failure_does_not_stop_later_steps() {
    let steps = vec![
        Step::Static("s1", "ran"),
        Step::Copy("foo", "bar"),
        Step::Skip,
        Step::Static("s3", "also ran"),
    ];
    let out = process_payload("id-3".to_string(), b"{}", &steps).unwrap();
    assert_eq!(out.message, r#"{"s1":"ran","s3":"also ran"}"#);
}

#[test]
fn unparsable_payload_drops_the_whole_message() {
    let steps = vec![Step::Static("abc", "xyz")];
    let result = process_payload("id-4".to_string(), b"not json", &steps);
    match result {
        Err(e) => assert!(matches!(e.inner, ErrorKind::OtherError { .. })),
        Ok(_) => panic!("an unparsable payload must fail"),
    }
}

#[test]
fn embedded_json_field_is_prettified_with_its_prefix_kept() {
    let steps = vec![Step::PrettyJson("json", "out")];
    let payload = br#"{"json":"INFO x={\"a\":1,\"b\":[2,3]}"}"#;
    let out = process_payload("id-5".to_string(), payload, &steps).unwrap();
    assert!(out.message.contains("\\n  \\\"a\\\": 1,"));
    assert!(out.message.contains("INFO x="));
}

#[test]
fn xml_field_without_tags_passes_through() {
    let steps = vec![Step::PrettyXml("xml", "out")];
    let payload = br#"{"xml":"plain text no tags"}"#;
    let out = process_payload("id-6".to_string(), payload, &steps).unwrap();
    assert_eq!(out.message, r#"{"out":"plain text no tags"}"#);
}

#[test]
fn pipeline_key_falls_back_to_the_consumer_id() {
    let steps: Vec<Step> = vec![];
    let out = process_payload("topic:0@7(123)".to_string(), b"{}", &steps).unwrap();
    assert_eq!(out.key, "topic:0@7(123)");
    assert_eq!(out.message, "{}");
}
