use kafka_json_processor::generator::{copy_field, create_processor_generators,
    generate_processors, json_path_to_object_key, static_field, Processor, ProcessorConfig,
    Stream};

fn config_of(pairs: &[(&str, &str)]) -> ProcessorConfig {
    let mut config = ProcessorConfig::new();
    for (k, v) in pairs {
        config.insert(k.to_string(), v.to_string());
    }
    config
}

#[test]
fn should_generate_static_field() {
    let config = config_of(&[("field", "$.example[0]"), ("value", "abcdef")]);
    let result = static_field("abc1", &config);
    assert_eq!(Ok(r##"
fn abc1(_input: &Value, message: &mut OutputMessage) -> Result<(), ProcessingError> {
    message.insert_val(&[Key("example".to_string()), Index(0)], Value::String("abcdef".to_string()))?;
    Ok(())
}
"##.to_string()), result);
}

#[test]
fn should_generate_copy_field() {
    let config = config_of(&[("source_field", "$[te\"st]"), ("target_field", "$[0].xd")]);
    let result = copy_field("function1", &config);

    assert_eq!(Ok(r##"
fn function1(input: &Value, message: &mut OutputMessage) -> ProcessingResult<()> {
    if let Some(value) = input.get_val(&[Key("te\"st".to_string())])?
        .and_then(|v| v.as_str())
        .map(|v| v.to_string()) {

        message.insert_val(&[Index(0), Key("xd".to_string())], Value::String(value))?;
    } else {
        debug!("Field [$[te\"st]] is not present - skipping field copy");
    }
    Ok(())
}
"##.to_string()), result);
}

#[test]
fn json_path_accessor_interprets_each_segment() {
    let accessor = json_path_to_object_key("$[0].phoneNumbers[1][test].type");
    assert_eq!(
        "&[Index(0), Key(\"phoneNumbers\".to_string()), Index(1), Key(\"test\".to_string()), Key(\"type\".to_string())]",
        accessor
    );
}

#[test]
fn json_path_without_dollar_is_one_key() {
    let accessor = json_path_to_object_key("plain");
    assert_eq!("&[Key(\"plain\".to_string())]", accessor);
}

#[test]
fn static_field_without_value_reports_the_missing_option() {
    let config = config_of(&[("field", "$.example")]);
    let result = static_field("abc1", &config);
    match result {
        Err(kafka_json_processor::generator::ProcessorGenerationError::RequiredConfigNotFound {
            function_name,
            field_name,
            description,
        }) => {
            assert_eq!(function_name, "abc1");
            assert_eq!(field_name, "value");
            assert!(description.is_none());
        },
        other => panic!("unexpected result: {:?}", other),
    }
}

#[test]
fn generate_processors_names_functions_by_stream_and_index() {
    let stream = Stream {
        input_topic: "abc".to_string(),
        output_topic: "def".to_string(),
        processors: vec![config_of(&[
            ("kind", "static_field"),
            ("field", "hello"),
            ("value", "world"),
        ])],
    };
    let generators = create_processor_generators();
    let result = generate_processors(&stream, &generators);
    let processors: Vec<Processor> = result.expect("generation should succeed");
    assert_eq!(processors.len(), 1);
    assert_eq!(processors[0].function_name, "abc_def_0_static_field");
    assert!(processors[0].function_body.contains("fn abc_def_0_static_field"));
    assert!(processors[0].function_body.contains("&[Key(\"hello\".to_string())]"));
}

#[test]
fn generate_processors_rejects_an_unknown_kind() {
    let stream = Stream {
        input_topic: "abc".to_string(),
        output_topic: "def".to_string(),
        processors: vec![config_of(&[("kind", "nonexistent")])],
    };
    let generators = create_processor_generators();
    let result = generate_processors(&stream, &generators);
    match result {
        Err(kafka_json_processor::generator::ProcessorGenerationError::GeneratorUnknown {
            name,
        }) => assert_eq!(name, "nonexistent"),
        other => panic!("unexpected result: {:?}", other),
    }
}
