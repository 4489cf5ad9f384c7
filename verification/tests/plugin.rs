use kafka_json_processor::generator::{ProcessorConfig, ProcessorGenerationError};
use kafka_json_processor::plugin::{copy_field, interpret_child_output, read_params,
    render_answer, GeneratorError, ProcessorParams};

#[test]
fn copy_field_should_generate_copy_field() {
    let mut config = ProcessorConfig::new();
    config.insert("source_field".to_string(), "$[te\"st]".to_string());
    config.insert("target_field".to_string(), "$[0].xd".to_string());
    let result = copy_field(ProcessorParams {
        function_name: "function1".to_string(),
        config,
    });

    assert_eq!(Ok(r##"
fn function1(input: &Value, message: &mut OutputMessage) -> Result<(), ProcessingError> {
    if let Some(value) = input.get_val(&[Key("te\"st".to_string())])?
        .as_str()
        .map(|v| v.to_string()) {

        message.insert_val(&[Index(0), Key("xd".to_string())], Value::String(value))?;
    }
    Ok(())
}
"##.to_string()), result);
}

#[test]
fn read_params_builds_the_option_map() {
    let args: Vec<String> = ["plugin-binary", "fn_name", "field", "$.a", "value", "b"]
        .iter()
        .map(|s| s.to_string())
        .collect();
    let params = read_params(args).expect("arguments are well formed");
    assert_eq!(params.function_name, "fn_name");
    assert_eq!(params.config.get("field"), Some(&"$.a".to_string()));
    assert_eq!(params.config.get("value"), Some(&"b".to_string()));
    assert_eq!(params.config.get("missing"), None);
}

#[test]
fn read_params_rejects_an_odd_argument_count() {
    let args: Vec<String> = ["plugin-binary", "fn_name", "dangling"]
        .iter()
        .map(|s| s.to_string())
        .collect();
    match read_params(args) {
        Err(GeneratorError::InvalidGeneratorArguments { args, .. }) => {
            assert_eq!(args.len(), 3);
        },
        other => panic!("unexpected result: {:?}", other),
    }
}

#[test]
fn render_answer_prefixes_the_verdict_line() {
    assert_eq!(render_answer(Ok("code".to_string())), "OK\ncode");
    assert_eq!(render_answer(Err("broken".to_string())), "ERR\nbroken");
}

#[test]
fn child_output_ok_yields_the_body() {
    let out = interpret_child_output("gen", "OK\nfn x() {}\nmore".to_string());
    assert_eq!(out, Ok("fn x() {}\nmore".to_string()));
}

#[test]
fn child_output_err_yields_the_explanation() {
    let out = interpret_child_output("gen", "ERR\nit broke".to_string());
    match out {
        Err(ProcessorGenerationError::GeneratorError { description }) => {
            assert_eq!(description, "[gen] it broke.");
        },
        other => panic!("unexpected result: {:?}", other),
    }
}

#[test]
fn child_output_empty_is_an_error() {
    let out = interpret_child_output("gen", String::new());
    match out {
        Err(ProcessorGenerationError::GeneratorError { description }) => {
            assert_eq!(description, "[gen] Process output is empty.");
        },
        other => panic!("unexpected result: {:?}", other),
    }
}
