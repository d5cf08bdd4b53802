use sailent::function_call::{
    decide_function_call, next_function_call_step, FunctionCallStep, MAX_FUNCTION_ATTEMPTS,
};

#[test]
fn valid_json_is_accepted_trimmed() {
    assert_eq!(
        next_function_call_step(0, "  {\"name\": \"noop\"}\n"),
        FunctionCallStep::Accept("{\"name\": \"noop\"}".to_string())
    );
}

#[test]
fn malformed_output_is_retried_with_the_parse_error() {
    let output = "name: get_weather";
    let error = serde_json::from_str::<serde_json::Value>(output).unwrap_err().to_string();
    assert_eq!(
        next_function_call_step(0, output),
        FunctionCallStep::Retry(format!("Error Parsing JSON: {}", error))
    );
    assert!(matches!(
        next_function_call_step(MAX_FUNCTION_ATTEMPTS - 2, output),
        FunctionCallStep::Retry(_)
    ));
}

#[test]
fn last_attempt_gives_up() {
    assert_eq!(MAX_FUNCTION_ATTEMPTS, 10);
    assert_eq!(next_function_call_step(9, "{"), FunctionCallStep::GiveUp);
    assert_eq!(
        decide_function_call(9, "x", Some("bad".to_string())),
        FunctionCallStep::GiveUp
    );
    assert_eq!(
        decide_function_call(3, "x", Some("bad".to_string())),
        FunctionCallStep::Retry("Error Parsing JSON: bad".to_string())
    );
    assert_eq!(
        decide_function_call(9, "[1]", None),
        FunctionCallStep::Accept("[1]".to_string())
    );
}
