//! Messages, models, and failures.

use coin::opencode::types::{
    Argument, ArgumentValue, AssistantMessage, Cost, MessageError, MessageErrorData, MessageInfo,
    ModelRef, Part, PromptPart, ToolState,
};

#[test]
fn assistant_message_concatenates_only_text_parts() {
    // Arrange: a message mixing a step marker, text, and a tool call.
    let message = AssistantMessage {
        info: MessageInfo {
            id: "msg_1".to_string(),
            session_id: "ses_1".to_string(),
            cost: Cost { bits: 0.02f64.to_bits() },
            ..MessageInfo::default()
        },
        parts: vec![
            Part::StepStart { id: "prt_0".to_string() },
            Part::Text { id: "prt_1".to_string(), text: "hello ".to_string() },
            Part::Tool {
                id: "prt_2".to_string(),
                tool: "bash".to_string(),
                state: ToolState {
                    status: "completed".to_string(),
                    output: Some("ignored".to_string()),
                    ..ToolState::default()
                },
            },
            Part::Text { id: "prt_3".to_string(), text: "world".to_string() },
        ],
    };

    // Assert
    assert_eq!(message.text(), "hello world");
    assert_eq!(f64::from_bits(message.info.cost.bits), 0.02);
}

#[test]
fn an_unmodelled_part_says_nothing() {
    let message = AssistantMessage { parts: vec![Part::Other], ..AssistantMessage::default() };
    assert_eq!(message.text(), "");
    assert!(message.tool_calls().is_empty());
}

#[test]
fn a_tool_call_is_summed_up_by_its_first_textual_argument() {
    let argument = |name: &str, value| Argument { name: name.to_string(), value };
    let state = ToolState {
        status: "running".to_string(),
        input: vec![
            argument("limit", ArgumentValue::Other),
            argument("query", ArgumentValue::Text("evidence".to_string())),
            argument("site", ArgumentValue::Text("example.org".to_string())),
        ],
        ..ToolState::default()
    };
    assert_eq!(state.summary(), "evidence");
    assert_eq!(ToolState::default().summary(), "");

    let message = AssistantMessage {
        parts: vec![Part::Tool { id: String::new(), tool: "websearch".to_string(), state }],
        ..AssistantMessage::default()
    };
    let calls = message.tool_calls();
    assert_eq!(calls.len(), 1);
    assert_eq!(calls[0].tool, "websearch");
    assert_eq!(calls[0].status, "running");
    assert_eq!(calls[0].detail, "evidence");
}

#[test]
fn a_model_splits_at_its_first_separator_only() {
    let model: ModelRef = "openrouter/z-ai/glm-5.2:free".parse().expect("must parse");
    assert_eq!(model.provider_id, "openrouter");
    assert_eq!(model.model_id, "z-ai/glm-5.2:free");
    assert_eq!(model.to_string(), "openrouter/z-ai/glm-5.2:free");
    assert_eq!(ModelRef::new("openrouter", "z-ai/glm-5.2:free"), model);
}

#[test]
fn a_text_that_names_no_model_is_refused() {
    for text in ["", "glm-5.3-flash", "/model", "provider/", "/"] {
        let complaint = ModelRef::parse(text).expect_err("must be refused");
        assert_eq!(
            complaint,
            format!("expected a model in provider/model form, got {text}")
        );
    }
}

fn failure(status_code: Option<u16>, is_retryable: Option<bool>, message: &str) -> MessageError {
    MessageError {
        name: "APIError".to_string(),
        data: MessageErrorData { message: message.to_string(), status_code, is_retryable },
    }
}

#[test]
fn the_providers_own_flag_decides_before_the_status() {
    assert!(failure(Some(402), Some(true), "").is_retryable());
    assert!(!failure(Some(429), Some(false), "").is_retryable());
    assert!(failure(Some(429), None, "").is_retryable());
    assert!(failure(Some(408), None, "").is_retryable());
    assert!(failure(Some(503), None, "").is_retryable());
    assert!(!failure(Some(402), None, "").is_retryable());
    assert!(!failure(None, None, "").is_retryable());
}

#[test]
fn a_recorded_failure_is_reported_with_its_status_and_words() {
    assert_eq!(
        failure(Some(402), None, "out of credit").to_string(),
        "APIError (402): out of credit"
    );
    assert_eq!(failure(None, None, "").to_string(), "APIError");
}

#[test]
fn a_prompt_part_is_tagged_as_text() {
    let part = PromptPart::text("hello");
    assert_eq!((part.kind, part.text.as_str()), ("text", "hello"));
}
