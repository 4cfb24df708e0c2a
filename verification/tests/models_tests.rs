//! The plain data shapes and the error texts.

use motorhead::models::{
    default_page, default_size, AckResponse, GetSessionsQuery, HealthCheckResponse,
    MemoryMessage, MemoryMessagesAndContext, MemoryResponse, MotorheadError, NamespaceQuery,
    SearchPayload, ValidationError,
};

#[test]
fn listing_defaults_are_first_page_of_ten() {
    assert_eq!(default_page(), 1);
    assert_eq!(default_size(), 10);
    let query = GetSessionsQuery { page: default_page(), size: default_size(), namespace: None };
    assert_eq!(query.page, 1);
    assert_eq!(query.size, 10);
}

#[test]
fn error_texts_name_their_source() {
    let store = MotorheadError::RedisError("timed out".to_string());
    assert_eq!(store.to_message(), "Redis error: timed out");
    let pass = MotorheadError::IncrementalSummarizationError("no text".to_string());
    assert_eq!(pass.to_message(), "Incremental summarization error: no text");
    let page = ValidationError::PageTooLarge;
    assert_eq!(page.to_message(), "Page size must not exceed 100");
}

#[test]
fn request_and_response_shapes_hold_their_fields() {
    let body = MemoryMessagesAndContext {
        messages: vec![MemoryMessage { role: "user".to_string(), content: "hi".to_string() }],
        context: Some("ctx".to_string()),
    };
    assert_eq!(body.messages.len(), 1);
    assert_eq!(body.context.as_deref(), Some("ctx"));

    let response = MemoryResponse { messages: body.messages, context: None, tokens: Some(4) };
    assert_eq!(response.tokens, Some(4));

    let ack = AckResponse { status: "Ok" };
    assert_eq!(ack.status, "Ok");

    let health = HealthCheckResponse { now: 123456 };
    assert_eq!(health.now, 123456);

    let ns = NamespaceQuery { namespace: Some("team".to_string()) };
    assert_eq!(ns.namespace.as_deref(), Some("team"));

    let search = SearchPayload { text: "find me".to_string() };
    assert_eq!(search.text, "find me");
}
