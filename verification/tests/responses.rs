use gloss::json::{JsonNumber, JsonValue};
use gloss::responses::{
    apply_sse_event, drain_sse_events, flush_pending_events, friendly_http_error,
    friendly_transport_error, is_transient_status, retry_delay_ms, sse_event_data, ParsedStream,
    RetryState, SendDecision, StatusDecision, StreamDecision,
};

fn text(s: &str) -> JsonValue {
    JsonValue::String(s.to_owned())
}

fn object(entries: Vec<(&str, JsonValue)>) -> JsonValue {
    JsonValue::Object(entries.into_iter().map(|(k, v)| (k.to_owned(), v)).collect())
}

#[test]
fn drains_lf_and_crlf_events() {
    let mut input = b"data: {\"type\":\"a\"}\n\ndata: {\"type\":\"b\"}\r\n\r\ntail".to_vec();
    let events = drain_sse_events(&mut input);
    assert_eq!(events.len(), 2);
    assert_eq!(input, b"tail");
}

#[test]
fn recognizes_only_agreed_transient_statuses() {
    assert!(is_transient_status(429));
    assert!(is_transient_status(500));
    assert!(!is_transient_status(403));
    assert!(!is_transient_status(422));
}

#[test]
fn drain_keeps_empty_events_out_and_flush_closes_the_tail() {
    let mut input = b"\n\ndata: x\n\n".to_vec();
    let events = drain_sse_events(&mut input);
    assert_eq!(events, vec![b"data: x".to_vec()]);
    assert!(input.is_empty());
    assert_eq!(flush_pending_events(b"data: y".to_vec()), vec![b"data: y".to_vec()]);
}

#[test]
fn event_data_joins_data_lines() {
    assert_eq!(
        sse_event_data(b"event: x\r\ndata: one\r\ndata:two").unwrap(),
        Some("one\ntwo".to_owned())
    );
    assert_eq!(sse_event_data(b"data: [DONE]").unwrap(), None);
    assert_eq!(
        sse_event_data(&[0xff, 0xfe]).unwrap_err(),
        "ChatGPT returned an invalid streaming response."
    );
}

#[test]
fn stream_events_build_the_response() {
    let mut parsed = ParsedStream::new();
    let delta = object(vec![("type", text("response.output_text.delta")), ("delta", text("Hi"))]);
    assert_eq!(apply_sse_event(&mut parsed, Some(delta)).unwrap(), Some("Hi".to_owned()));
    let done = object(vec![
        ("type", text("response.completed")),
        ("response", object(vec![("id", text("resp_1"))])),
    ]);
    assert_eq!(apply_sse_event(&mut parsed, Some(done)).unwrap(), None);
    assert_eq!(parsed.text, "Hi");
    assert_eq!(parsed.response_id, Some("resp_1".to_owned()));
    assert!(parsed.completed);
    assert_eq!(
        apply_sse_event(&mut parsed, None).unwrap_err(),
        "ChatGPT returned an invalid streaming event."
    );
}

#[test]
fn incomplete_event_names_the_reason() {
    let mut parsed = ParsedStream::new();
    let event = object(vec![
        ("type", text("response.incomplete")),
        (
            "response",
            object(vec![("incomplete_details", object(vec![("reason", text("max_tokens"))]))]),
        ),
    ]);
    apply_sse_event(&mut parsed, Some(event)).unwrap();
    assert_eq!(
        parsed.terminal_error,
        Some("The response was incomplete (max_tokens).".to_owned())
    );
    let n = JsonValue::Number(JsonNumber { as_i64: Some(1), text: "1".to_owned() });
    let mut other = ParsedStream::new();
    apply_sse_event(&mut other, Some(object(vec![("type", text("error")), ("code", n)]))).unwrap();
    assert_eq!(other.terminal_error, Some("ChatGPT returned an error.".to_owned()));
}

#[test]
fn http_and_transport_messages() {
    assert_eq!(friendly_http_error(422, Some("bad input")), "bad input");
    assert_eq!(friendly_http_error(400, None), "The request was not accepted by ChatGPT.");
    assert_eq!(
        friendly_http_error(401, None),
        "Your ChatGPT sign-in expired. Sign in again and retry."
    );
    assert_eq!(
        friendly_http_error(503, Some("x")),
        "ChatGPT is temporarily unavailable. Try again shortly."
    );
    assert_eq!(friendly_http_error(418, None), "ChatGPT returned HTTP 418.");
    assert_eq!(
        friendly_transport_error(true, true),
        "The ChatGPT request timed out. Check your connection and retry."
    );
    assert_eq!(
        friendly_transport_error(false, false),
        "The ChatGPT connection ended unexpectedly. You can retry safely."
    );
}

#[test]
fn retry_delays_grow_and_are_capped() {
    assert_eq!(retry_delay_ms(1, None, 0), 450);
    assert_eq!(retry_delay_ms(2, None, 100), 1000);
    assert_eq!(retry_delay_ms(1, Some(3), 220), 3220);
    assert_eq!(retry_delay_ms(2, Some(60), 0), 10000);
}

#[test]
fn retries_stop_after_two_automatic_attempts() {
    let mut state = RetryState::new();
    state.begin_attempt();
    assert!(matches!(state.after_send_error("down".to_owned()), SendDecision::Retry { attempt: 1 }));
    state.begin_attempt();
    assert!(matches!(state.after_status(401, None), StatusDecision::RefreshAndRetry));
    assert!(state.begin_attempt());
    assert!(matches!(
        state.after_status(503, Some(2)),
        StatusDecision::Retry { attempt: 2, retry_after_secs: Some(2) }
    ));
    state.begin_attempt();
    match state.after_send_error("down".to_owned()) {
        SendDecision::Fail(f) => {
            assert_eq!(f.message, "down");
            assert_eq!(f.transport_attempts, 4);
        }
        _ => panic!("the third automatic retry is refused"),
    }
}

#[test]
fn unfinished_stream_with_text_fails_with_partial_text() {
    let mut state = RetryState::new();
    state.begin_attempt();
    assert!(matches!(state.after_status(200, None), StatusDecision::ReadStream));
    let mut parsed = ParsedStream::new();
    let delta = object(vec![("type", text("response.output_text.delta")), ("delta", text("par"))]);
    apply_sse_event(&mut parsed, Some(delta)).unwrap();
    match state.after_stream(parsed, None) {
        StreamDecision::Fail(f) => {
            assert_eq!(f.partial, "par");
            assert!(f.incomplete);
            assert_eq!(f.message, "The response ended before it was complete. You can retry safely.");
        }
        _ => panic!("a stream that did not complete fails"),
    }
}
