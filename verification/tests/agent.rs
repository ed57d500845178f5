use gloss::json::JsonValue;
use gloss::agent::{
    active_after_delete, evidence_conversation, follow_up_positions, profile_context,
    profile_request_body, profile_evidence_turn, profile_update_due,
    require_active_session, selection_for_action, turn_to_retry, ConversationMessage, MessageRole,
    OverlayStatus, SessionAction,
};

fn message(role: MessageRole, turn: &str) -> ConversationMessage {
    ConversationMessage {
        role,
        turn_id: turn.to_owned(),
        content: format!("{turn} text"),
        intent: None,
    }
}

#[test]
fn profile_updates_need_a_follow_up_after_triage() {
    let first = vec![message(MessageRole::User, "t1"), message(MessageRole::Assistant, "t1")];
    assert!(!profile_update_due(SessionAction::Triage, &first));
    let mut follow = first;
    follow.push(message(MessageRole::User, "t2"));
    follow.push(message(MessageRole::Assistant, "t2"));
    assert!(profile_update_due(SessionAction::Triage, &follow));
    assert!(!profile_update_due(SessionAction::Translate, &follow));
    assert_eq!(profile_evidence_turn(&follow), Some("t2".to_owned()));
    assert_eq!(follow_up_positions(&follow), vec![2, 3]);
}

#[test]
fn evidence_turn_needs_two_user_messages() {
    let one = vec![message(MessageRole::User, "t1")];
    assert_eq!(profile_evidence_turn(&one), None);
}

#[test]
fn actions_start_from_the_captured_selection() {
    assert_eq!(selection_for_action(OverlayStatus::Ready("text".to_owned())).unwrap(), "text");
    assert_eq!(
        selection_for_action(OverlayStatus::Idle).unwrap_err(),
        "Select text, then open Gloss with the shortcut."
    );
    assert_eq!(
        selection_for_action(OverlayStatus::CaptureError("no".to_owned())).unwrap_err(),
        "no"
    );
}

#[test]
fn retries_and_active_sessions() {
    assert_eq!(turn_to_retry(&vec![]).unwrap_err(), "There is no turn to retry.");
    assert_eq!(turn_to_retry(&vec!["a".to_owned(), "b".to_owned()]).unwrap(), "b");
    assert_eq!(
        require_active_session(None).unwrap_err(),
        "There is no active Gloss session."
    );
    assert_eq!(active_after_delete(Some("s".to_owned()), "s"), None);
    assert_eq!(active_after_delete(Some("s".to_owned()), "t"), Some("s".to_owned()));
}

#[test]
fn profile_request_carries_follow_ups_and_schema() {
    let mut messages = vec![message(MessageRole::User, "t1"), message(MessageRole::Assistant, "t1")];
    let mut asked = message(MessageRole::User, "t2");
    asked.intent = Some("explain_selection".to_owned());
    messages.push(asked);
    match evidence_conversation(&messages) {
        JsonValue::Array(items) => {
            assert_eq!(items.len(), 1);
            match &items[0] {
                JsonValue::Object(entries) => {
                    assert_eq!(entries[0].0, "role");
                    assert!(matches!(&entries[0].1, JsonValue::String(r) if r == "user"));
                    assert!(matches!(&entries[1].1, JsonValue::String(c) if c == "t2 text"));
                    assert!(matches!(&entries[2].1, JsonValue::String(i) if i == "explain_selection"));
                }
                _ => panic!("each evidence entry is an object"),
            }
        }
        _ => panic!("the evidence is an array"),
    }
    let context = profile_context(JsonValue::Null, "word", &messages);
    assert!(matches!(&context, JsonValue::Object(e) if e.len() == 3 && e[2].0 == "evidenceConversation"));
    let body = profile_request_body("be brief", "{}", JsonValue::Bool(true));
    match body {
        JsonValue::Object(e) => {
            let keys: Vec<&str> = e.iter().map(|(k, _)| k.as_str()).collect();
            assert_eq!(
                keys,
                vec!["model", "store", "stream", "instructions", "input", "reasoning", "text", "prompt_cache_key"]
            );
            assert!(matches!(&e[0].1, JsonValue::String(m) if m == "gpt-5.6-luna"));
            assert!(matches!(&e[3].1, JsonValue::String(i) if i == "be brief"));
            assert!(matches!(&e[7].1, JsonValue::String(k) if k == "gloss:cefr-learner-profile:v3"));
        }
        _ => panic!("the request is an object"),
    }
}
