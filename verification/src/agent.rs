//! Decisions of the reading agent around a conversation: which selection an
//! action starts from, when a conversation counts as evidence for the
//! learner profile, and which turn a retry repeats.

use vstd::prelude::*;
use crate::json::JsonValue;
use crate::text::str_eq;

verus! {

/// Who wrote a message.
#[derive(Clone, Copy, PartialEq, Eq, Structural, Debug)]
pub enum MessageRole {
    User,
    Assistant,
}

/// The action that starts a conversation.
#[derive(Clone, Copy, PartialEq, Eq, Structural, Debug)]
pub enum SessionAction {
    Triage,
    Translate,
}

/// A message of a conversation, as the agent reads it.
#[derive(Debug)]
pub struct ConversationMessage {
    pub role: MessageRole,
    pub turn_id: String,
    pub content: String,
    /// Why the user wrote the message (such as `explain_selection`), if the
    /// message records it.
    pub intent: Option<String>,
}

/// What the overlay holds when an action starts.
#[derive(Debug)]
pub enum OverlayStatus {
    /// Nothing was captured.
    Idle,
    /// The captured selection's text.
    Ready(String),
    /// Capturing failed with this message.
    CaptureError(String),
}

/// The selected text an action starts from: the captured text; the capture's
/// error; or, with nothing captured, a hint to select text first.
pub fn selection_for_action(status: OverlayStatus) -> (r: Result<String, String>)
    ensures
        match status {
            OverlayStatus::Ready(t) => r matches Ok(s) && s@ == t@,
            OverlayStatus::CaptureError(m) => r matches Err(e) && e@ == m@,
            OverlayStatus::Idle => r matches Err(e) && e@
                == "Select text, then open Gloss with the shortcut."@,
        },
{
    match status {
        OverlayStatus::Ready(t) => Ok(t),
        OverlayStatus::CaptureError(m) => Err(m),
        OverlayStatus::Idle => Err("Select text, then open Gloss with the shortcut.".to_owned()),
    }
}

/// The number of messages written by the user.
pub open spec fn user_turns(messages: Seq<ConversationMessage>) -> nat
    decreases messages.len(),
{
    if messages.len() == 0 {
        0
    } else {
        user_turns(messages.drop_last()) + if messages.last().role == MessageRole::User {
            1nat
        } else {
            0nat
        }
    }
}

/// The number of messages written by the user.
pub fn count_user_turns(messages: &Vec<ConversationMessage>) -> (n: usize)
    ensures
        n == user_turns(messages@),
{
    let mut n: usize = 0;
    let mut i: usize = 0;
    while i < messages.len()
        invariant
            i <= messages@.len(),
            n == user_turns(messages@.take(i as int)),
            n <= i,
        decreases messages@.len() - i,
    {
        assert(messages@.take(i + 1).drop_last() == messages@.take(i as int));
        if messages[i].role == MessageRole::User {
            n = n + 1;
        }
        i = i + 1;
    }
    assert(messages@.take(messages@.len() as int) == messages@);
    n
}

/// Is a finished turn followed by a learner-profile update? Only for a
/// Triage conversation in which the user has asked at least one follow-up,
/// that is, has written at least two messages.
pub fn profile_update_due(action: SessionAction, messages: &Vec<ConversationMessage>) -> (r: bool)
    ensures
        r == (action == SessionAction::Triage && user_turns(messages@) >= 2),
{
    action == SessionAction::Triage && count_user_turns(messages) >= 2
}

/// The index of the last user message.
pub open spec fn last_user_index(messages: Seq<ConversationMessage>) -> Option<int>
    decreases messages.len(),
{
    if messages.len() == 0 {
        None
    } else if messages.last().role == MessageRole::User {
        Some(messages.len() - 1)
    } else {
        last_user_index(messages.drop_last())
    }
}

proof fn lemma_last_user_index(messages: Seq<ConversationMessage>)
    ensures
        match last_user_index(messages) {
            Some(i) => 0 <= i < messages.len() && messages[i].role == MessageRole::User,
            None => user_turns(messages) == 0,
        },
    decreases messages.len(),
{
    if messages.len() > 0 && messages.last().role != MessageRole::User {
        lemma_last_user_index(messages.drop_last());
    }
}

/// The turn that a learner-profile update evaluates: the turn of the last
/// user message, when the user has written at least two messages.
pub fn profile_evidence_turn(messages: &Vec<ConversationMessage>) -> (r: Option<String>)
    ensures
        user_turns(messages@) < 2 ==> r is None,
        user_turns(messages@) >= 2 ==> (r matches Some(t) && last_user_index(messages@) is Some
            && t@ == messages@[last_user_index(messages@)->0].turn_id@),
{
    if count_user_turns(messages) < 2 {
        return None;
    }
    proof {
        lemma_last_user_index(messages@);
    }
    let mut i: usize = messages.len();
    assert(messages@.take(i as int) == messages@);
    while i > 0
        invariant
            i <= messages@.len(),
            user_turns(messages@) >= 2,
            last_user_index(messages@) == last_user_index(messages@.take(i as int)),
            last_user_index(messages@) is Some,
        decreases i,
    {
        assert(messages@.take(i as int).drop_last() == messages@.take(i - 1));
        if messages[i - 1].role == MessageRole::User {
            return Some(messages[i - 1].turn_id.clone());
        }
        i = i - 1;
    }
    assert(messages@.take(0) =~= Seq::<ConversationMessage>::empty());
    None
}

/// The messages that are not part of the first turn, in order.
pub open spec fn later_turn_messages(messages: Seq<ConversationMessage>, upto: int) -> Seq<int>
    decreases upto,
{
    if upto <= 0 || messages.len() == 0 {
        seq![]
    } else if messages[upto - 1].turn_id@ != messages[0].turn_id@ {
        later_turn_messages(messages, upto - 1).push(upto - 1)
    } else {
        later_turn_messages(messages, upto - 1)
    }
}

proof fn lemma_later_turn_messages_exact(messages: Seq<ConversationMessage>, upto: int)
    requires
        0 <= upto <= messages.len(),
    ensures
        ({
            let later = later_turn_messages(messages, upto);
            &&& forall|i: int| 0 <= i < upto ==> (later.contains(i) <==> messages[i].turn_id@
                != messages[0].turn_id@)
            &&& forall|a: int, b: int| 0 <= a < b < later.len() ==> later[a] < later[b]
            &&& forall|k: int| 0 <= k < later.len() ==> 0 <= #[trigger] later[k] < upto
        }),
    decreases upto,
{
    if upto > 0 {
        lemma_later_turn_messages_exact(messages, upto - 1);
        let prev = later_turn_messages(messages, upto - 1);
        let later = later_turn_messages(messages, upto);
        if messages[upto - 1].turn_id@ != messages[0].turn_id@ {
            assert(later == prev.push(upto - 1));
            assert forall|i: int| 0 <= i < upto implies (later.contains(i) <==> messages[i].turn_id@
                != messages[0].turn_id@) by {
                if i < upto - 1 {
                    if prev.contains(i) {
                        let k = choose|k: int| 0 <= k < prev.len() && prev[k] == i;
                        assert(later[k] == i);
                    }
                    if later.contains(i) {
                        let k = choose|k: int| 0 <= k < later.len() && later[k] == i;
                        if k < prev.len() {
                            assert(prev[k] == i);
                        }
                    }
                } else {
                    assert(later[later.len() - 1] == upto - 1);
                }
            }
            assert forall|k: int| 0 <= k < later.len() implies 0 <= #[trigger] later[k] < upto by {
                if k < prev.len() {
                    assert(later[k] == prev[k]);
                }
            }
            assert forall|a: int, b: int| 0 <= a < b < later.len() implies later[a] < later[b] by {
                assert(later[a] == prev[a]);
                if b < prev.len() {
                    assert(later[b] == prev[b]);
                } else {
                    assert(0 <= prev[a] < upto - 1);
                }
            }
        } else {
            assert(later == prev);
            assert forall|i: int| 0 <= i < upto implies (later.contains(i) <==> messages[i].turn_id@
                != messages[0].turn_id@) by {
                if i == upto - 1 && later.contains(i) {
                    let k = choose|k: int| 0 <= k < later.len() && later[k] == i;
                    assert(later[k] < upto - 1);
                }
            }
        }
    }
}

/// The evidence of a learner-profile update is every message after the
/// first turn, in order: a position is in the evidence exactly when its
/// message's turn differs from the first message's turn, positions come in
/// increasing order, and each is a position of the conversation.
pub proof fn lemma_evidence_is_every_later_message(messages: Seq<ConversationMessage>)
    ensures
        ({
            let later = later_turn_messages(messages, messages.len() as int);
            &&& forall|i: int|
                0 <= i < messages.len() ==> (later.contains(i) <==> messages[i].turn_id@
                    != messages[0].turn_id@)
            &&& forall|a: int, b: int| 0 <= a < b < later.len() ==> later[a] < later[b]
            &&& forall|k: int| 0 <= k < later.len() ==> 0 <= #[trigger] later[k] < messages.len()
        }),
{
    lemma_later_turn_messages_exact(messages, messages.len() as int);
}

/// The positions of the messages that follow the first turn, in order.
pub fn follow_up_positions(messages: &Vec<ConversationMessage>) -> (r: Vec<usize>)
    ensures
        r@.map_values(|i: usize| i as int) == later_turn_messages(messages@, messages@.len() as int),
{
    let mut r: Vec<usize> = Vec::new();
    if messages.len() == 0 {
        assert(r@.map_values(|i: usize| i as int) =~= Seq::<int>::empty());
        return r;
    }
    let mut i: usize = 0;
    assert(r@.map_values(|i: usize| i as int) =~= later_turn_messages(messages@, 0));
    while i < messages.len()
        invariant
            messages@.len() > 0,
            i <= messages@.len(),
            r@.map_values(|i: usize| i as int) == later_turn_messages(messages@, i as int),
        decreases messages@.len() - i,
    {
        let ghost prev = r@;
        if !str_eq(messages[i].turn_id.as_str(), messages[0].turn_id.as_str()) {
            r.push(i);
            assert(r@.map_values(|i: usize| i as int) =~= prev.map_values(|i: usize| i as int).push(
                i as int,
            ));
        }
        i = i + 1;
    }
    r
}

/// The turn that a retry repeats: the turn of the last attempt.
pub fn turn_to_retry(attempt_turns: &Vec<String>) -> (r: Result<String, String>)
    ensures
        attempt_turns@.len() == 0 ==> (r matches Err(m) && m@ == "There is no turn to retry."@),
        attempt_turns@.len() > 0 ==> (r matches Ok(t) && t@ == attempt_turns@.last()@),
{
    if attempt_turns.len() == 0 {
        Err("There is no turn to retry.".to_owned())
    } else {
        Ok(attempt_turns[attempt_turns.len() - 1].clone())
    }
}

/// The active session, or the error that there is none.
pub fn require_active_session(active: Option<String>) -> (r: Result<String, String>)
    ensures
        match active {
            Some(id) => r matches Ok(s) && s@ == id@,
            None => r matches Err(m) && m@ == "There is no active Gloss session."@,
        },
{
    match active {
        Some(id) => Ok(id),
        None => Err("There is no active Gloss session.".to_owned()),
    }
}

/// The active session after a session was deleted: none when it was the
/// deleted one, unchanged otherwise.
pub fn active_after_delete(active: Option<String>, deleted: &str) -> (r: Option<String>)
    ensures
        match active {
            Some(id) => if id@ == deleted@ {
                r is None
            } else {
                r matches Some(s) && s@ == id@
            },
            None => r is None,
        },
{
    match active {
        Some(id) => if str_eq(id.as_str(), deleted) {
            None
        } else {
            Some(id)
        },
        None => None,
    }
}

/// The model that answers requests.
pub const MODEL: &'static str = "gpt-5.6-luna";

/// The name of a role in a request.
pub open spec fn role_name(role: MessageRole) -> Seq<char> {
    match role {
        MessageRole::User => "user"@,
        MessageRole::Assistant => "assistant"@,
    }
}

/// `v` is the JSON string `s`.
pub open spec fn is_text(v: JsonValue, s: Seq<char>) -> bool {
    v matches JsonValue::String(t) && t@ == s
}

/// The name of entry `i` of an object is `k`.
pub open spec fn key_at(e: Seq<(String, JsonValue)>, i: int, k: Seq<char>) -> bool {
    0 <= i < e.len() && e[i].0@ == k
}

/// `v` is the evidence entry of message `m`: its role, its content and its
/// intent (`null` when it has none).
pub open spec fn evidence_entry(v: JsonValue, m: ConversationMessage) -> bool {
    &&& v matches JsonValue::Object(e)
    &&& e@.len() == 3
    &&& key_at(e@, 0, "role"@) && is_text(e@[0].1, role_name(m.role))
    &&& key_at(e@, 1, "content"@) && is_text(e@[1].1, m.content@)
    &&& key_at(e@, 2, "intent"@) && match m.intent {
        Some(i) => is_text(e@[2].1, i@),
        None => e@[2].1 is Null,
    }
}

fn text_value(s: &str) -> (v: JsonValue)
    ensures
        is_text(v, s@),
{
    JsonValue::String(s.to_owned())
}

fn role_value(role: MessageRole) -> (v: JsonValue)
    ensures
        is_text(v, role_name(role)),
{
    match role {
        MessageRole::User => text_value("user"),
        MessageRole::Assistant => text_value("assistant"),
    }
}

/// `v` is the conversation that a profile update weighs: an array with the
/// evidence entry of each message after the first turn, in order.
pub open spec fn is_evidence_conversation(v: JsonValue, messages: Seq<ConversationMessage>) -> bool {
    let later = later_turn_messages(messages, messages.len() as int);
    &&& v matches JsonValue::Array(items)
    &&& items@.len() == later.len()
    &&& forall|k: int|
        0 <= k < later.len() ==> 0 <= later[k] < messages.len() && evidence_entry(
            #[trigger] items@[k],
            messages[later[k]],
        )
}

/// The conversation that a profile update weighs: each message after the
/// first turn, in order, with its role, content and intent.
pub fn evidence_conversation(messages: &Vec<ConversationMessage>) -> (r: JsonValue)
    ensures
        is_evidence_conversation(r, messages@),
{
    let positions = follow_up_positions(messages);
    proof {
        lemma_later_turn_messages_in_range(messages@, messages@.len() as int);
    }
    let ghost later = later_turn_messages(messages@, messages@.len() as int);
    assert(positions@.len() == later.len()) by {
        assert(positions@.map_values(|i: usize| i as int).len() == positions@.len());
    }
    let mut items: Vec<JsonValue> = Vec::new();
    let mut k: usize = 0;
    while k < positions.len()
        invariant
            k <= positions@.len(),
            positions@.len() == later.len(),
            positions@.map_values(|i: usize| i as int) == later,
            forall|j: int| 0 <= j < later.len() ==> 0 <= #[trigger] later[j] < messages@.len(),
            items@.len() == k,
            forall|j: int| 0 <= j < k ==> evidence_entry(#[trigger] items@[j], messages@[later[j]]),
        decreases positions@.len() - k,
    {
        let i = positions[k];
        assert(later[k as int] == i as int) by {
            assert(positions@.map_values(|i: usize| i as int)[k as int] == positions@[k as int] as int);
        }
        let m = &messages[i];
        let intent = match &m.intent {
            Some(t) => text_value(t.as_str()),
            None => JsonValue::Null,
        };
        let mut entry: Vec<(String, JsonValue)> = Vec::new();
        entry.push(("role".to_owned(), role_value(m.role)));
        entry.push(("content".to_owned(), text_value(m.content.as_str())));
        entry.push(("intent".to_owned(), intent));
        items.push(JsonValue::Object(entry));
        k = k + 1;
    }
    JsonValue::Array(items)
}

proof fn lemma_later_turn_messages_in_range(messages: Seq<ConversationMessage>, upto: int)
    requires
        upto <= messages.len(),
    ensures
        forall|j: int|
            0 <= j < later_turn_messages(messages, upto).len() ==> 0 <= #[trigger] later_turn_messages(
                messages,
                upto,
            )[j] < upto,
    decreases upto,
{
    if upto > 0 && messages.len() > 0 {
        lemma_later_turn_messages_in_range(messages, upto - 1);
        let prev = later_turn_messages(messages, upto - 1);
        let cur = later_turn_messages(messages, upto);
        assert forall|j: int| 0 <= j < cur.len() implies 0 <= #[trigger] cur[j] < upto by {
            if j < prev.len() {
                assert(cur[j] == prev[j]);
            }
        }
    }
}

/// The context that a profile update sends to the model: the current
/// profile as given, the selected text, and the evidence conversation.
pub fn profile_context(current_profile: JsonValue, selected_text: &str, messages: &Vec<ConversationMessage>) -> (r:
    JsonValue)
    ensures
        r matches JsonValue::Object(e) && e@.len() == 3
            && key_at(e@, 0, "currentProfile"@) && e@[0].1 == current_profile
            && key_at(e@, 1, "readingContext"@) && (e@[1].1 matches JsonValue::Object(c)
                && c@.len() == 1 && key_at(c@, 0, "selectedText"@) && is_text(c@[0].1, selected_text@))
            && key_at(e@, 2, "evidenceConversation"@) && is_evidence_conversation(e@[2].1, messages@),
{
    let mut reading: Vec<(String, JsonValue)> = Vec::new();
    reading.push(("selectedText".to_owned(), text_value(selected_text)));
    let evidence = evidence_conversation(messages);
    let mut e: Vec<(String, JsonValue)> = Vec::new();
    e.push(("currentProfile".to_owned(), current_profile));
    e.push(("readingContext".to_owned(), JsonValue::Object(reading)));
    e.push(("evidenceConversation".to_owned(), evidence));
    JsonValue::Object(e)
}

/// `v` is a JSON object with one entry per key, in order, each satisfying its
/// test.
pub open spec fn object_with(v: JsonValue, keys: Seq<Seq<char>>) -> bool {
    v matches JsonValue::Object(e) && e@.len() == keys.len() && forall|i: int|
        0 <= i < keys.len() ==> #[trigger] e@[i].0@ == keys[i]
}

/// Entry `i` of an object.
pub open spec fn member(v: JsonValue, i: int) -> JsonValue {
    match v {
        JsonValue::Object(e) => e@[i].1,
        _ => JsonValue::Null,
    }
}

/// Item `i` of an array, which holds `n` items.
pub open spec fn item(v: JsonValue, n: nat, i: int) -> JsonValue {
    match v {
        JsonValue::Array(a) => if a@.len() == n { a@[i] } else { JsonValue::Null },
        _ => JsonValue::Null,
    }
}

/// The request that asks the model for a learner-profile patch: the model,
/// not stored, streamed, with the instructions, the serialised context as
/// the one user message, no reasoning effort, low verbosity, the patch's
/// JSON schema as the strict output format, and the prompt cache key.
pub open spec fn is_profile_request(v: JsonValue, instructions: Seq<char>, context_text: Seq<char>, schema: JsonValue) -> bool {
    &&& object_with(
        v,
        seq![
            "model"@,
            "store"@,
            "stream"@,
            "instructions"@,
            "input"@,
            "reasoning"@,
            "text"@,
            "prompt_cache_key"@,
        ],
    )
    &&& is_text(member(v, 0), MODEL@)
    &&& member(v, 1) == JsonValue::Bool(false)
    &&& member(v, 2) == JsonValue::Bool(true)
    &&& is_text(member(v, 3), instructions)
    &&& member(v, 4) matches JsonValue::Array(input) && input@.len() == 1
    &&& object_with(item(member(v, 4), 1, 0), seq!["type"@, "role"@, "content"@])
    &&& is_text(member(item(member(v, 4), 1, 0), 0), "message"@)
    &&& is_text(member(item(member(v, 4), 1, 0), 1), "user"@)
    &&& member(item(member(v, 4), 1, 0), 2) matches JsonValue::Array(content) && content@.len() == 1
    &&& object_with(item(member(item(member(v, 4), 1, 0), 2), 1, 0), seq!["type"@, "text"@])
    &&& is_text(member(item(member(item(member(v, 4), 1, 0), 2), 1, 0), 0), "input_text"@)
    &&& is_text(member(item(member(item(member(v, 4), 1, 0), 2), 1, 0), 1), context_text)
    &&& object_with(member(v, 5), seq!["effort"@])
    &&& is_text(member(member(v, 5), 0), "none"@)
    &&& object_with(member(v, 6), seq!["verbosity"@, "format"@])
    &&& is_text(member(member(v, 6), 0), "low"@)
    &&& object_with(member(member(v, 6), 1), seq!["type"@, "name"@, "strict"@, "schema"@])
    &&& is_text(member(member(member(v, 6), 1), 0), "json_schema"@)
    &&& is_text(member(member(member(v, 6), 1), 1), "cefr_learner_profile_patch"@)
    &&& member(member(member(v, 6), 1), 2) == JsonValue::Bool(true)
    &&& member(member(member(v, 6), 1), 3) == schema
    &&& is_text(member(v, 7), "gloss:cefr-learner-profile:v3"@)
}

/// The request for a learner-profile patch, from the instructions, the
/// serialised context and the patch's schema.
pub fn profile_request_body(instructions: &str, context_text: &str, schema: JsonValue) -> (r: JsonValue)
    ensures
        is_profile_request(r, instructions@, context_text@, schema),
{
    let mut part: Vec<(String, JsonValue)> = Vec::new();
    part.push(("type".to_owned(), text_value("input_text")));
    part.push(("text".to_owned(), text_value(context_text)));
    let mut content: Vec<JsonValue> = Vec::new();
    content.push(JsonValue::Object(part));
    let mut message: Vec<(String, JsonValue)> = Vec::new();
    message.push(("type".to_owned(), text_value("message")));
    message.push(("role".to_owned(), text_value("user")));
    message.push(("content".to_owned(), JsonValue::Array(content)));
    let mut input: Vec<JsonValue> = Vec::new();
    input.push(JsonValue::Object(message));
    let mut reasoning: Vec<(String, JsonValue)> = Vec::new();
    reasoning.push(("effort".to_owned(), text_value("none")));
    let mut format: Vec<(String, JsonValue)> = Vec::new();
    format.push(("type".to_owned(), text_value("json_schema")));
    format.push(("name".to_owned(), text_value("cefr_learner_profile_patch")));
    format.push(("strict".to_owned(), JsonValue::Bool(true)));
    format.push(("schema".to_owned(), schema));
    let mut text: Vec<(String, JsonValue)> = Vec::new();
    text.push(("verbosity".to_owned(), text_value("low")));
    text.push(("format".to_owned(), JsonValue::Object(format)));
    let mut body: Vec<(String, JsonValue)> = Vec::new();
    body.push(("model".to_owned(), text_value(MODEL)));
    body.push(("store".to_owned(), JsonValue::Bool(false)));
    body.push(("stream".to_owned(), JsonValue::Bool(true)));
    body.push(("instructions".to_owned(), text_value(instructions)));
    body.push(("input".to_owned(), JsonValue::Array(input)));
    body.push(("reasoning".to_owned(), JsonValue::Object(reasoning)));
    body.push(("text".to_owned(), JsonValue::Object(text)));
    body.push(("prompt_cache_key".to_owned(), text_value("gloss:cefr-learner-profile:v3")));
    JsonValue::Object(body)
}

} // verus!
