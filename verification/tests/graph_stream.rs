use tepora_core::graph::search_flow::parse_json_payload;
use tepora_core::graph::stream::{session_event, SessionEvent};
use tepora_core::json::JsonValue;

fn event(text: &str) -> SessionEvent {
    session_event(&parse_json_payload(text).unwrap())
}

#[test]
fn payload_types_become_session_events() {
    assert!(matches!(event(r#"{"type":"chunk","message":"Hi","mode":"chat"}"#), SessionEvent::Token(t) if t == "Hi"));
    assert!(matches!(event(r#"{"type":"thought","content":"hmm"}"#), SessionEvent::Thought(t) if t == "hmm"));
    assert!(matches!(event(r#"{"type":"error","message":"boom"}"#), SessionEvent::Error(t) if t == "boom"));
    assert!(matches!(
        event(r#"{"type":"node_completed","nodeId":"chat","output":{}}"#),
        SessionEvent::NodeCompleted(id) if id == "chat"
    ));
    assert!(matches!(event(r#"{"type":"done"}"#), SessionEvent::GenerationComplete));
    assert!(matches!(event(r#"{"type":"stopped"}"#), SessionEvent::GenerationComplete));
    assert!(matches!(event(r#"{"type":"activity","data":{}}"#), SessionEvent::Status));
}

#[test]
fn missing_fields_fall_back() {
    assert!(matches!(event(r#"{"type":"chunk"}"#), SessionEvent::Token(t) if t.is_empty()));
    assert!(matches!(event(r#"{"type":"error","message":3}"#), SessionEvent::Error(t) if t.is_empty()));
    assert!(matches!(event(r#"{"type":"node_completed"}"#), SessionEvent::NodeCompleted(id) if id == "unknown"));
    assert!(matches!(event(r#"{"message":"no type"}"#), SessionEvent::Status));
    assert!(matches!(session_event(&JsonValue::Null), SessionEvent::Status));
}
