//! What a streamed graph payload becomes for the subscribers of a session.
//!
//! Nodes stream JSON payloads tagged by their `type`.  A session's
//! subscribers receive typed events instead: the answer's tokens, the
//! reasoning, errors, finished nodes, the end of the run, and anything else
//! as a status line.

use vstd::prelude::*;

use crate::json::{json_str_field, str_field_of, JsonValue};
use crate::text::{str_eq, to_owned_string};

verus! {

/// The event a payload becomes.
#[derive(Debug, Clone)]
pub enum SessionEvent {
    /// A piece of the answer (`chunk`, its `message`).
    Token(String),
    /// A piece of reasoning (`thought`, its `content`).
    Thought(String),
    /// A failure (`error`, its `message`).
    Error(String),
    /// A node finished (`node_completed`, its `nodeId`); the sender attaches
    /// the payload's `output`, an empty object when it has none.
    NodeCompleted(String),
    /// The run ended (`done` or `stopped`).
    GenerationComplete,
    /// Any other payload; the sender passes on the payload's JSON text.
    Status,
}

/// The text at `payload[key]`, or `default` when it is not a string.
pub open spec fn text_or(payload: JsonValue, key: Seq<char>, default: Seq<char>) -> Seq<char> {
    match str_field_of(payload, key) {
        Some(t) => t,
        None => default,
    }
}

/// `e` is the event for `payload`.
pub open spec fn is_event_for(payload: JsonValue, e: SessionEvent) -> bool {
    let t = text_or(payload, "type"@, ""@);
    if t == "chunk"@ {
        e matches SessionEvent::Token(s) && s@ == text_or(payload, "message"@, ""@)
    } else if t == "thought"@ {
        e matches SessionEvent::Thought(s) && s@ == text_or(payload, "content"@, ""@)
    } else if t == "error"@ {
        e matches SessionEvent::Error(s) && s@ == text_or(payload, "message"@, ""@)
    } else if t == "node_completed"@ {
        e matches SessionEvent::NodeCompleted(s) && s@ == text_or(payload, "nodeId"@, "unknown"@)
    } else if t == "done"@ || t == "stopped"@ {
        e is GenerationComplete
    } else {
        e is Status
    }
}

fn text_or_default(payload: &JsonValue, key: &str, default: &str) -> (s: String)
    ensures
        s@ == text_or(*payload, key@, default@),
{
    match json_str_field(payload, key) {
        Some(t) => to_owned_string(t),
        None => to_owned_string(default),
    }
}

/// The event a streamed payload becomes for the session's subscribers.
pub fn session_event(payload: &JsonValue) -> (e: SessionEvent)
    ensures
        is_event_for(*payload, e),
{
    let t = text_or_default(payload, "type", "");
    let t = t.as_str();
    if str_eq(t, "chunk") {
        SessionEvent::Token(text_or_default(payload, "message", ""))
    } else if str_eq(t, "thought") {
        SessionEvent::Thought(text_or_default(payload, "content", ""))
    } else if str_eq(t, "error") {
        SessionEvent::Error(text_or_default(payload, "message", ""))
    } else if str_eq(t, "node_completed") {
        SessionEvent::NodeCompleted(text_or_default(payload, "nodeId", "unknown"))
    } else if str_eq(t, "done") || str_eq(t, "stopped") {
        SessionEvent::GenerationComplete
    } else {
        SessionEvent::Status
    }
}

} // verus!
