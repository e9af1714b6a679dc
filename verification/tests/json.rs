use tepora_core::graph::search_flow::parse_json_payload;
use tepora_core::json::{active_profile, config_bool, config_entry, config_u64, json_as_i64, json_as_str, json_as_u64, json_first_item, json_get, json_is_object, json_str_field, json_take, JsonNumber, JsonValue};

#[test]
fn parsed_documents_keep_their_shape() {
    let doc = parse_json_payload(r#"{"a": [1, -2, 2.5, "x", null, true], "b": {"c": 18446744073709551615}}"#)
        .unwrap();
    assert!(json_is_object(&doc));
    let items = match json_get(&doc, "a") {
        Some(JsonValue::Array(items)) => items,
        other => panic!("unexpected {:?}", other),
    };
    assert_eq!(items.len(), 6);
    assert!(matches!(items[0], JsonValue::Number(JsonNumber::PosInt(1))));
    assert!(matches!(items[1], JsonValue::Number(JsonNumber::NegInt(-2))));
    assert!(matches!(&items[2], JsonValue::Number(JsonNumber::Float(t)) if t == "2.5"));
    assert_eq!(json_as_str(&items[3]), Some("x"));
    assert!(matches!(items[4], JsonValue::Null));
    assert!(matches!(items[5], JsonValue::Bool(true)));
    assert!(matches!(json_first_item(json_get(&doc, "a").unwrap()), Some(JsonValue::Number(_))));
    let big = config_entry(&doc, "b", "c").unwrap();
    assert_eq!(json_as_u64(big), Some(u64::MAX));
    assert_eq!(json_as_i64(big), None);
    assert_eq!(json_as_i64(&items[1]), Some(-2));
    assert_eq!(json_as_i64(&items[0]), Some(1));
    assert!(parse_json_payload("{not json").is_none());
    assert!(parse_json_payload("").is_none());
}

#[test]
fn missing_members_and_wrong_kinds_read_as_none() {
    let doc = parse_json_payload(r#"{"privacy": {"allow_web_search": "yes"}, "search": {"rag_limit": -1}}"#)
        .unwrap();
    assert_eq!(config_bool(&doc, "privacy", "allow_web_search"), None);
    assert_eq!(config_bool(&doc, "privacy", "isolation_mode"), None);
    assert_eq!(config_u64(&doc, "search", "rag_limit"), None);
    assert_eq!(config_u64(&doc, "nothing", "rag_limit"), None);
    assert!(json_get(&JsonValue::Null, "privacy").is_none());
    assert_eq!(json_str_field(&doc, "privacy"), None);
}

#[test]
fn active_profile_prefers_active_character() {
    let both = parse_json_payload(r#"{"active_character": "bunny", "active_agent_profile": "agent"}"#).unwrap();
    assert_eq!(active_profile(&both), Some("bunny"));
    let agent = parse_json_payload(r#"{"active_agent_profile": "agent"}"#).unwrap();
    assert_eq!(active_profile(&agent), Some("agent"));
    let not_text = parse_json_payload(r#"{"active_character": 3, "active_agent_profile": "agent"}"#).unwrap();
    assert_eq!(active_profile(&not_text), None);
    assert_eq!(active_profile(&JsonValue::Null), None);
}

#[test]
fn take_moves_a_member_out() {
    let doc = parse_json_payload(r#"{"tool_args": {"q": "rust"}, "other": 1}"#).unwrap();
    let args = json_take(doc, "tool_args").unwrap();
    assert_eq!(json_str_field(&args, "q"), Some("rust"));
    let doc = parse_json_payload(r#"{"other": 1}"#).unwrap();
    assert!(json_take(doc, "tool_args").is_none());
    assert!(json_take(JsonValue::Bool(true), "tool_args").is_none());
}
