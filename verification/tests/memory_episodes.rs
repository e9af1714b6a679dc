use tepora_core::memory::episodes::memory_source_uri;
use tepora_core::graph::search_flow::parse_json_payload;
use tepora_core::memory::episodes::{
    build_memory_text, count_layer_change, decay_reference, interaction_content,
    latest_timestamp, memory_settings, memory_sentences, source_turn_id, temporal_links,
    MemorySettings, event_records, ingest_route, IngestRoute,
};
use tepora_core::json::JsonValue;
use tepora_core::memory::types::{DecayCycleResult, MemoryLayer, MemoryScope};

#[test]
fn latest_timestamp_picks_newer_anchor() {
    let older = (chrono::Utc::now() - chrono::Duration::days(1)).to_rfc3339();
    let newer = chrono::Utc::now().to_rfc3339();

    let selected = latest_timestamp(Some(&older), Some(&newer));
    assert_eq!(selected, Some(newer.as_str()));
}

#[test]
fn latest_timestamp_with_missing_or_bad_anchors() {
    let good = "2024-01-01T00:00:00Z";
    assert_eq!(latest_timestamp(Some(good), None), Some(good));
    assert_eq!(latest_timestamp(None, Some("bad")), Some("bad"));
    assert_eq!(latest_timestamp(Some(good), Some("bad")), Some(good));
    assert_eq!(latest_timestamp(Some("bad"), Some(good)), Some(good));
    assert_eq!(latest_timestamp(Some("x"), Some("y")), Some("y"));
    assert_eq!(latest_timestamp(None, None), None);
    assert_eq!(
        latest_timestamp(Some("2024-01-02T00:00:00Z"), Some("2024-01-01T23:00:00-02:00")),
        Some("2024-01-01T23:00:00-02:00")
    );
}

#[test]
fn memory_text_of_a_turn() {
    assert_eq!(build_memory_text(" hi ", " hello "), "User: hi\nAssistant: hello");
    assert_eq!(interaction_content("  ", "\n"), None);
    assert_eq!(interaction_content("", "ok"), Some("User: \nAssistant: ok".to_string()));
}

#[test]
fn turn_sentences_fall_back_to_whole_text() {
    let short = "User: hi\nAssistant: yo";
    assert!(!memory_sentences(short).is_empty());
    assert_eq!(memory_sentences(""), vec![""]);
}

#[test]
fn turn_ids_and_links() {
    assert_eq!(source_turn_id("s1", 1700000000), "s1-1700000000");
    assert_eq!(source_turn_id("s1", -5), "s1--5");
    let ids = vec!["a".to_string(), "b".to_string(), "c".to_string()];
    let links = temporal_links(&ids);
    assert_eq!(
        links,
        vec![("a".to_string(), "b".to_string()), ("b".to_string(), "c".to_string())]
    );
    assert!(temporal_links(&vec![]).is_empty());
    assert!(temporal_links(&vec!["x".to_string()]).is_empty());
}

#[test]
fn decay_bookkeeping() {
    assert_eq!(decay_reference(10, Some(20)), 20);
    assert_eq!(decay_reference(10, Some(5)), 10);
    assert_eq!(decay_reference(10, None), 10);
    let mut result = DecayCycleResult { updated: 0, promoted: 0, demoted: 0, pruned: 0 };
    count_layer_change(&mut result, MemoryLayer::SML, MemoryLayer::LML);
    count_layer_change(&mut result, MemoryLayer::LML, MemoryLayer::SML);
    count_layer_change(&mut result, MemoryLayer::LML, MemoryLayer::LML);
    assert_eq!((result.promoted, result.demoted), (1, 1));
}

#[test]
fn memory_settings_from_config() {
    let s = memory_settings(&JsonValue::Null);
    assert_eq!(s, MemorySettings { enabled: true, retrieval_limit: 5 });
    let s = memory_settings(&parse_json_payload(r#"{"em_llm": {"enabled": false, "retrieval_limit": 50}}"#).unwrap());
    assert_eq!(s, MemorySettings { enabled: false, retrieval_limit: 20 });
    let s = memory_settings(&parse_json_payload(r#"{"em_llm": {"enabled": "no", "retrieval_limit": 0}}"#).unwrap());
    assert_eq!(s, MemorySettings { enabled: true, retrieval_limit: 1 });
    let s = memory_settings(&parse_json_payload(r#"{"em_llm": {"retrieval_limit": 7}}"#).unwrap());
    assert_eq!(s.retrieval_limit, 7);
}

#[test]
fn ingest_route_follows_switches() {
    assert_eq!(ingest_route(false, true), IngestRoute::Skip);
    assert_eq!(ingest_route(false, false), IngestRoute::Skip);
    assert_eq!(ingest_route(true, true), IngestRoute::Legacy);
    assert_eq!(ingest_route(true, false), IngestRoute::Segmented);
}

#[test]
fn event_records_number_events_in_one_episode() {
    let events = vec![
        ("e1".to_string(), vec!["hello".to_string(), "there".to_string()]),
        ("e2".to_string(), vec!["bye".to_string()]),
    ];
    let records = event_records("s1", "ep", "s1-42", &events);
    assert_eq!(records.len(), 2);
    assert_eq!(records[0].id, "e1");
    assert_eq!(records[0].content, "hello there");
    assert_eq!(records[0].event_seq, 0);
    assert_eq!(records[1].content, "bye");
    assert_eq!(records[1].event_seq, 1);
    for r in &records {
        assert_eq!(r.session_id, "s1");
        assert_eq!(r.episode_id, "ep");
        assert_eq!(r.source_turn_id, "s1-42");
        assert_eq!(r.scope, MemoryScope::Char);
        assert_eq!(r.layer, MemoryLayer::SML);
        assert_eq!(r.access_count, 0);
    }
    assert!(event_records("s1", "ep", "t", &Vec::new()).is_empty());
}

#[test]
fn recalled_memories_cite_their_event() {
    assert_eq!(memory_source_uri("s1", "e9"), "em://s1/evt/e9");
}
