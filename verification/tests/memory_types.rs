use tepora_core::memory::types::{
    layer_counts_from_rows, parse_memory_layer, CompactionStatus, MemoryEdgeType, MemoryLayer,
    MemoryScope, SourceRole,
};

#[test]
fn memory_scope_round_trip() {
    assert_eq!(MemoryScope::from_str(MemoryScope::Char.as_str()).unwrap(), MemoryScope::Char);
    assert_eq!(MemoryScope::from_str(MemoryScope::Prof.as_str()).unwrap(), MemoryScope::Prof);
    assert!(MemoryScope::from_str("unknown").is_err());
}

#[test]
fn memory_edge_type_round_trip() {
    for ty in [
        MemoryEdgeType::TemporalNext,
        MemoryEdgeType::SemanticNeighbor,
        MemoryEdgeType::CompressedFrom,
    ] {
        assert_eq!(MemoryEdgeType::parse(ty.as_str()), ty);
    }
}

#[test]
fn compaction_status_round_trip() {
    for s in [
        CompactionStatus::Queued,
        CompactionStatus::Running,
        CompactionStatus::Done,
        CompactionStatus::Failed,
    ] {
        assert_eq!(CompactionStatus::from_str(s.as_str()).unwrap(), s);
    }
    assert!(CompactionStatus::from_str("unknown").is_err());
}

#[test]
fn source_role_round_trip() {
    for r in [SourceRole::User, SourceRole::Assistant, SourceRole::Tool, SourceRole::System] {
        assert_eq!(SourceRole::parse(r.as_str()), r);
    }
}

// ---------------------------------------------------------------------------

#[test]
fn memory_layer_round_trip_and_default() {
    assert_eq!(parse_memory_layer(MemoryLayer::LML.as_str()), MemoryLayer::LML);
    assert_eq!(parse_memory_layer(MemoryLayer::SML.as_str()), MemoryLayer::SML);
    assert_eq!(parse_memory_layer("whatever"), MemoryLayer::SML);
    assert_eq!(MemoryLayer::default(), MemoryLayer::SML);
}

#[test]
fn scope_and_status_error_messages() {
    assert_eq!(MemoryScope::from_str("x").unwrap_err(), "Invalid MemoryScope: x");
    assert!(CompactionStatus::from_str("x").unwrap_err().contains("x"));
}

#[test]
fn layer_counts_take_last_row_per_layer() {
    let rows = vec![
        ("LML".to_string(), 3i64),
        ("SML".to_string(), 5i64),
        ("LML".to_string(), -2i64),
    ];
    let counts = layer_counts_from_rows(&rows);
    assert_eq!(counts.lml, 0);
    assert_eq!(counts.sml, 5);
    let counts = layer_counts_from_rows(&vec![]);
    assert_eq!((counts.lml, counts.sml), (0, 0));
}
