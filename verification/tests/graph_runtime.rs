use tepora_core::graph::node::{GraphError, NodeOutput};
use tepora_core::graph::runtime::{EdgeCondition, GraphBuilder, GraphRuntime, RunAction};

fn index_of(runtime: &GraphRuntime, id: &str) -> usize {
    runtime.get_node(id).unwrap()
}

#[test]
fn test_edge_condition_matching() {
    assert!(EdgeCondition::Always.matches(None));
    assert!(!EdgeCondition::Always.matches(Some("chat")));

    assert!(EdgeCondition::on("chat").matches(Some("chat")));
    assert!(!EdgeCondition::on("chat").matches(Some("search")));
    assert!(!EdgeCondition::on("chat").matches(None));
}

#[test]
fn edge_condition_always_constructor() {
    let cond = EdgeCondition::always();
    assert_eq!(cond, EdgeCondition::Always);
}

#[test]
fn edge_condition_on_constructor() {
    let cond = EdgeCondition::on("agent");
    assert_eq!(cond, EdgeCondition::OnCondition("agent".to_string()));
}

#[test]
fn edge_condition_debug_and_clone() {
    let cond = EdgeCondition::on("test");
    let cloned = cond.clone();
    assert_eq!(cond, cloned);
    let debug_str = format!("{:?}", cond);
    assert!(debug_str.contains("test"));
}

#[test]
fn new_runtime_has_no_nodes() {
    let runtime = GraphRuntime::new();
    assert!(runtime.node_ids().is_empty());
    assert!(!runtime.has_cycle());
}

#[test]
fn default_runtime_equals_new() {
    let runtime = GraphRuntime::default();
    assert!(runtime.node_ids().is_empty());
}

#[test]
fn add_node_returns_index_and_is_retrievable() {
    let mut runtime = GraphRuntime::new();
    let idx = runtime.add_node("alpha");

    assert_eq!(runtime.node_ids().len(), 1);
    assert!(runtime.get_node("alpha").is_some());
    assert_eq!(runtime.get_node("alpha"), Some(idx));
    assert_eq!(runtime.node_id(idx), Some("alpha".to_string()));
}

#[test]
fn get_node_returns_none_for_unknown() {
    let runtime = GraphRuntime::new();
    assert!(runtime.get_node("nonexistent").is_none());
}

#[test]
fn add_multiple_nodes() {
    let mut runtime = GraphRuntime::new();
    runtime.add_node("a");
    runtime.add_node("b");
    runtime.add_node("c");

    assert_eq!(runtime.node_ids().len(), 3);
    assert!(runtime.get_node("a").is_some());
    assert!(runtime.get_node("b").is_some());
    assert!(runtime.get_node("c").is_some());
}

#[test]
fn add_edge_succeeds_for_existing_nodes() {
    let mut runtime = GraphRuntime::new();
    runtime.add_node("a");
    runtime.add_node("b");

    let result = runtime.add_edge("a", "b");
    assert!(result.is_ok());
}

#[test]
fn add_edge_fails_for_missing_source() {
    let mut runtime = GraphRuntime::new();
    runtime.add_node("b");

    let result = runtime.add_edge("a", "b");
    assert!(result.is_err());
}

#[test]
fn add_edge_fails_for_missing_target() {
    let mut runtime = GraphRuntime::new();
    runtime.add_node("a");

    let result = runtime.add_edge("a", "b");
    assert!(result.is_err());
}

#[test]
fn add_conditional_edge_succeeds() {
    let mut runtime = GraphRuntime::new();
    runtime.add_node("a");
    runtime.add_node("b");

    let result = runtime.add_conditional_edge("a", "b", EdgeCondition::on("chat"));
    assert!(result.is_ok());
}

#[test]
fn has_cycle_detects_cycle() {
    let mut runtime = GraphRuntime::new();
    runtime.add_node("a");
    runtime.add_node("b");
    runtime.add_edge("a", "b").unwrap();
    runtime.add_edge("b", "a").unwrap();

    assert!(runtime.has_cycle());
}

#[test]
fn has_cycle_returns_false_for_dag() {
    let mut runtime = GraphRuntime::new();
    runtime.add_node("a");
    runtime.add_node("b");
    runtime.add_node("c");
    runtime.add_edge("a", "b").unwrap();
    runtime.add_edge("b", "c").unwrap();

    assert!(!runtime.has_cycle());
}

#[test]
fn with_max_steps_sets_value() {
    let runtime = GraphRuntime::new().with_max_steps(100);
    assert_eq!(runtime.max_steps(), 100);
}

#[test]
fn with_entry_sets_entry_node() {
    let runtime = GraphRuntime::new().with_entry("start");
    assert_eq!(runtime.entry_node_id(), "start");
}

#[test]
fn graph_builder_default_equals_new() {
    let builder1 = GraphBuilder::new();
    let builder2 = GraphBuilder::default();
    let rt1 = builder1.build();
    let rt2 = builder2.build();
    assert!(rt1.is_ok());
    assert!(rt2.is_ok());
}

#[test]
fn graph_builder_builds_simple_graph() {
    let result = GraphBuilder::new()
        .entry("start")
        .max_steps(10)
        .node("start")
        .node("end")
        .edge("start", "end")
        .build();

    assert!(result.is_ok());
    let runtime = result.unwrap();
    assert_eq!(runtime.node_ids().len(), 2);
}

#[test]
fn graph_builder_with_conditional_edges() {
    let result = GraphBuilder::new()
        .entry("router")
        .node("router")
        .node("chat")
        .node("search")
        .conditional_edge("router", "chat", "chat")
        .conditional_edge("router", "search", "search")
        .build();

    assert!(result.is_ok());
    let runtime = result.unwrap();
    assert_eq!(runtime.node_ids().len(), 3);
}

#[test]
fn graph_builder_fails_with_missing_node_in_edge() {
    let result = GraphBuilder::new()
        .entry("start")
        .node("start")
        .edge("start", "nonexistent")
        .build();

    assert!(result.is_err());
}

#[test]
fn graph_builder_entry_and_max_steps() {
    let result = GraphBuilder::new().entry("first").max_steps(25).node("first").build();

    assert!(result.is_ok());
    let runtime = result.unwrap();
    assert_eq!(runtime.max_steps(), 25);
    assert_eq!(runtime.entry_node_id(), "first");
}

#[test]
fn resolve_next_node_finds_always_edge() {
    let mut runtime = GraphRuntime::new().with_entry("a");
    runtime.add_node("a");
    runtime.add_node("b");
    runtime.add_edge("a", "b").unwrap();

    let idx_a = index_of(&runtime, "a");
    let result = runtime.resolve_next_node(idx_a, None, None);
    assert!(result.is_ok());
    assert_eq!(result.unwrap(), index_of(&runtime, "b"));
}

#[test]
fn resolve_next_node_finds_conditional_edge() {
    let mut runtime = GraphRuntime::new().with_entry("router");
    runtime.add_node("router");
    runtime.add_node("chat");
    runtime.add_node("search");
    runtime.add_conditional_edge("router", "chat", EdgeCondition::on("chat")).unwrap();
    runtime.add_conditional_edge("router", "search", EdgeCondition::on("search")).unwrap();

    let idx_router = index_of(&runtime, "router");

    let result_chat = runtime.resolve_next_node(idx_router, Some("chat"), None);
    assert!(result_chat.is_ok());
    assert_eq!(result_chat.unwrap(), index_of(&runtime, "chat"));

    let result_search = runtime.resolve_next_node(idx_router, Some("search"), None);
    assert!(result_search.is_ok());
    assert_eq!(result_search.unwrap(), index_of(&runtime, "search"));
}

#[test]
fn resolve_next_node_explicit_overrides_edges() {
    let mut runtime = GraphRuntime::new().with_entry("a");
    runtime.add_node("a");
    runtime.add_node("b");
    runtime.add_node("c");
    runtime.add_edge("a", "b").unwrap();

    let idx_a = index_of(&runtime, "a");
    let result = runtime.resolve_next_node(idx_a, None, Some("c"));
    assert!(result.is_ok());
    assert_eq!(result.unwrap(), index_of(&runtime, "c"));
}

#[test]
fn resolve_next_node_explicit_fails_for_unknown_node() {
    let mut runtime = GraphRuntime::new().with_entry("a");
    runtime.add_node("a");
    runtime.add_node("b");
    runtime.add_edge("a", "b").unwrap();

    let idx_a = index_of(&runtime, "a");
    let result = runtime.resolve_next_node(idx_a, None, Some("nonexistent"));
    assert!(result.is_err());
}

#[test]
fn resolve_next_node_no_outgoing_edges_errors() {
    let mut runtime = GraphRuntime::new().with_entry("a");
    runtime.add_node("a");

    let idx_a = index_of(&runtime, "a");
    let result = runtime.resolve_next_node(idx_a, None, None);
    assert!(result.is_err());
    assert!(result.unwrap_err().message.contains("No outgoing edges"));
}

#[test]
fn resolve_next_node_unmatched_condition_falls_back_to_always() {
    let mut runtime = GraphRuntime::new().with_entry("a");
    runtime.add_node("a");
    runtime.add_node("b");
    runtime.add_node("c");
    runtime.add_conditional_edge("a", "b", EdgeCondition::on("match_me")).unwrap();
    runtime.add_edge("a", "c").unwrap();

    let idx_a = index_of(&runtime, "a");
    let result = runtime.resolve_next_node(idx_a, Some("no_match"), None);
    assert!(result.is_ok());
    assert_eq!(result.unwrap(), index_of(&runtime, "c"));
}

#[test]
fn resolve_next_node_unmatched_condition_no_fallback_errors() {
    let mut runtime = GraphRuntime::new().with_entry("a");
    runtime.add_node("a");
    runtime.add_node("b");
    runtime.add_conditional_edge("a", "b", EdgeCondition::on("specific")).unwrap();

    let idx_a = index_of(&runtime, "a");
    let result = runtime.resolve_next_node(idx_a, Some("other"), None);
    assert!(result.is_err());
    assert!(result.unwrap_err().message.contains("No matching edge"));
}

#[test]
fn graph_error_display() {
    let err = GraphError::new("node1", "something went wrong");
    let display = err.to_display_string();
    assert!(display.contains("node1"));
    assert!(display.contains("something went wrong"));
}

#[test]
fn graph_error_converts_to_api_error() {
    let graph_err = GraphError::new("test_node", "failure reason");
    let msg = graph_err.api_message();
    assert!(msg.contains("test_node"));
    assert!(msg.contains("failure reason"));
}

// ---------------------------------------------------------------------------
// Further cases of the runtime's contracts.
// ---------------------------------------------------------------------------

#[test]
fn graph_error_display_exact_text() {
    let err = GraphError::new("node1", "boom");
    assert_eq!(err.to_display_string(), "GraphError in node1: boom");
    let traced = err.with_trace_entry("a").with_trace_entry("b");
    assert_eq!(traced.to_display_string(), "GraphError in node1 (trace: a -> b): boom");
    assert_eq!(traced.api_message(), "Graph error in node1 (trace: a -> b): boom");
}

#[test]
fn duplicate_ids_resolve_to_last_added() {
    let mut runtime = GraphRuntime::new();
    runtime.add_node("x");
    let second = runtime.add_node("x");
    assert_eq!(runtime.get_node("x"), Some(second));
    assert_eq!(runtime.node_ids(), vec!["x".to_string()]);
}

#[test]
fn explicit_target_error_message() {
    let mut runtime = GraphRuntime::new();
    runtime.add_node("a");
    let err = runtime.resolve_next_node(0, None, Some("zzz")).unwrap_err();
    assert_eq!(err.node_id, "a");
    assert_eq!(err.message, "Explicit target node not found: zzz");
}

#[test]
fn missing_edge_endpoint_messages() {
    let mut runtime = GraphRuntime::new();
    runtime.add_node("a");
    let err = runtime.add_edge("a", "b").unwrap_err();
    assert!(err.message.contains("b"));
    let err = runtime.add_edge("q", "a").unwrap_err();
    assert!(err.message.contains("q"));
}

#[test]
fn run_start_requires_entry() {
    let runtime = GraphRuntime::new();
    let err = runtime.run_start().unwrap_err();
    assert_eq!(err.message, "No entry node set");

    let runtime = GraphRuntime::new().with_entry("ghost");
    let err = runtime.run_start().unwrap_err();
    assert_eq!(err.message, "Entry node not found: ghost");
}

#[test]
fn run_start_and_advance_walk_a_chain() {
    let runtime = GraphBuilder::new()
        .entry("a")
        .max_steps(5)
        .node("a")
        .node("b")
        .node("c")
        .edge("a", "b")
        .conditional_edge("b", "c", "go")
        .build()
        .unwrap();
    let start = runtime.run_start().unwrap();
    assert_eq!(start, 0);
    let next = runtime.run_advance(start, 0, NodeOutput::Continue(None)).unwrap();
    assert_eq!(next, RunAction::Execute(1));
    let next = runtime.run_advance(1, 1, NodeOutput::Branch("go".to_string())).unwrap();
    assert_eq!(next, RunAction::Execute(2));
    let done = runtime.run_advance(2, 2, NodeOutput::Final).unwrap();
    assert_eq!(done, RunAction::Finished);
}

#[test]
fn run_advance_reports_node_error_and_step_limit() {
    let runtime = GraphBuilder::new()
        .entry("a")
        .max_steps(2)
        .node("a")
        .node("b")
        .edge("a", "b")
        .edge("b", "a")
        .build()
        .unwrap();
    let err = runtime.run_advance(0, 0, NodeOutput::Error("bad".to_string())).unwrap_err();
    assert_eq!(err.node_id, "a");
    assert_eq!(err.message, "bad");
    let next = runtime.run_advance(0, 0, NodeOutput::Continue(None)).unwrap();
    assert_eq!(next, RunAction::Execute(1));
    let err = runtime.run_advance(1, 1, NodeOutput::Continue(None)).unwrap_err();
    assert!(err.message.contains("2"));
}
