use tepora_core::graph::builder::{
    build_tepora_graph, instantiate_node, load_workflow_from_json, EdgeDef, NodeDef, NodeKind,
    WorkflowDef,
};
use tepora_core::json::JsonValue;

const TEPORA_KINDS: [NodeKind; 9] = [
    NodeKind::Router,
    NodeKind::Thinking,
    NodeKind::Chat,
    NodeKind::Search,
    NodeKind::AgenticSearch,
    NodeKind::Supervisor,
    NodeKind::Planner,
    NodeKind::AgentExecutor,
    NodeKind::Synthesizer,
];

#[test]
fn build_tepora_graph_succeeds() {
    let result = build_tepora_graph(50);
    assert!(result.is_ok(), "build_tepora_graph() should succeed");
}

#[test]
fn tepora_graph_has_all_expected_nodes() {
    let graph = build_tepora_graph(50).unwrap();
    let ids = graph.node_ids();

    let expected_nodes = [
        "router",
        "thinking",
        "chat",
        "search",
        "search_agentic",
        "supervisor",
        "planner",
        "agent_executor",
        "synthesizer",
    ];

    for node_id in &expected_nodes {
        assert!(
            ids.iter().any(|id| id == node_id),
            "Graph should contain node '{}', found: {:?}",
            node_id,
            ids
        );
    }

    assert_eq!(ids.len(), expected_nodes.len());
}

#[test]
fn tepora_graph_nodes_have_correct_ids() {
    let graph = build_tepora_graph(50).unwrap();
    for id in [
        "router",
        "thinking",
        "chat",
        "search",
        "search_agentic",
        "supervisor",
        "planner",
        "agent_executor",
        "synthesizer",
    ] {
        let index = graph.get_node(id).unwrap();
        assert_eq!(graph.node_id(index), Some(id.to_string()));
    }
}

#[test]
fn tepora_graph_nodes_have_human_readable_names() {
    let graph = build_tepora_graph(50).unwrap();
    for node_id in graph.node_ids() {
        let kind = TEPORA_KINDS.iter().find(|k| k.id() == node_id).unwrap();
        assert!(!kind.name().is_empty(), "Node '{}' should have a non-empty name()", node_id);
    }
}

#[test]
fn tepora_graph_has_cycles() {
    let graph = build_tepora_graph(50).unwrap();
    assert!(!graph.has_cycle());
}

// ---------------------------------------------------------------------------

#[test]
fn tepora_graph_routes_modes() {
    let graph = build_tepora_graph(50).unwrap();
    assert_eq!(graph.entry_node_id(), "router");
    assert_eq!(graph.max_steps(), 50);
    let router = graph.get_node("router").unwrap();
    for target in ["thinking", "chat", "search", "search_agentic", "supervisor"] {
        let next = graph.resolve_next_node(router, Some(target), None).unwrap();
        assert_eq!(graph.node_id(next), Some(target.to_string()));
    }
    let supervisor = graph.get_node("supervisor").unwrap();
    let next = graph.resolve_next_node(supervisor, Some("direct"), None).unwrap();
    assert_eq!(graph.node_id(next), Some("agent_executor".to_string()));
    let thinking = graph.get_node("thinking").unwrap();
    let next = graph.resolve_next_node(thinking, None, None).unwrap();
    assert_eq!(graph.node_id(next), Some("chat".to_string()));
}

#[test]
fn instantiate_node_known_and_unknown() {
    assert_eq!(instantiate_node("ChatNode").unwrap(), NodeKind::Chat);
    assert_eq!(instantiate_node("ToolNode").unwrap(), NodeKind::Tool);
    let err = instantiate_node("FancyNode").unwrap_err();
    assert_eq!(err.node_id, "loader");
    assert_eq!(err.message, "Unknown node type 'FancyNode' requested via JSON schema");
}

fn node(id: &str, ty: &str) -> NodeDef {
    NodeDef { id: id.to_string(), node_type: ty.to_string(), metadata: JsonValue::Null }
}

fn edge(from: &str, to: &str, condition: Option<&str>) -> EdgeDef {
    EdgeDef {
        from: from.to_string(),
        to: to.to_string(),
        condition: condition.map(|c| c.to_string()),
        metadata: JsonValue::Null,
    }
}

#[test]
fn load_workflow_builds_graph() {
    let def = WorkflowDef {
        name: "custom".to_string(),
        entry_node: "router".to_string(),
        nodes: vec![node("router", "RouterNode"), node("chat_1", "ChatNode")],
        edges: vec![edge("router", "chat_1", Some("chat"))],
        max_steps: Some(7),
        execution_timeout_ms: None,
    };
    let runtime = load_workflow_from_json(&def).unwrap();
    assert_eq!(runtime.max_steps(), 7);
    assert_eq!(runtime.entry_node_id(), "router");
    let next = runtime.resolve_next_node(0, Some("chat"), None).unwrap();
    assert_eq!(runtime.node_id(next), Some("chat_1".to_string()));
}

#[test]
fn load_workflow_rejects_unknown_type_and_missing_node() {
    let def = WorkflowDef {
        name: "bad".to_string(),
        entry_node: "a".to_string(),
        nodes: vec![node("a", "ChatNode"), node("b", "MysteryNode")],
        edges: vec![],
        max_steps: None,
        execution_timeout_ms: None,
    };
    let err = load_workflow_from_json(&def).unwrap_err();
    assert_eq!(err.message, "Unknown node type 'MysteryNode' requested via JSON schema");

    let def = WorkflowDef {
        name: "dangling".to_string(),
        entry_node: "a".to_string(),
        nodes: vec![node("a", "ChatNode")],
        edges: vec![edge("a", "zzz", None)],
        max_steps: None,
        execution_timeout_ms: None,
    };
    let err = load_workflow_from_json(&def).unwrap_err();
    assert!(err.message.contains("zzz"));
    let def_ok = WorkflowDef {
        name: "default_steps".to_string(),
        entry_node: "a".to_string(),
        nodes: vec![node("a", "ChatNode")],
        edges: vec![],
        max_steps: None,
        execution_timeout_ms: None,
    };
    assert_eq!(load_workflow_from_json(&def_ok).unwrap().max_steps(), 50);
}
