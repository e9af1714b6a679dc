use tepora_core::graph::nodes::{AgenticSearchNode, ChatNode, ChatStreamStep};
use tepora_core::graph::search_flow::parse_json_payload;
use tepora_core::graph::nodes::{
    build_executor_task_packet, summarize_tool_output, AgentExecutorNode, RouterNode,
    SupervisorNode,
};
use tepora_core::graph::node::NodeOutput;
use tepora_core::graph::nodes::{PlannerNode, ToolNode};
use tepora_core::json::{json_get, JsonNumber, JsonValue};
use tepora_core::graph::state::{
    needs_pipeline_rebuild, pipeline_mode_for_agent, AgentMode, Mode, PipelineMode, SupervisorRoute,
};

#[test]
fn router_node_id_and_name() {
    let node = RouterNode::new();
    assert_eq!(node.id(), "router");
    assert_eq!(node.name(), "Mode Router");
}

#[test]
fn router_node_default() {
    let node = RouterNode;
    assert_eq!(node.id(), "router");
}

// ---------------------------------------------------------------------------

#[test]
fn router_routes_each_mode() {
    assert_eq!(RouterNode::route(Mode::Chat, false, false), "chat");
    assert_eq!(RouterNode::route(Mode::Chat, true, false), "thinking");
    assert_eq!(RouterNode::route(Mode::Search, false, false), "search");
    assert_eq!(RouterNode::route(Mode::Search, false, true), "search_agentic");
    assert_eq!(RouterNode::route(Mode::SearchAgentic, false, false), "search_agentic");
    assert_eq!(RouterNode::route(Mode::Agent, true, true), "supervisor");
}

#[test]
fn supervisor_routes_by_agent_mode() {
    let (route, branch, label) = SupervisorNode::route(AgentMode::High, false, None);
    assert_eq!(route, SupervisorRoute::Planner);
    assert_eq!((branch, label), ("planner", "planner"));

    let (route, branch, label) = SupervisorNode::route(AgentMode::Low, true, None);
    assert_eq!(route, SupervisorRoute::Planner);
    assert_eq!((branch, label), ("planner", "planner"));

    let (route, branch, label) =
        SupervisorNode::route(AgentMode::Low, false, Some("coder".to_string()));
    assert_eq!(route, SupervisorRoute::Agent("coder".to_string()));
    assert_eq!((branch, label), ("agent_executor", "direct"));

    let (route, _, _) = SupervisorNode::route(AgentMode::Direct, true, None);
    assert_eq!(route, SupervisorRoute::Agent(String::new()));
}

#[test]
fn supervisor_direct_request_trims() {
    assert_eq!(
        SupervisorNode::direct_request(AgentMode::Direct, Some("  coder ")),
        Some("coder".to_string())
    );
    assert_eq!(SupervisorNode::direct_request(AgentMode::Direct, Some("   ")), None);
    assert_eq!(SupervisorNode::direct_request(AgentMode::Low, Some("coder")), None);
    let err = SupervisorNode::unavailable_agent("ghost");
    assert_eq!(err.node_id, "supervisor");
    assert_eq!(err.message, "Requested agent 'ghost' is not available or not enabled");
}

#[test]
fn agent_executor_step_limit() {
    assert_eq!(AgentExecutorNode::new().max_steps(), 6);
    assert_eq!(AgentExecutorNode::default().max_steps(), 6);
    assert_eq!(AgentExecutorNode::new().with_max_steps(9).max_steps(), 9);
    assert_eq!(AgentExecutorNode::new().id(), "agent_executor");
}

#[test]
fn tool_summary_collapses_and_truncates() {
    assert_eq!(
        summarize_tool_output("grep", "  a\n\n b\tc  "),
        "Tool `grep` summary:\na b c"
    );
    assert_eq!(
        summarize_tool_output("ls", " \n\t "),
        "Tool `ls` summary:\nNo useful output returned."
    );
    let long = "x".repeat(500);
    let summary = summarize_tool_output("cat", &long);
    assert_eq!(summary, format!("Tool `cat` summary:\n{}...", "x".repeat(480)));
}

#[test]
fn executor_task_packet_names_agent() {
    let packet = build_executor_task_packet("fix it", Some(("Coder", "coder-1")));
    assert!(packet.starts_with("Execution task packet:\n- Executor: Coder (coder-1)\n- User goal: fix it\n\n"));
    let packet = build_executor_task_packet("fix it", None);
    assert!(packet.starts_with("Execution task packet:\n- Executor: default\n- User goal: fix it"));
    assert!(packet.ends_with("Keep progress updates concise."));
}

#[test]
fn tool_node_messages_and_outcome() {
    let node = ToolNode::new("grep".to_string(), JsonValue::Null);
    assert_eq!(node.start_message(), "Executing tool: grep");
    assert_eq!(node.completed_message(), "Tool `grep` completed");
    let ok = node.scratchpad_note(Ok("found"));
    assert_eq!((ok.role.as_str(), ok.content.as_str()), ("system", "Tool `grep` result:\nfound"));
    let err = node.scratchpad_note(Err("boom"));
    assert_eq!(err.content, "Tool `grep` failed: boom");
    assert!(matches!(node.outcome(), NodeOutput::Continue(None)));
    let meta = parse_json_payload(r#"{"tool_name": "search", "tool_args": {"q": 1}}"#).unwrap();
    let from_meta = ToolNode::from_metadata(meta);
    assert_eq!(from_meta.tool_name(), "search");
    assert!(matches!(
        json_get(from_meta.tool_args(), "q"),
        Some(JsonValue::Number(JsonNumber::PosInt(1)))
    ));
    let bare = ToolNode::from_metadata(JsonValue::Null);
    assert_eq!(bare.tool_name(), "default_tool");
    assert!(matches!(bare.tool_args(), JsonValue::Null));
}

#[test]
fn router_and_supervisor_messages() {
    assert_eq!(RouterNode::route_status("search_agentic"), Some("Deep research mode activated"));
    assert_eq!(RouterNode::route_status("chat"), None);
    assert_eq!(
        SupervisorNode::routing_message(AgentMode::Low, "direct", None),
        "Mode=low, route=direct, agent=Default Agent"
    );
    assert_eq!(
        SupervisorNode::routing_message(AgentMode::High, "planner", Some("Coder")),
        "Mode=high, route=planner, agent=Coder"
    );
}

#[test]
fn pipeline_modes_for_agents() {
    assert_eq!(pipeline_mode_for_agent(AgentMode::High), PipelineMode::AgentHigh);
    assert_eq!(pipeline_mode_for_agent(AgentMode::Low), PipelineMode::AgentLow);
    assert_eq!(pipeline_mode_for_agent(AgentMode::Direct), PipelineMode::AgentDirect);
    assert!(needs_pipeline_rebuild(None, PipelineMode::Chat));
    assert!(needs_pipeline_rebuild(Some(PipelineMode::SearchFast), PipelineMode::Chat));
    assert!(!needs_pipeline_rebuild(Some(PipelineMode::Chat), PipelineMode::Chat));
}

#[test]
fn planner_hands_over_to_the_executor() {
    let node = PlannerNode::new();
    assert_eq!((node.id(), node.name()), ("planner", "Planner"));
    assert_eq!(node.next_node(), "agent_executor");
}

#[test]
fn explicit_search_mode_routes_to_quick_or_deep() {
    let route = RouterNode::route(Mode::Search, false, false);
    assert_eq!(route, "search");

    let route = RouterNode::route(Mode::Search, false, true);
    assert_eq!(route, "search_agentic");
}

#[test]
fn chat_stream_items_build_answer_or_fail() {
    let mut answer = String::new();
    assert!(matches!(ChatNode::stream_item(&mut answer, Ok("Hel")), ChatStreamStep::Forward));
    assert!(matches!(ChatNode::stream_item(&mut answer, Ok("")), ChatStreamStep::Skip));
    assert!(matches!(ChatNode::stream_item(&mut answer, Ok("lo")), ChatStreamStep::Forward));
    assert_eq!(answer, "Hello");
    match ChatNode::stream_item(&mut answer, Err("connection reset")) {
        ChatStreamStep::Fail(e) => {
            assert_eq!(e.node_id, "chat");
            assert_eq!(e.message, "connection reset");
        }
        _ => panic!("a stream error must fail the node"),
    }
    assert_eq!(answer, "Hello");
    assert!(matches!(ChatNode::stream_done(), NodeOutput::Final));
    let e = AgenticSearchNode::sub_query_failed("bad json");
    assert_eq!(e.node_id, "search_agentic");
    assert_eq!(e.message, "sub-query generation failed: bad json");
    assert_eq!(
        AgenticSearchNode::report_failed("timeout").message,
        "report generation failed: timeout"
    );
}
