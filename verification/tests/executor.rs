use tepora_core::graph::executor::{executor_finish, run_observation_kind};
use tepora_core::memory::types::MemoryScope;
use tepora_core::graph::executor::{
    approval_description, approval_effect, executing_tool_message, executor_advance,
    executor_start, gate_tool_call, needs_confirmation, observation_kind, outcome_label,
    policy_block_message, reasoning_step_message, resolve_max_steps, saved_denial_message,
    tool_failure_message, tool_finished_message, tool_result_payload, tool_risk_level,
    tool_scope_kind, tool_step_status, user_denial_message, user_denial_status, ApprovalDecision,
    ExecutorAction, ExecutorEvent, PermissionRiskLevel, PermissionScopeKind, ToolGate,
};

const LIMIT_ANSWER: &str = "Agent reached the maximum number of steps without a final answer.";

#[test]
fn executor_loop_runs_at_most_max_steps() {
    let max_steps = 3;
    let mut action = executor_start(max_steps);
    let mut asked = 0;
    loop {
        match action {
            ExecutorAction::Reason(step) => {
                asked += 1;
                action = executor_advance(max_steps, step, ExecutorEvent::Observation);
            }
            ExecutorAction::Finish { output, reached_final } => {
                assert!(!reached_final);
                assert_eq!(output, LIMIT_ANSWER);
                break;
            }
        }
    }
    assert_eq!(asked, 3);
}

#[test]
fn executor_final_answer_ends_loop() {
    assert_eq!(executor_start(6), ExecutorAction::Reason(0));
    let action = executor_advance(6, 0, ExecutorEvent::Final("done".to_string()));
    assert_eq!(
        action,
        ExecutorAction::Finish { output: "done".to_string(), reached_final: true }
    );
    assert_eq!(executor_advance(6, 2, ExecutorEvent::Observation), ExecutorAction::Reason(3));
}

#[test]
fn executor_zero_steps_stops_at_once() {
    assert_eq!(
        executor_start(0),
        ExecutorAction::Finish { output: LIMIT_ANSWER.to_string(), reached_final: false }
    );
    assert_eq!(outcome_label(true), "final");
    assert_eq!(outcome_label(false), "max_steps_reached");
}

#[test]
fn configured_step_limit_wins() {
    assert_eq!(resolve_max_steps(Some(12), 6), 12);
    assert_eq!(resolve_max_steps(None, 6), 6);
}

#[test]
fn risk_and_scope_of_tools() {
    assert_eq!(tool_risk_level("native_search", false), PermissionRiskLevel::Medium);
    assert_eq!(tool_risk_level("native_web_fetch", false), PermissionRiskLevel::High);
    assert_eq!(tool_risk_level("web_search", true), PermissionRiskLevel::High);
    assert_eq!(tool_scope_kind(true), PermissionScopeKind::McpServer);
    assert_eq!(tool_scope_kind(false), PermissionScopeKind::NativeTool);
}

#[test]
fn confirmation_rules() {
    assert!(needs_confirmation(true, false, true, true, true));
    assert!(!needs_confirmation(false, false, true, true, true));
    assert!(needs_confirmation(false, true, true, true, false));
    assert!(!needs_confirmation(false, true, false, true, false));
    assert!(needs_confirmation(false, true, false, true, true));
    assert!(needs_confirmation(true, true, true, false, false));
}

#[test]
fn gate_follows_policy_then_saved_then_approval() {
    assert_eq!(gate_tool_call(false, false, None), ToolGate::Blocked);
    assert_eq!(gate_tool_call(false, true, Some(ApprovalDecision::AlwaysUntilExpiry)), ToolGate::Blocked);
    assert_eq!(gate_tool_call(true, false, Some(ApprovalDecision::Deny)), ToolGate::Denied);
    assert_eq!(gate_tool_call(true, true, Some(ApprovalDecision::AlwaysUntilExpiry)), ToolGate::Execute);
    assert_eq!(gate_tool_call(true, true, Some(ApprovalDecision::Once)), ToolGate::AskApproval);
    assert_eq!(gate_tool_call(true, true, None), ToolGate::AskApproval);
    assert_eq!(gate_tool_call(true, false, None), ToolGate::Execute);
}

#[test]
fn approval_answers() {
    let deny = approval_effect(ApprovalDecision::Deny, true);
    assert!(deny.denied);
    assert_eq!(deny.persist, Some(ApprovalDecision::Deny));
    assert!(!deny.remember_mcp_use);
    let always = approval_effect(ApprovalDecision::AlwaysUntilExpiry, true);
    assert!(!always.denied);
    assert_eq!(always.persist, Some(ApprovalDecision::AlwaysUntilExpiry));
    assert!(always.remember_mcp_use);
    let once = approval_effect(ApprovalDecision::Once, false);
    assert!(!once.denied);
    assert_eq!(once.persist, None);
    assert!(!once.remember_mcp_use);
}

#[test]
fn executor_messages() {
    assert_eq!(policy_block_message("rm"), "Tool `rm` is blocked by the selected agent's policy.");
    assert_eq!(saved_denial_message("rm"), "Tool `rm` is denied by saved security policy.");
    assert_eq!(user_denial_message("rm"), "Tool `rm` was not approved by the user.");
    assert_eq!(user_denial_status("rm"), "Tool rm denied by user");
    assert_eq!(approval_description("rm"), "Tool 'rm' requires your approval to execute.");
    assert_eq!(executing_tool_message("rm"), "Executing tool `rm`");
    assert_eq!(tool_finished_message("rm"), "Tool `rm` finished");
    assert_eq!(tool_failure_message("rm", "boom"), "Tool `rm` failed: boom");
    assert_eq!(tool_result_payload("rm", "out"), "Tool `rm` result:\nout");
    assert_eq!(tool_step_status("rm", 1, 6), "Executed tool rm (step 2/6)");
    assert_eq!(reasoning_step_message(0, 12), "Reasoning step 1/12");
    assert_eq!(observation_kind(ToolGate::Blocked), "policy");
    assert_eq!(observation_kind(ToolGate::Denied), "denied");
    assert_eq!(observation_kind(ToolGate::Execute), "result");
}

#[test]
fn finishing_with_a_final_answer_stores_it_in_memory() {
    let f = executor_finish("42".to_string(), true);
    assert_eq!(f.output, "42");
    assert_eq!(f.agent_outcome.as_deref(), Some("final"));
    assert_eq!(f.memory_summary, Some(("42".to_string(), MemoryScope::Prof)));
    assert_eq!(f.activity_status, "done");
    assert_eq!(f.activity_message, "Final response prepared");
    assert_eq!(f.completed_outcome, "final");
    let g = executor_finish("Agent reached the maximum number of steps without a final answer.".to_string(), false);
    assert!(g.agent_outcome.is_none());
    assert!(g.memory_summary.is_none());
    assert_eq!(g.activity_status, "error");
    assert_eq!(g.completed_outcome, "max_steps_reached");
    assert_eq!(run_observation_kind(true), "result");
    assert_eq!(run_observation_kind(false), "failure");
}
