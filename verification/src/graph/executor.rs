//! Decisions of the agent executor's reasoning loop: how many steps it may
//! take, what happens after each model decision, and how a requested tool
//! call is gated by the agent's policy, saved permissions and the user.
//!
//! The loop itself (model calls, tool runs, approval prompts) is driven by
//! the caller, which asks these functions what to do next.

use vstd::prelude::*;

use crate::graph::node::NodeOutput;
use crate::memory::types::MemoryScope;
use crate::text::{contains_seq, decimal, push_decimal, push_str, str_contains, to_owned_string};

verus! {

broadcast use vstd::string::group_string_axioms;

// ---------------------------------------------------------------------------
// The reasoning loop
// ---------------------------------------------------------------------------

/// What the model decided at one reasoning step.
#[derive(Debug, Clone, PartialEq, Eq)]
pub enum ExecutorEvent {
    /// A final answer for the user.
    Final(String),
    /// A tool call was handled (run, blocked, denied or failed) and its
    /// observation was added to the conversation.
    Observation,
}

/// What the executor does next.
#[derive(Debug, Clone, PartialEq, Eq)]
pub enum ExecutorAction {
    /// Ask the model for the decision of this (zero-based) step.
    Reason(usize),
    /// Stop with this output; `reached_final` tells a final answer from the
    /// step limit.
    Finish { output: String, reached_final: bool },
}

/// The answer given when the step limit is reached.
pub open spec fn step_limit_answer() -> Seq<char> {
    "Agent reached the maximum number of steps without a final answer."@
}

/// `a` is the action after `event` at step `step` of at most `max_steps`: a
/// final answer ends the loop with that answer; after an observation the
/// next step follows, or the loop ends with the step-limit answer.
pub open spec fn executor_follows(max_steps: nat, step: nat, event: ExecutorEvent, a: ExecutorAction) -> bool {
    match event {
        ExecutorEvent::Final(answer) => a == ExecutorAction::Finish { output: answer, reached_final: true },
        ExecutorEvent::Observation => if step + 1 < max_steps {
            a == ExecutorAction::Reason((step + 1) as usize)
        } else {
            a matches ExecutorAction::Finish { output, reached_final } && !reached_final && output@
                == step_limit_answer()
        },
    }
}

fn step_limit_output() -> (s: String)
    ensures
        s@ == step_limit_answer(),
{
    to_owned_string("Agent reached the maximum number of steps without a final answer.")
}

/// The first action: reason at step 0, or stop at once when no step is
/// allowed.
pub fn executor_start(max_steps: usize) -> (a: ExecutorAction)
    ensures
        max_steps > 0 ==> a == ExecutorAction::Reason(0),
        max_steps == 0 ==> (a matches ExecutorAction::Finish { output, reached_final } && !reached_final
            && output@ == step_limit_answer()),
{
    if max_steps > 0 {
        ExecutorAction::Reason(0)
    } else {
        ExecutorAction::Finish { output: step_limit_output(), reached_final: false }
    }
}

/// The action after the model's decision at step `step`: finish with a
/// final answer, reason again, or stop on the step limit.
pub fn executor_advance(max_steps: usize, step: usize, event: ExecutorEvent) -> (a: ExecutorAction)
    requires
        step < max_steps,
    ensures
        executor_follows(max_steps as nat, step as nat, event, a),
        a matches ExecutorAction::Reason(s) ==> s == step + 1 && s < max_steps,
{
    match event {
        ExecutorEvent::Final(answer) => ExecutorAction::Finish { output: answer, reached_final: true },
        ExecutorEvent::Observation => if step + 1 < max_steps {
            ExecutorAction::Reason(step + 1)
        } else {
            ExecutorAction::Finish { output: step_limit_output(), reached_final: false }
        },
    }
}

/// Every reasoning step the loop asks for is below the step limit, and each
/// comes right after the previous one: the model is asked at most
/// `max_steps` times.
pub proof fn lemma_executor_steps_bounded(
    max_steps: nat,
    step: nat,
    event: ExecutorEvent,
    a: ExecutorAction,
)
    requires
        step < max_steps,
        max_steps <= usize::MAX,
        executor_follows(max_steps, step, event, a),
    ensures
        a matches ExecutorAction::Reason(s) ==> s == step + 1 && s < max_steps,
{
}

/// A run of the loop from step 0 over the model's decisions `events`, all
/// tool calls but the last, which is a final answer within the step limit:
/// the model is asked exactly once per decision, at steps 0, 1, ..., and the
/// run finishes with that answer.  `actions[i]` is the action before
/// decision `i`, each following from the one before.
pub proof fn lemma_final_answer_run(
    max_steps: nat,
    events: Seq<ExecutorEvent>,
    actions: Seq<ExecutorAction>,
    answer: String,
)
    requires
        1 <= events.len() <= max_steps,
        max_steps <= usize::MAX,
        forall|i: int| 0 <= i < events.len() - 1 ==> #[trigger] events[i] == ExecutorEvent::Observation,
        events.last() == ExecutorEvent::Final(answer),
        actions.len() == events.len() + 1,
        actions[0] == ExecutorAction::Reason(0),
        forall|i: int|
            0 <= i < events.len() ==> match #[trigger] actions[i] {
                ExecutorAction::Reason(s) => executor_follows(max_steps, s as nat, events[i], actions[i + 1]),
                ExecutorAction::Finish { .. } => true,
            },
    ensures
        forall|i: int| 0 <= i < events.len() ==> #[trigger] actions[i] == ExecutorAction::Reason(i as usize),
        actions.last() == (ExecutorAction::Finish { output: answer, reached_final: true }),
{
    assert forall|i: int| 0 <= i < events.len() implies #[trigger] actions[i] == ExecutorAction::Reason(
        i as usize,
    ) by {
        lemma_reason_steps(max_steps, events, actions, i);
    }
    let k = events.len() - 1;
    assert(actions[k] == ExecutorAction::Reason(k as usize));
}

proof fn lemma_reason_steps(
    max_steps: nat,
    events: Seq<ExecutorEvent>,
    actions: Seq<ExecutorAction>,
    i: int,
)
    requires
        1 <= events.len() <= max_steps,
        forall|j: int| 0 <= j < events.len() - 1 ==> #[trigger] events[j] == ExecutorEvent::Observation,
        actions.len() == events.len() + 1,
        actions[0] == ExecutorAction::Reason(0),
        forall|j: int|
            0 <= j < events.len() ==> match #[trigger] actions[j] {
                ExecutorAction::Reason(s) => executor_follows(max_steps, s as nat, events[j], actions[j + 1]),
                ExecutorAction::Finish { .. } => true,
            },
        0 <= i < events.len(),
        max_steps <= usize::MAX,
    ensures
        actions[i] == ExecutorAction::Reason(i as usize),
    decreases i,
{
    if i > 0 {
        lemma_reason_steps(max_steps, events, actions, i - 1);
        assert(events[i - 1] == ExecutorEvent::Observation);
        let prev = actions[i - 1];
        assert(prev == ExecutorAction::Reason((i - 1) as usize));
        assert(((i - 1) as usize) as nat == i - 1);
        assert(executor_follows(max_steps, (i - 1) as nat, events[i - 1], actions[i]));
    }
}

/// What the node records and sends when the loop stops.
#[derive(Debug)]
pub struct ExecutorFinish {
    /// The node's output.
    pub output: String,
    /// The outcome recorded on the state, if any.
    pub agent_outcome: Option<String>,
    /// The answer kept in episodic memory as a summary, with its scope.
    pub memory_summary: Option<(String, MemoryScope)>,
    /// The status and message of the final-response activity.
    pub activity_status: &'static str,
    pub activity_message: String,
    /// The outcome of the node-completed event.
    pub completed_outcome: &'static str,
    /// Where the graph goes: the run ends.
    pub node_output: NodeOutput,
}

/// The end of the loop with `output`: a final answer is the node's output,
/// is recorded as the outcome `final` and is stored in memory as a summary
/// of professional scope; the step-limit answer is only the output and an
/// error activity.  Either way the run ends.
pub fn executor_finish(output: String, reached_final: bool) -> (f: ExecutorFinish)
    ensures
        f.output@ == output@,
        f.node_output is Final,
        f.completed_outcome@ == if reached_final {
            "final"@
        } else {
            "max_steps_reached"@
        },
        reached_final ==> {
            &&& f.agent_outcome matches Some(o) && o@ == "final"@
            &&& f.memory_summary matches Some((text, scope)) && text@ == output@ && scope
                == MemoryScope::Prof
            &&& f.activity_status@ == "done"@
            &&& f.activity_message@ == "Final response prepared"@
        },
        !reached_final ==> {
            &&& f.agent_outcome is None
            &&& f.memory_summary is None
            &&& f.activity_status@ == "error"@
            &&& f.activity_message@ == output@
        },
{
    if reached_final {
        ExecutorFinish {
            output: output.clone(),
            agent_outcome: Some(to_owned_string("final")),
            memory_summary: Some((output, MemoryScope::Prof)),
            activity_status: "done",
            activity_message: to_owned_string("Final response prepared"),
            completed_outcome: outcome_label(true),
            node_output: NodeOutput::Final,
        }
    } else {
        ExecutorFinish {
            output: output.clone(),
            agent_outcome: None,
            memory_summary: None,
            activity_status: "error",
            activity_message: output,
            completed_outcome: outcome_label(false),
            node_output: NodeOutput::Final,
        }
    }
}

/// The step limit: the configured recursion limit when there is one, else
/// the node's own limit.
pub fn resolve_max_steps(configured: Option<u64>, default_steps: usize) -> (n: usize)
    ensures
        n == match configured {
            Some(v) => v as usize,
            None => default_steps,
        },
{
    match configured {
        Some(v) => v as usize,
        None => default_steps,
    }
}

/// The outcome recorded when the executor stops.
pub fn outcome_label(reached_final: bool) -> (s: &'static str)
    ensures
        s@ == if reached_final {
            "final"@
        } else {
            "max_steps_reached"@
        },
{
    if reached_final {
        "final"
    } else {
        "max_steps_reached"
    }
}

/// `"Reasoning step <step+1>/<max>"`.
pub open spec fn reasoning_step_text(step: nat, max_steps: nat) -> Seq<char> {
    "Reasoning step "@ + decimal(step + 1) + "/"@ + decimal(max_steps)
}

/// The progress message for a reasoning step.
pub fn reasoning_step_message(step: usize, max_steps: usize) -> (s: String)
    requires
        step < max_steps,
    ensures
        s@ == reasoning_step_text(step as nat, max_steps as nat),
{
    let mut s = to_owned_string("Reasoning step ");
    push_decimal(&mut s, step + 1);
    push_str(&mut s, "/");
    push_decimal(&mut s, max_steps);
    s
}

// ---------------------------------------------------------------------------
// Gating a tool call
// ---------------------------------------------------------------------------

/// A saved or freshly given permission decision.
#[derive(Debug, Clone, Copy, PartialEq, Eq, Structural)]
pub enum ApprovalDecision {
    /// Run this time only.
    Once,
    /// Run without asking until the permission expires.
    AlwaysUntilExpiry,
    /// Do not run.
    Deny,
}

/// What a permission is scoped to.
#[derive(Debug, Clone, Copy, PartialEq, Eq, Structural)]
pub enum PermissionScopeKind {
    /// A built-in tool, scoped by its name.
    NativeTool,
    /// A tool of an MCP server, scoped by the server.
    McpServer,
}

/// The risk shown when approval is requested.
#[derive(Debug, Clone, Copy, PartialEq, Eq, Structural)]
pub enum PermissionRiskLevel {
    Medium,
    High,
}

/// MCP tools are high risk; built-in search tools medium; other built-in
/// tools high.
pub open spec fn risk_of(tool_name: Seq<char>, is_mcp: bool) -> PermissionRiskLevel {
    if is_mcp {
        PermissionRiskLevel::High
    } else if contains_seq(tool_name, "search"@) {
        PermissionRiskLevel::Medium
    } else {
        PermissionRiskLevel::High
    }
}

/// The risk level of a tool call.
pub fn tool_risk_level(tool_name: &str, is_mcp: bool) -> (r: PermissionRiskLevel)
    ensures
        r == risk_of(tool_name@, is_mcp),
{
    if is_mcp {
        PermissionRiskLevel::High
    } else if str_contains(tool_name, "search") {
        PermissionRiskLevel::Medium
    } else {
        PermissionRiskLevel::High
    }
}

/// The permission scope of a tool call.
pub fn tool_scope_kind(is_mcp: bool) -> (k: PermissionScopeKind)
    ensures
        k == if is_mcp {
            PermissionScopeKind::McpServer
        } else {
            PermissionScopeKind::NativeTool
        },
{
    if is_mcp {
        PermissionScopeKind::McpServer
    } else {
        PermissionScopeKind::NativeTool
    }
}

/// Whether a call needs the user's approval before saved permissions are
/// consulted: the agent policy decides for built-in tools; for an MCP tool
/// its first use needs approval when the MCP policy asks for that, and
/// otherwise either policy can ask for it.
pub open spec fn confirmation_needed(
    policy_requires: bool,
    is_mcp: bool,
    first_use: bool,
    first_use_confirmation: bool,
    require_tool_confirmation: bool,
) -> bool {
    if is_mcp {
        if first_use && first_use_confirmation {
            true
        } else {
            policy_requires || require_tool_confirmation
        }
    } else {
        policy_requires
    }
}

/// Whether a call needs approval, before saved permissions.
pub fn needs_confirmation(
    policy_requires: bool,
    is_mcp: bool,
    first_use: bool,
    first_use_confirmation: bool,
    require_tool_confirmation: bool,
) -> (r: bool)
    ensures
        r == confirmation_needed(
            policy_requires,
            is_mcp,
            first_use,
            first_use_confirmation,
            require_tool_confirmation,
        ),
{
    if is_mcp {
        if first_use && first_use_confirmation {
            true
        } else {
            policy_requires || require_tool_confirmation
        }
    } else {
        policy_requires
    }
}

/// What happens to a requested tool call.
#[derive(Debug, Clone, Copy, PartialEq, Eq, Structural)]
pub enum ToolGate {
    /// The agent's policy does not allow the tool.
    Blocked,
    /// A saved permission denies it.
    Denied,
    /// The user must approve it first.
    AskApproval,
    /// It runs.
    Execute,
}

/// A call the policy refuses is blocked; a saved denial stops it; a saved
/// approval until expiry lets it run; otherwise it waits for approval when
/// approval is needed.
pub open spec fn gate_of(allowed: bool, needs_approval: bool, saved: Option<ApprovalDecision>) -> ToolGate {
    if !allowed {
        ToolGate::Blocked
    } else {
        match saved {
            Some(ApprovalDecision::Deny) => ToolGate::Denied,
            Some(ApprovalDecision::AlwaysUntilExpiry) => ToolGate::Execute,
            _ => if needs_approval {
                ToolGate::AskApproval
            } else {
                ToolGate::Execute
            },
        }
    }
}

/// Decides what happens to a requested tool call.
pub fn gate_tool_call(allowed: bool, needs_approval: bool, saved: Option<ApprovalDecision>) -> (g: ToolGate)
    ensures
        g == gate_of(allowed, needs_approval, saved),
{
    if !allowed {
        return ToolGate::Blocked;
    }
    match saved {
        Some(ApprovalDecision::Deny) => ToolGate::Denied,
        Some(ApprovalDecision::AlwaysUntilExpiry) => ToolGate::Execute,
        _ => if needs_approval {
            ToolGate::AskApproval
        } else {
            ToolGate::Execute
        },
    }
}

/// A tool the policy blocks never runs, and a saved denial is never
/// overridden.
pub proof fn lemma_gate_respects_policy(allowed: bool, needs_approval: bool, saved: Option<ApprovalDecision>)
    ensures
        !allowed ==> gate_of(allowed, needs_approval, saved) == ToolGate::Blocked,
        allowed && saved == Some(ApprovalDecision::Deny) ==> gate_of(allowed, needs_approval, saved)
            == ToolGate::Denied,
        gate_of(allowed, needs_approval, saved) == ToolGate::Execute ==> allowed && (!needs_approval
            || saved == Some(ApprovalDecision::AlwaysUntilExpiry)),
{
}

/// What follows the user's answer to an approval request.
#[derive(Debug, Clone, Copy, PartialEq, Eq, Structural)]
pub struct ApprovalEffect {
    /// The call does not run.
    pub denied: bool,
    /// The decision to save for the scope, if any.
    pub persist: Option<ApprovalDecision>,
    /// The MCP tool counts as used from now on.
    pub remember_mcp_use: bool,
}

/// The effect of an answer: a denial is saved and stops the call; an
/// approval until expiry is saved; an approved MCP tool is remembered.
pub open spec fn effect_of(decision: ApprovalDecision, is_mcp: bool) -> ApprovalEffect {
    match decision {
        ApprovalDecision::Deny => ApprovalEffect {
            denied: true,
            persist: Some(ApprovalDecision::Deny),
            remember_mcp_use: false,
        },
        ApprovalDecision::AlwaysUntilExpiry => ApprovalEffect {
            denied: false,
            persist: Some(ApprovalDecision::AlwaysUntilExpiry),
            remember_mcp_use: is_mcp,
        },
        ApprovalDecision::Once => ApprovalEffect { denied: false, persist: None, remember_mcp_use: is_mcp },
    }
}

/// The effect of the user's answer to an approval request.
pub fn approval_effect(decision: ApprovalDecision, is_mcp: bool) -> (e: ApprovalEffect)
    ensures
        e == effect_of(decision, is_mcp),
{
    match decision {
        ApprovalDecision::Deny => ApprovalEffect {
            denied: true,
            persist: Some(ApprovalDecision::Deny),
            remember_mcp_use: false,
        },
        ApprovalDecision::AlwaysUntilExpiry => ApprovalEffect {
            denied: false,
            persist: Some(ApprovalDecision::AlwaysUntilExpiry),
            remember_mcp_use: is_mcp,
        },
        ApprovalDecision::Once => ApprovalEffect { denied: false, persist: None, remember_mcp_use: is_mcp },
    }
}

// ---------------------------------------------------------------------------
// Messages
// ---------------------------------------------------------------------------

/// `prefix + name + suffix` as a new string.
fn framed(prefix: &str, name: &str, suffix: &str) -> (s: String)
    ensures
        s@ == prefix@ + name@ + suffix@,
{
    let mut s = to_owned_string(prefix);
    push_str(&mut s, name);
    push_str(&mut s, suffix);
    s
}

/// The message for a tool the agent's policy blocks.
pub fn policy_block_message(tool_name: &str) -> (s: String)
    ensures
        s@ == "Tool `"@ + tool_name@ + "` is blocked by the selected agent's policy."@,
{
    framed("Tool `", tool_name, "` is blocked by the selected agent's policy.")
}

/// The message for a tool a saved permission denies.
pub fn saved_denial_message(tool_name: &str) -> (s: String)
    ensures
        s@ == "Tool `"@ + tool_name@ + "` is denied by saved security policy."@,
{
    framed("Tool `", tool_name, "` is denied by saved security policy.")
}

/// The message for a tool the user did not approve.
pub fn user_denial_message(tool_name: &str) -> (s: String)
    ensures
        s@ == "Tool `"@ + tool_name@ + "` was not approved by the user."@,
{
    framed("Tool `", tool_name, "` was not approved by the user.")
}

/// The status sent when the user denies a tool.
pub fn user_denial_status(tool_name: &str) -> (s: String)
    ensures
        s@ == "Tool "@ + tool_name@ + " denied by user"@,
{
    framed("Tool ", tool_name, " denied by user")
}

/// The description shown with an approval request.
pub fn approval_description(tool_name: &str) -> (s: String)
    ensures
        s@ == "Tool '"@ + tool_name@ + "' requires your approval to execute."@,
{
    framed("Tool '", tool_name, "' requires your approval to execute.")
}

/// The progress message while a tool runs.
pub fn executing_tool_message(tool_name: &str) -> (s: String)
    ensures
        s@ == "Executing tool `"@ + tool_name@ + "`"@,
{
    framed("Executing tool `", tool_name, "`")
}

/// The progress message when a tool has run.
pub fn tool_finished_message(tool_name: &str) -> (s: String)
    ensures
        s@ == "Tool `"@ + tool_name@ + "` finished"@,
{
    framed("Tool `", tool_name, "` finished")
}

/// The message for a tool that failed.
pub fn tool_failure_message(tool_name: &str, error: &str) -> (s: String)
    ensures
        s@ == "Tool `"@ + tool_name@ + "` failed: "@ + error@,
{
    let mut s = framed("Tool `", tool_name, "` failed: ");
    push_str(&mut s, error);
    s
}

/// The tool message stored in the history: the name and the full output.
pub fn tool_result_payload(tool_name: &str, output: &str) -> (s: String)
    ensures
        s@ == "Tool `"@ + tool_name@ + "` result:\n"@ + output@,
{
    let mut s = framed("Tool `", tool_name, "` result:\n");
    push_str(&mut s, output);
    s
}

/// `"Executed tool <name> (step <step+1>/<max>)"`.
pub fn tool_step_status(tool_name: &str, step: usize, max_steps: usize) -> (s: String)
    requires
        step < max_steps,
    ensures
        s@ == "Executed tool "@ + tool_name@ + " (step "@ + decimal(step as nat + 1) + "/"@ + decimal(
            max_steps as nat,
        ) + ")"@,
{
    let mut s = framed("Executed tool ", tool_name, " (step ");
    push_decimal(&mut s, step + 1);
    push_str(&mut s, "/");
    push_decimal(&mut s, max_steps);
    push_str(&mut s, ")");
    s
}

/// The kind under which an observation is shown to the model.
pub fn observation_kind(gate: ToolGate) -> (s: &'static str)
    ensures
        s@ == match gate {
            ToolGate::Blocked => "policy"@,
            ToolGate::Denied => "denied"@,
            ToolGate::AskApproval => "denied"@,
            ToolGate::Execute => "result"@,
        },
{
    match gate {
        ToolGate::Blocked => "policy",
        ToolGate::Denied => "denied",
        ToolGate::AskApproval => "denied",
        ToolGate::Execute => "result",
    }
}

/// The kind under which the outcome of a tool that ran is shown to the
/// model: its result, or its failure.
pub fn run_observation_kind(succeeded: bool) -> (s: &'static str)
    ensures
        s@ == if succeeded {
            "result"@
        } else {
            "failure"@
        },
{
    if succeeded {
        "result"
    } else {
        "failure"
    }
}

} // verus!
