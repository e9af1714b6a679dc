//! The nodes of the Tepora graph: their ids, display names and the routing
//! decisions they make.

use vstd::prelude::*;

use crate::graph::executor::{tool_failure_message, tool_result_payload};
use crate::graph::node::{GraphError, NodeOutput};
use crate::graph::state::{AgentMode, Mode, SupervisorRoute};
use crate::json::{field_of, json_str_field, json_take, str_of, JsonValue};
use crate::llm::ChatMessage;
use crate::graph::state::agent_mode_name;
use crate::text::{
    char_count, collapse_whitespace, join, push_str, str_eq, to_owned_string, trim, trim_str,
    truncated, words,
};

verus! {

broadcast use vstd::string::group_string_axioms;

/// ReAct loop node for tool-using agents.
pub struct AgentExecutorNode {
    max_steps: usize,
}

impl AgentExecutorNode {
    /// An executor with at most 6 reasoning steps.
    pub fn new() -> (n: AgentExecutorNode)
        ensures
            n.step_limit() == 6,
    {
        AgentExecutorNode { max_steps: 6 }
    }

    pub closed spec fn step_limit(&self) -> nat {
        self.max_steps as nat
    }

    /// The executor with another step limit.
    pub fn with_max_steps(self, max_steps: usize) -> (n: AgentExecutorNode)
        ensures
            n.step_limit() == max_steps,
    {
        AgentExecutorNode { max_steps }
    }

    /// The step limit.
    pub fn max_steps(&self) -> (n: usize)
        ensures
            n == self.step_limit(),
    {
        self.max_steps
    }

    pub fn id(&self) -> (s: &'static str)
        ensures
            s@ == "agent_executor"@,
    {
        "agent_executor"
    }

    pub fn name(&self) -> (s: &'static str)
        ensures
            s@ == "Agent Executor"@,
    {
        "Agent Executor"
    }
}

impl Default for AgentExecutorNode {
    fn default() -> (n: AgentExecutorNode)
        ensures
            n.step_limit() == 6,
    {
        AgentExecutorNode::new()
    }
}

/// Plain chat response node.
pub struct ChatNode;

/// Execution plan generator.
pub struct PlannerNode;

/// Entry node that routes on the mode.
pub struct RouterNode;

/// Quick search node.
pub struct SearchNode;

/// Multi-stage research node.
pub struct AgenticSearchNode;

/// Chooses between planning and direct agent execution.
pub struct SupervisorNode;

/// Final response synthesizer.
pub struct SynthesizerNode;

/// Chain-of-thought node.
pub struct ThinkingNode;

impl ChatNode {
    pub fn new() -> ChatNode {
        ChatNode
    }

    pub fn id(&self) -> (s: &'static str)
        ensures
            s@ == "chat"@,
    {
        "chat"
    }

    pub fn name(&self) -> (s: &'static str)
        ensures
            s@ == "Chat Node"@,
    {
        "Chat Node"
    }
}

/// What the chat node does with one item of the model's answer stream.
#[derive(Debug)]
pub enum ChatStreamStep {
    /// An empty piece: nothing is sent.
    Skip,
    /// The piece was added to the answer and is sent on as a chunk.
    Forward,
    /// The stream failed: the message is sent as an error event and the
    /// node stops with this error.
    Fail(GraphError),
}

impl ChatNode {
    /// Takes one stream item, a piece of text or the stream's error message.
    pub fn stream_item(answer: &mut String, item: Result<&str, &str>) -> (step: ChatStreamStep)
        ensures
            match item {
                Ok(piece) => if piece@.len() == 0 {
                    step is Skip && final(answer)@ == old(answer)@
                } else {
                    step is Forward && final(answer)@ == old(answer)@ + piece@
                },
                Err(message) => final(answer)@ == old(answer)@ && (step matches ChatStreamStep::Fail(
                    e,
                ) && e.node_id@ == "chat"@ && e.message@ == message@ && e.execution_trace@.len()
                    == 0),
            },
    {
        match item {
            Ok(piece) => {
                if piece.unicode_len() == 0 {
                    ChatStreamStep::Skip
                } else {
                    push_str(answer, piece);
                    ChatStreamStep::Forward
                }
            },
            Err(message) => ChatStreamStep::Fail(GraphError::new("chat", message)),
        }
    }

    /// The end of a stream that did not fail: the answer is the node's
    /// output and the run is over.
    pub fn stream_done() -> (out: NodeOutput)
        ensures
            out is Final,
    {
        NodeOutput::Final
    }
}

impl AgenticSearchNode {
    /// The error when the model could not produce the sub-queries.
    pub fn sub_query_failed(reason: &str) -> (e: GraphError)
        ensures
            e.node_id@ == "search_agentic"@,
            e.message@ == "sub-query generation failed: "@ + reason@,
            e.execution_trace@.len() == 0,
    {
        let mut m = to_owned_string("sub-query generation failed: ");
        push_str(&mut m, reason);
        GraphError::new("search_agentic", m.as_str())
    }

    /// The error when the model could not write the report.
    pub fn report_failed(reason: &str) -> (e: GraphError)
        ensures
            e.node_id@ == "search_agentic"@,
            e.message@ == "report generation failed: "@ + reason@,
            e.execution_trace@.len() == 0,
    {
        let mut m = to_owned_string("report generation failed: ");
        push_str(&mut m, reason);
        GraphError::new("search_agentic", m.as_str())
    }
}

impl Default for ChatNode {
    fn default() -> ChatNode {
        ChatNode
    }
}

impl PlannerNode {
    pub fn new() -> PlannerNode {
        PlannerNode
    }

    pub fn id(&self) -> (s: &'static str)
        ensures
            s@ == "planner"@,
    {
        "planner"
    }

    pub fn name(&self) -> (s: &'static str)
        ensures
            s@ == "Planner"@,
    {
        "Planner"
    }

    /// The planner always hands over to the agent executor.
    pub fn next_node(&self) -> (s: &'static str)
        ensures
            s@ == "agent_executor"@,
    {
        "agent_executor"
    }
}

impl Default for PlannerNode {
    fn default() -> PlannerNode {
        PlannerNode
    }
}

/// The branch the router takes.
pub open spec fn router_route(mode: Mode, thinking: bool, deep_search: bool) -> Seq<char> {
    match mode {
        Mode::Chat => if thinking {
            "thinking"@
        } else {
            "chat"@
        },
        Mode::Search => if deep_search {
            "search_agentic"@
        } else {
            "search"@
        },
        Mode::SearchAgentic => "search_agentic"@,
        Mode::Agent => "supervisor"@,
    }
}

/// The router's laws, stated on the branch names: a search request goes to
/// deep research exactly when deep search was asked for, whatever the
/// thinking budget; thinking matters only for chat, and the search mode only
/// for search.
pub proof fn lemma_router_laws(mode: Mode, thinking: bool, deep_search: bool)
    ensures
        mode == Mode::Search ==> router_route(mode, thinking, deep_search) == if deep_search {
            "search_agentic"@
        } else {
            "search"@
        },
        mode == Mode::Chat ==> router_route(mode, thinking, deep_search) == if thinking {
            "thinking"@
        } else {
            "chat"@
        },
        mode != Mode::Chat ==> router_route(mode, thinking, deep_search) == router_route(
            mode,
            !thinking,
            deep_search,
        ),
        mode != Mode::Search ==> router_route(mode, thinking, deep_search) == router_route(
            mode,
            thinking,
            !deep_search,
        ),
        mode == Mode::SearchAgentic ==> router_route(mode, thinking, deep_search) == "search_agentic"@,
        mode == Mode::Agent ==> router_route(mode, thinking, deep_search) == "supervisor"@,
        (router_route(mode, thinking, deep_search) == "search_agentic"@) <==> (mode
            == Mode::SearchAgentic || (mode == Mode::Search && deep_search)),
{
    reveal_strlit("search_agentic");
    reveal_strlit("search");
    reveal_strlit("thinking");
    reveal_strlit("chat");
    reveal_strlit("supervisor");
    assert("search_agentic"@.len() != "search"@.len());
    assert("search_agentic"@.len() != "thinking"@.len());
    assert("search_agentic"@.len() != "chat"@.len());
    assert("search_agentic"@.len() != "supervisor"@.len());
}

impl RouterNode {
    pub fn new() -> RouterNode {
        RouterNode
    }

    pub fn id(&self) -> (s: &'static str)
        ensures
            s@ == "router"@,
    {
        "router"
    }

    pub fn name(&self) -> (s: &'static str)
        ensures
            s@ == "Mode Router"@,
    {
        "Mode Router"
    }

    /// The branch for a request: chat (through thinking when a thinking
    /// budget is set), quick or deep search, agentic search, or the
    /// supervisor for agent mode.
    pub fn route(mode: Mode, thinking: bool, deep_search: bool) -> (s: &'static str)
        ensures
            s@ == router_route(mode, thinking, deep_search),
            mode == Mode::Search ==> (s@ == "search_agentic"@ <==> deep_search),
            mode == Mode::Search && !deep_search ==> s@ == "search"@,
            mode == Mode::Chat ==> (s@ == "thinking"@ <==> thinking),
            mode == Mode::Chat && !thinking ==> s@ == "chat"@,
            mode == Mode::SearchAgentic ==> s@ == "search_agentic"@,
            mode == Mode::Agent ==> s@ == "supervisor"@,
    {
        proof {
            reveal_strlit("search_agentic");
            reveal_strlit("search");
            reveal_strlit("thinking");
            reveal_strlit("chat");
        }
        match mode {
            Mode::Chat => if thinking {
                "thinking"
            } else {
                "chat"
            },
            Mode::Search => if deep_search {
                "search_agentic"
            } else {
                "search"
            },
            Mode::SearchAgentic => "search_agentic",
            Mode::Agent => "supervisor",
        }
    }
}

impl RouterNode {
    /// The status announced for a route: deep research for agentic search.
    pub fn route_status(route: &str) -> (s: Option<&'static str>)
        ensures
            route@ == "search_agentic"@ ==> (s matches Some(m) && m@ == "Deep research mode activated"@),
            route@ != "search_agentic"@ ==> s is None,
    {
        if str_eq(route, "search_agentic") {
            Some("Deep research mode activated")
        } else {
            None
        }
    }
}

impl Default for RouterNode {
    fn default() -> RouterNode {
        RouterNode
    }
}

impl SearchNode {
    pub fn new() -> SearchNode {
        SearchNode
    }

    pub fn id(&self) -> (s: &'static str)
        ensures
            s@ == "search"@,
    {
        "search"
    }

    pub fn name(&self) -> (s: &'static str)
        ensures
            s@ == "Search Node"@,
    {
        "Search Node"
    }
}

impl Default for SearchNode {
    fn default() -> SearchNode {
        SearchNode
    }
}

impl AgenticSearchNode {
    pub fn new() -> AgenticSearchNode {
        AgenticSearchNode
    }

    pub fn id(&self) -> (s: &'static str)
        ensures
            s@ == "search_agentic"@,
    {
        "search_agentic"
    }

    pub fn name(&self) -> (s: &'static str)
        ensures
            s@ == "Agentic Search"@,
    {
        "Agentic Search"
    }
}

impl Default for AgenticSearchNode {
    fn default() -> AgenticSearchNode {
        AgenticSearchNode
    }
}

/// The agent id that must be enabled before a direct-mode run: the trimmed
/// requested id, when the mode is `Direct` and it is not blank.
pub open spec fn direct_request(mode: AgentMode, agent_id: Option<Seq<char>>) -> Option<Seq<char>> {
    match (mode, agent_id) {
        (AgentMode::Direct, Some(id)) => if trim(id).len() > 0 {
            Some(trim(id))
        } else {
            None
        },
        _ => None,
    }
}

/// The supervisor's route: the graph branch, the label it reports and the
/// route it records.
pub open spec fn supervisor_route(mode: AgentMode, needs_planning: bool) -> (Seq<char>, Seq<char>) {
    match mode {
        AgentMode::High => ("planner"@, "planner"@),
        AgentMode::Low => if needs_planning {
            ("planner"@, "planner"@)
        } else {
            ("agent_executor"@, "direct"@)
        },
        AgentMode::Direct => ("agent_executor"@, "direct"@),
    }
}

/// The supervisor's laws, stated on the branch names: direct mode always
/// goes straight to the agent executor, whether or not the request looks
/// like it needs planning; the planner is taken exactly for high mode and
/// for low mode when the request needs planning.
pub proof fn lemma_supervisor_laws(mode: AgentMode, needs_planning: bool)
    ensures
        mode == AgentMode::Direct ==> supervisor_route(mode, needs_planning) == (
            "agent_executor"@,
            "direct"@,
        ),
        mode == AgentMode::Direct ==> supervisor_route(mode, needs_planning) == supervisor_route(
            mode,
            !needs_planning,
        ),
        mode == AgentMode::High ==> supervisor_route(mode, needs_planning) == ("planner"@, "planner"@),
        (supervisor_route(mode, needs_planning).0 == "planner"@) <==> (mode == AgentMode::High || (
        mode == AgentMode::Low && needs_planning)),
        supervisor_route(mode, needs_planning).0 != "planner"@ ==> supervisor_route(
            mode,
            needs_planning,
        ) == ("agent_executor"@, "direct"@),
{
    reveal_strlit("planner");
    reveal_strlit("agent_executor");
    reveal_strlit("direct");
    assert("planner"@.len() != "agent_executor"@.len());
}

impl SupervisorNode {
    pub fn new() -> SupervisorNode {
        SupervisorNode
    }

    pub fn id(&self) -> (s: &'static str)
        ensures
            s@ == "supervisor"@,
    {
        "supervisor"
    }

    pub fn name(&self) -> (s: &'static str)
        ensures
            s@ == "Supervisor"@,
    {
        "Supervisor"
    }

    /// The agent that a direct-mode request names, trimmed; `None` when the
    /// mode is not `Direct` or no agent is named.
    pub fn direct_request(mode: AgentMode, agent_id: Option<&str>) -> (r: Option<String>)
        ensures
            match r {
                Some(s) => direct_request(
                    mode,
                    match agent_id {
                        Some(a) => Some(a@),
                        None => None,
                    },
                ) == Some(s@),
                None => direct_request(
                    mode,
                    match agent_id {
                        Some(a) => Some(a@),
                        None => None,
                    },
                ) is None,
            },
    {
        match (mode, agent_id) {
            (AgentMode::Direct, Some(id)) => {
                let trimmed = trim_str(id);
                if char_count(trimmed.as_str()) > 0 {
                    Some(trimmed)
                } else {
                    None
                }
            },
            _ => None,
        }
    }

    /// The error for a requested agent that is missing or disabled.
    pub fn unavailable_agent(requested: &str) -> (e: GraphError)
        ensures
            e.node_id@ == "supervisor"@,
            e.message@ == "Requested agent '"@ + requested@ + "' is not available or not enabled"@,
            e.execution_trace@.len() == 0,
    {
        let mut message = to_owned_string("Requested agent '");
        push_str(&mut message, requested);
        push_str(&mut message, "' is not available or not enabled");
        GraphError::from_parts(to_owned_string("supervisor"), message)
    }

    /// The route for `mode`: the planner for `High`, and for `Low` when the
    /// request needs planning; otherwise the agent executor with the
    /// selected agent (empty id when none was selected).
    pub fn route(mode: AgentMode, needs_planning: bool, selected_agent_id: Option<String>) -> (r: (
        SupervisorRoute,
        &'static str,
        &'static str,
    ))
        ensures
            (r.1@, r.2@) == supervisor_route(mode, needs_planning),
            r.1@ == "planner"@ <==> (mode == AgentMode::High || (mode == AgentMode::Low
                && needs_planning)),
            r.1@ == "planner"@ ==> r.2@ == "planner"@,
            r.1@ != "planner"@ ==> r.1@ == "agent_executor"@ && r.2@ == "direct"@,
            mode == AgentMode::Direct ==> (r.1@ == "agent_executor"@ && r.2@ == "direct"@),
            r.1@ == "planner"@ ==> r.0 == SupervisorRoute::Planner,
            r.1@ != "planner"@ ==> (r.0 matches SupervisorRoute::Agent(a) && a@ == match selected_agent_id {
                Some(s) => s@,
                None => Seq::<char>::empty(),
            }),
    {
        proof {
            reveal_strlit("planner");
            reveal_strlit("agent_executor");
        }
        let plan = match mode {
            AgentMode::High => true,
            AgentMode::Low => needs_planning,
            AgentMode::Direct => false,
        };
        if plan {
            (SupervisorRoute::Planner, "planner", "planner")
        } else {
            let selected = match selected_agent_id {
                Some(s) => s,
                None => String::new(),
            };
            assert("agent_executor"@.len() != "planner"@.len());
            (SupervisorRoute::Agent(selected), "agent_executor", "direct")
        }
    }
}

impl SupervisorNode {
    /// `"Mode=<mode>, route=<label>, agent=<name>"`, the agent being
    /// `"Default Agent"` when none was selected.
    pub fn routing_message(mode: AgentMode, route_label: &str, agent_name: Option<&str>) -> (s: String)
        ensures
            s@ == "Mode="@ + agent_mode_name(mode) + ", route="@ + route_label@ + ", agent="@ + match agent_name {
                Some(n) => n@,
                None => "Default Agent"@,
            },
    {
        let mut s = to_owned_string("Mode=");
        push_str(&mut s, mode.as_str());
        push_str(&mut s, ", route=");
        push_str(&mut s, route_label);
        push_str(&mut s, ", agent=");
        match agent_name {
            Some(n) => push_str(&mut s, n),
            None => push_str(&mut s, "Default Agent"),
        }
        s
    }
}

impl Default for SupervisorNode {
    fn default() -> SupervisorNode {
        SupervisorNode
    }
}

impl SynthesizerNode {
    pub fn new() -> SynthesizerNode {
        SynthesizerNode
    }

    pub fn id(&self) -> (s: &'static str)
        ensures
            s@ == "synthesizer"@,
    {
        "synthesizer"
    }

    pub fn name(&self) -> (s: &'static str)
        ensures
            s@ == "Response Synthesizer"@,
    {
        "Response Synthesizer"
    }
}

impl Default for SynthesizerNode {
    fn default() -> SynthesizerNode {
        SynthesizerNode
    }
}

impl ThinkingNode {
    pub fn new() -> ThinkingNode {
        ThinkingNode
    }

    pub fn id(&self) -> (s: &'static str)
        ensures
            s@ == "thinking"@,
    {
        "thinking"
    }

    pub fn name(&self) -> (s: &'static str)
        ensures
            s@ == "Thinking Node"@,
    {
        "Thinking Node"
    }
}

impl Default for ThinkingNode {
    fn default() -> ThinkingNode {
        ThinkingNode
    }
}

/// Runs one configured tool.
pub struct ToolNode {
    tool_name: String,
    tool_args: JsonValue,
}

/// The tool a node's metadata names: `tool_name` when it is a string, else
/// `"default_tool"`.
pub open spec fn metadata_tool(metadata: JsonValue) -> Seq<char> {
    match field_of(metadata, "tool_name"@) {
        Some(v) => match str_of(v) {
            Some(name) => name,
            None => "default_tool"@,
        },
        None => "default_tool"@,
    }
}

/// The arguments a node's metadata gives: `tool_args`, else `null`.
pub open spec fn metadata_args(metadata: JsonValue) -> JsonValue {
    match field_of(metadata, "tool_args"@) {
        Some(v) => v,
        None => JsonValue::Null,
    }
}

impl ToolNode {
    pub fn new(tool_name: String, tool_args: JsonValue) -> (n: ToolNode)
        ensures
            n.tool() == tool_name@,
            n.args() == tool_args,
    {
        ToolNode { tool_name, tool_args }
    }

    pub closed spec fn tool(&self) -> Seq<char> {
        self.tool_name@
    }

    pub closed spec fn args(&self) -> JsonValue {
        self.tool_args
    }

    pub fn tool_name(&self) -> (s: &str)
        ensures
            s@ == self.tool(),
    {
        self.tool_name.as_str()
    }

    pub fn tool_args(&self) -> (a: &JsonValue)
        ensures
            *a == self.args(),
    {
        &self.tool_args
    }

    /// The tool node a workflow's node metadata describes: `tool_name` when
    /// it is a string (else `"default_tool"`) and `tool_args` (else `null`).
    pub fn from_metadata(metadata: JsonValue) -> (n: ToolNode)
        ensures
            n.tool() == metadata_tool(metadata),
            n.args() == metadata_args(metadata),
    {
        let tool_name = match json_str_field(&metadata, "tool_name") {
            Some(name) => to_owned_string(name),
            None => to_owned_string("default_tool"),
        };
        let tool_args = match json_take(metadata, "tool_args") {
            Some(args) => args,
            None => JsonValue::Null,
        };
        ToolNode { tool_name, tool_args }
    }

    /// The progress message while the tool runs.
    pub fn start_message(&self) -> (s: String)
        ensures
            s@ == "Executing tool: "@ + self.tool(),
    {
        let mut s = to_owned_string("Executing tool: ");
        push_str(&mut s, self.tool_name.as_str());
        s
    }

    /// The progress message when the tool has run.
    pub fn completed_message(&self) -> (s: String)
        ensures
            s@ == "Tool `"@ + self.tool() + "` completed"@,
    {
        let mut s = to_owned_string("Tool `");
        push_str(&mut s, self.tool_name.as_str());
        push_str(&mut s, "` completed");
        s
    }

    /// The scratchpad note of a run: the output, or the failure.
    pub fn scratchpad_note(&self, outcome: Result<&str, &str>) -> (m: ChatMessage)
        ensures
            m.role@ == "system"@,
            m.content@ == match outcome {
                Ok(output) => "Tool `"@ + self.tool() + "` result:\n"@ + output@,
                Err(error) => "Tool `"@ + self.tool() + "` failed: "@ + error@,
            },
    {
        let content = match outcome {
            Ok(output) => tool_result_payload(self.tool_name.as_str(), output),
            Err(error) => tool_failure_message(self.tool_name.as_str(), error),
        };
        ChatMessage::new_text("system", content)
    }

    /// A tool node always continues along its default edge, whether the
    /// tool succeeded or failed.
    pub fn outcome(&self) -> (o: NodeOutput)
        ensures
            o == NodeOutput::Continue(None),
    {
        NodeOutput::Continue(None)
    }

    pub fn id(&self) -> (s: &'static str)
        ensures
            s@ == "tool"@,
    {
        "tool"
    }

    pub fn name(&self) -> (s: &'static str)
        ensures
            s@ == "Tool Node"@,
    {
        "Tool Node"
    }
}

/// The observation text of a tool's output: its words joined by single
/// spaces, cut to 480 characters.
pub open spec fn tool_summary(tool_name: Seq<char>, output: Seq<char>) -> Seq<char> {
    let t = truncated(join(words(output), seq![' ']), 480);
    "Tool `"@ + tool_name + "` summary:\n"@ + if t.len() == 0 {
        "No useful output returned."@
    } else {
        t
    }
}

/// Summarizes a tool's output for the agent's next reasoning step.
pub fn summarize_tool_output(tool_name: &str, output: &str) -> (s: String)
    ensures
        s@ == tool_summary(tool_name@, output@),
{
    let normalized = collapse_whitespace(output);
    let trimmed = crate::text::truncate_chars(normalized.as_str(), 480);
    let mut s = to_owned_string("Tool `");
    push_str(&mut s, tool_name);
    push_str(&mut s, "` summary:\n");
    if char_count(trimmed.as_str()) == 0 {
        push_str(&mut s, "No useful output returned.");
    } else {
        push_str(&mut s, trimmed.as_str());
    }
    s
}

/// The task packet handed to the executor: the selected agent as
/// `"name (id)"`, or `"default"`, and the user's goal.
pub open spec fn task_packet(goal: Seq<char>, selected: Option<(Seq<char>, Seq<char>)>) -> Seq<char> {
    let who = match selected {
        Some((name, id)) => name + " ("@ + id + ")"@,
        None => "default"@,
    };
    "Execution task packet:\n- Executor: "@ + who + "\n- User goal: "@ + goal
        + "\n\nFollow the selected Agent Skill package. The SKILL.md body is the primary execution instruction. Use the context bundle for plan, notes, attachments, and tool observations. Keep progress updates concise."@
}

/// Builds the executor's task packet.
pub fn build_executor_task_packet(goal: &str, selected_agent: Option<(&str, &str)>) -> (s: String)
    ensures
        s@ == task_packet(
            goal@,
            match selected_agent {
                Some((n, i)) => Some((n@, i@)),
                None => None,
            },
        ),
{
    let mut s = to_owned_string("Execution task packet:\n- Executor: ");
    match selected_agent {
        Some((name, id)) => {
            push_str(&mut s, name);
            push_str(&mut s, " (");
            push_str(&mut s, id);
            push_str(&mut s, ")");
        },
        None => {
            push_str(&mut s, "default");
        },
    }
    push_str(&mut s, "\n- User goal: ");
    push_str(&mut s, goal);
    push_str(
        &mut s,
        "\n\nFollow the selected Agent Skill package. The SKILL.md body is the primary execution instruction. Use the context bundle for plan, notes, attachments, and tool observations. Keep progress updates concise.",
    );
    proof {
        assert(s@ =~= task_packet(
            goal@,
            match selected_agent {
                Some((n, i)) => Some((n@, i@)),
                None => None,
            },
        ));
    }
    s
}

} // verus!
