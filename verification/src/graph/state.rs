//! Execution modes and routing decisions of the state graph.

use vstd::prelude::*;

use crate::text::{
    ascii_lower, eq_ignore_ascii_case, lemma_trim_nonws, str_eq_ignore_ascii_case, trim, trim_str,
};

verus! {

broadcast use vstd::string::group_string_axioms;

/// Execution modes for the graph.
#[derive(Debug, Clone, Copy, PartialEq, Eq, Structural)]
pub enum Mode {
    Chat,
    Search,
    SearchAgentic,
    Agent,
}

impl Default for Mode {
    /// `Mode::Chat`.
    fn default() -> (m: Mode)
        ensures
            m == Mode::Chat,
    {
        Mode::Chat
    }
}

/// The wire name of a mode.
pub open spec fn mode_name(m: Mode) -> Seq<char> {
    match m {
        Mode::Chat => "chat"@,
        Mode::Search => "search"@,
        Mode::SearchAgentic => "search_agentic"@,
        Mode::Agent => "agent"@,
    }
}

/// The mode a name selects.  The name is compared after lower-casing; since
/// none of the mode names holds a `k`, that is equality up to ASCII case.
/// Unknown names select `Chat`.
pub open spec fn mode_from_text(s: Seq<char>) -> Mode {
    if eq_ignore_ascii_case(s, "search_agentic"@) {
        Mode::SearchAgentic
    } else if eq_ignore_ascii_case(s, "search"@) {
        Mode::Search
    } else if eq_ignore_ascii_case(s, "agent"@) {
        Mode::Agent
    } else {
        Mode::Chat
    }
}

impl Mode {
    /// Parses a mode name, case-insensitively; unknown names give `Chat`.
    pub fn from_str(s: &str) -> (m: Mode)
        ensures
            m == mode_from_text(s@),
    {
        if str_eq_ignore_ascii_case(s, "search_agentic") {
            Mode::SearchAgentic
        } else if str_eq_ignore_ascii_case(s, "search") {
            Mode::Search
        } else if str_eq_ignore_ascii_case(s, "agent") {
            Mode::Agent
        } else {
            Mode::Chat
        }
    }

    /// The wire name of the mode.
    pub fn as_str(&self) -> (s: &'static str)
        ensures
            s@ == mode_name(*self),
    {
        match self {
            Mode::Chat => "chat",
            Mode::Search => "search",
            Mode::SearchAgentic => "search_agentic",
            Mode::Agent => "agent",
        }
    }
}

/// Agent execution modes (for agent-mode routing).
///
/// - `Low`: lightweight agent, skips the planner unless the request needs it
/// - `High`: full planning pipeline, always through the planner
/// - `Direct`: bypasses planning and executes the agent directly
#[derive(Debug, Clone, Copy, PartialEq, Eq, Structural)]
pub enum AgentMode {
    Low,
    High,
    Direct,
}

impl Default for AgentMode {
    /// `AgentMode::Low`.
    fn default() -> (m: AgentMode)
        ensures
            m == AgentMode::Low,
    {
        AgentMode::Low
    }
}

/// The wire name of an agent mode.
pub open spec fn agent_mode_name(m: AgentMode) -> Seq<char> {
    match m {
        AgentMode::Low => "low"@,
        AgentMode::High => "high"@,
        AgentMode::Direct => "direct"@,
    }
}

/// The agent mode a name selects, after trimming and lower-casing (equality
/// up to ASCII case, as no name holds a `k`); `"fast"` is a legacy alias of
/// `"low"`, and anything else, or no name, selects `Low`.
pub open spec fn agent_mode_from_text(s: Option<Seq<char>>) -> AgentMode {
    match s {
        Some(t) => if eq_ignore_ascii_case(trim(t), "high"@) {
            AgentMode::High
        } else if eq_ignore_ascii_case(trim(t), "direct"@) {
            AgentMode::Direct
        } else {
            AgentMode::Low
        },
        None => AgentMode::Low,
    }
}

impl AgentMode {
    /// Parses an optional agent mode name.
    pub fn from_str(s: Option<&str>) -> (m: AgentMode)
        ensures
            m == agent_mode_from_text(
                match s {
                    Some(t) => Some(t@),
                    None => None,
                },
            ),
    {
        match s {
            None => AgentMode::Low,
            Some(raw) => {
                let trimmed = trim_str(raw);
                if str_eq_ignore_ascii_case(trimmed.as_str(), "high") {
                    AgentMode::High
                } else if str_eq_ignore_ascii_case(trimmed.as_str(), "direct") {
                    AgentMode::Direct
                } else if str_eq_ignore_ascii_case(trimmed.as_str(), "low")
                    || str_eq_ignore_ascii_case(trimmed.as_str(), "fast") {
                    AgentMode::Low
                } else {
                    AgentMode::Low
                }
            },
        }
    }

    /// The wire name of the agent mode.
    pub fn as_str(&self) -> (s: &'static str)
        ensures
            s@ == agent_mode_name(*self),
    {
        match self {
            AgentMode::Low => "low",
            AgentMode::High => "high",
            AgentMode::Direct => "direct",
        }
    }
}

/// Supervisor routing decisions.
#[derive(Debug, Clone, PartialEq, Eq)]
pub enum SupervisorRoute {
    Planner,
    Agent(String),
}

/// Parsing the name of a mode gives the mode back.
pub proof fn lemma_mode_round_trip(m: Mode)
    ensures
        mode_from_text(mode_name(m)) == m,
{
    reveal_strlit("chat");
    reveal_strlit("search");
    reveal_strlit("search_agentic");
    reveal_strlit("agent");
    let n = mode_name(m);
    if m != Mode::SearchAgentic {
        lemma_lengths_differ(n, "search_agentic"@);
    }
    if m != Mode::Search {
        lemma_lengths_differ(n, "search"@);
    }
    if m != Mode::Agent {
        lemma_lengths_differ(n, "agent"@);
    }
}

/// Sequences of different lengths are different up to ASCII case.
pub proof fn lemma_lengths_differ(a: Seq<char>, b: Seq<char>)
    requires
        a.len() != b.len(),
    ensures
        !eq_ignore_ascii_case(a, b),
{
    assert(ascii_lower(a).len() == a.len());
    assert(ascii_lower(b).len() == b.len());
}

/// Parsing the name of an agent mode gives the agent mode back.
pub proof fn lemma_agent_mode_round_trip(m: AgentMode)
    ensures
        agent_mode_from_text(Some(agent_mode_name(m))) == m,
{
    reveal_strlit("low");
    reveal_strlit("high");
    reveal_strlit("direct");
    let n = agent_mode_name(m);
    lemma_trim_nonws(n);
    if m != AgentMode::High {
        lemma_lengths_differ(n, "high"@);
    }
    if m != AgentMode::Direct {
        lemma_lengths_differ(n, "direct"@);
    }
}

/// Mode names are parsed by lower-casing the name and comparing it with the
/// wire names; anything else is a chat.  (The standard library's
/// `to_lowercase` agrees with ASCII lower-casing on whether a text lowers to
/// one of these names: besides `A` to `Z`, the only character whose lower
/// case is ASCII is the Kelvin sign, lowered to `k`, which no name holds.)
pub proof fn lemma_mode_by_lowercase(s: Seq<char>)
    ensures
        mode_from_text(s) == if ascii_lower(s) == "search_agentic"@ {
            Mode::SearchAgentic
        } else if ascii_lower(s) == "search"@ {
            Mode::Search
        } else if ascii_lower(s) == "agent"@ {
            Mode::Agent
        } else {
            Mode::Chat
        },
{
    reveal_strlit("search_agentic");
    reveal_strlit("search");
    reveal_strlit("agent");
    assert(ascii_lower("search_agentic"@) =~= "search_agentic"@);
    assert(ascii_lower("search"@) =~= "search"@);
    assert(ascii_lower("agent"@) =~= "agent"@);
}

/// Agent mode names are parsed by trimming and lower-casing the name:
/// `high` and `direct` select those modes, and anything else (`low`, the
/// legacy `fast`, an unknown name or none) selects `Low`.
pub proof fn lemma_agent_mode_by_lowercase(s: Option<Seq<char>>)
    ensures
        agent_mode_from_text(s) == match s {
            Some(t) => if ascii_lower(trim(t)) == "high"@ {
                AgentMode::High
            } else if ascii_lower(trim(t)) == "direct"@ {
                AgentMode::Direct
            } else {
                AgentMode::Low
            },
            None => AgentMode::Low,
        },
{
    reveal_strlit("high");
    reveal_strlit("direct");
    assert(ascii_lower("high"@) =~= "high"@);
    assert(ascii_lower("direct"@) =~= "direct"@);
}

/// The flavours of prompt context the nodes build.
#[derive(Debug, Clone, Copy, PartialEq, Eq, Structural)]
pub enum PipelineMode {
    Chat,
    SearchFast,
    SearchAgentic,
    AgentHigh,
    AgentLow,
    AgentDirect,
}

/// The context an agent-mode node builds.
pub open spec fn agent_pipeline(m: AgentMode) -> PipelineMode {
    match m {
        AgentMode::High => PipelineMode::AgentHigh,
        AgentMode::Low => PipelineMode::AgentLow,
        AgentMode::Direct => PipelineMode::AgentDirect,
    }
}

/// The context an agent-mode node builds.
pub fn pipeline_mode_for_agent(m: AgentMode) -> (p: PipelineMode)
    ensures
        p == agent_pipeline(m),
{
    match m {
        AgentMode::High => PipelineMode::AgentHigh,
        AgentMode::Low => PipelineMode::AgentLow,
        AgentMode::Direct => PipelineMode::AgentDirect,
    }
}

/// A node rebuilds the context unless one of the flavour it needs exists.
pub fn needs_pipeline_rebuild(current: Option<PipelineMode>, wanted: PipelineMode) -> (r: bool)
    ensures
        r == (current != Some(wanted)),
{
    match current {
        Some(c) => c != wanted,
        None => true,
    }
}

} // verus!
