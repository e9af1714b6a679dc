//! The Tepora graph and graphs loaded from workflow definitions.

use vstd::prelude::*;

use crate::graph::flow_graph::has_directed_cycle;
use crate::graph::node::GraphError;
use crate::graph::nodes::{
    AgentExecutorNode, AgenticSearchNode, ChatNode, PlannerNode, RouterNode, SearchNode,
    SupervisorNode, SynthesizerNode, ThinkingNode,
};
use crate::graph::runtime::{build_outcome, is_error, GraphBuilder, GraphRuntime};
use crate::text::{push_str, str_eq, to_owned_string};
use crate::json::JsonValue;

verus! {

broadcast use vstd::string::group_string_axioms;

/// Node ids of the Tepora graph, by node index.
pub open spec fn tepora_nodes() -> Seq<Seq<char>> {
    seq![
        "router"@,
        "thinking"@,
        "chat"@,
        "search"@,
        "search_agentic"@,
        "supervisor"@,
        "planner"@,
        "agent_executor"@,
        "synthesizer"@,
    ]
}

/// Edges of the Tepora graph: the router branches on the mode, thinking
/// leads to chat, the supervisor branches to the planner or directly to the
/// agent executor, and the planner leads to the agent executor.
pub open spec fn tepora_edges() -> Seq<(nat, nat, Option<Seq<char>>)> {
    seq![
        (0nat, 1nat, Some("thinking"@)),
        (0nat, 2nat, Some("chat"@)),
        (0nat, 3nat, Some("search"@)),
        (0nat, 4nat, Some("search_agentic"@)),
        (0nat, 5nat, Some("supervisor"@)),
        (1nat, 2nat, None),
        (5nat, 6nat, Some("planner"@)),
        (5nat, 7nat, Some("direct"@)),
        (6nat, 7nat, None),
    ]
}

/// Builds the main Tepora graph with entry `router` and the given step
/// limit (the configured recursion limit, 50 by default).
pub fn build_tepora_graph(max_steps: usize) -> (r: Result<GraphRuntime, GraphError>)
    ensures
        r matches Ok(rt) && rt.wf() && rt.nodes() == tepora_nodes() && rt.edges()
            == tepora_edges() && rt.entry() == "router"@ && rt.step_limit() == max_steps,
{
    proof {
        reveal_strlit("router");
        reveal_strlit("thinking");
        reveal_strlit("chat");
        reveal_strlit("search");
        reveal_strlit("search_agentic");
        reveal_strlit("supervisor");
        reveal_strlit("planner");
        reveal_strlit("agent_executor");
        reveal_strlit("synthesizer");
        reveal_strlit("direct");
    }
    let b = GraphBuilder::new().entry("router").max_steps(max_steps)
        .node(RouterNode::new().id())
        .node(ThinkingNode::new().id())
        .node(ChatNode::new().id())
        .node(SearchNode::new().id())
        .node(AgenticSearchNode::new().id())
        .node(SupervisorNode::new().id())
        .node(PlannerNode::new().id())
        .node(AgentExecutorNode::new().id())
        .node(SynthesizerNode::new().id())
        .conditional_edge("router", "thinking", "thinking")
        .conditional_edge("router", "chat", "chat")
        .conditional_edge("router", "search", "search")
        .conditional_edge("router", "search_agentic", "search_agentic")
        .conditional_edge("router", "supervisor", "supervisor")
        .edge("thinking", "chat")
        .conditional_edge("supervisor", "planner", "planner")
        .conditional_edge("supervisor", "agent_executor", "direct")
        .edge("planner", "agent_executor");
    proof {
        assert(b.nodes() =~= tepora_nodes());
        assert(b.pending() =~= seq![
            ("router"@, "thinking"@, Some("thinking"@)),
            ("router"@, "chat"@, Some("chat"@)),
            ("router"@, "search"@, Some("search"@)),
            ("router"@, "search_agentic"@, Some("search_agentic"@)),
            ("router"@, "supervisor"@, Some("supervisor"@)),
            ("thinking"@, "chat"@, None),
            ("supervisor"@, "planner"@, Some("planner"@)),
            ("supervisor"@, "agent_executor"@, Some("direct"@)),
            ("planner"@, "agent_executor"@, None),
        ]);
        lemma_tepora_build(b.pending());
    }
    b.build()
}

/// The Tepora edges resolve against the Tepora nodes.
proof fn lemma_tepora_build(pending: Seq<(Seq<char>, Seq<char>, Option<Seq<char>>)>)
    requires
        pending == seq![
            ("router"@, "thinking"@, Some("thinking"@)),
            ("router"@, "chat"@, Some("chat"@)),
            ("router"@, "search"@, Some("search"@)),
            ("router"@, "search_agentic"@, Some("search_agentic"@)),
            ("router"@, "supervisor"@, Some("supervisor"@)),
            ("thinking"@, "chat"@, None),
            ("supervisor"@, "planner"@, Some("planner"@)),
            ("supervisor"@, "agent_executor"@, Some("direct"@)),
            ("planner"@, "agent_executor"@, None),
        ],
    ensures
        build_outcome(tepora_nodes(), pending) == Ok::<
            Seq<(nat, nat, Option<Seq<char>>)>,
            (Seq<char>, Seq<char>),
        >(tepora_edges()),
{
    reveal_strlit("router");
    reveal_strlit("thinking");
    reveal_strlit("chat");
    reveal_strlit("search");
    reveal_strlit("search_agentic");
    reveal_strlit("supervisor");
    reveal_strlit("planner");
    reveal_strlit("agent_executor");
    reveal_strlit("synthesizer");
    reveal_strlit("direct");
    lemma_tepora_lookups();
    let es = tepora_edges();
    let nodes = tepora_nodes();
    assert forall|k: int| 0 <= k < pending.len() implies {
        &&& crate::graph::runtime::lookup(nodes, (#[trigger] pending[k]).0) == Some(es[k].0)
        &&& crate::graph::runtime::lookup(nodes, pending[k].1) == Some(es[k].1)
        &&& pending[k].2 == es[k].2
    } by {
        if k == 0 {
        } else if k == 1 {
        } else if k == 2 {
        } else if k == 3 {
        } else if k == 4 {
        } else if k == 5 {
        } else if k == 6 {
        } else if k == 7 {
        } else {
        }
    }
    lemma_build_all(nodes, pending, es);
}

/// When every pending edge resolves, the build yields the resolved edges.
pub proof fn lemma_build_all(
    nodes: Seq<Seq<char>>,
    pending: Seq<(Seq<char>, Seq<char>, Option<Seq<char>>)>,
    edges: Seq<(nat, nat, Option<Seq<char>>)>,
)
    requires
        pending.len() == edges.len(),
        forall|k: int|
            0 <= k < pending.len() ==> {
                &&& crate::graph::runtime::lookup(nodes, (#[trigger] pending[k]).0) == Some(
                    edges[k].0,
                )
                &&& crate::graph::runtime::lookup(nodes, pending[k].1) == Some(edges[k].1)
                &&& pending[k].2 == edges[k].2
            },
    ensures
        build_outcome(nodes, pending) == Ok::<
            Seq<(nat, nat, Option<Seq<char>>)>,
            (Seq<char>, Seq<char>),
        >(edges),
    decreases pending.len(),
{
    if pending.len() > 0 {
        assert forall|k: int| 0 <= k < pending.drop_last().len() implies {
            &&& crate::graph::runtime::lookup(nodes, (#[trigger] pending.drop_last()[k]).0) == Some(
                edges.drop_last()[k].0,
            )
            &&& crate::graph::runtime::lookup(nodes, pending.drop_last()[k].1) == Some(
                edges.drop_last()[k].1,
            )
            &&& pending.drop_last()[k].2 == edges.drop_last()[k].2
        } by {
            assert(pending.drop_last()[k] == pending[k]);
            assert(edges.drop_last()[k] == edges[k]);
        }
        lemma_build_all(nodes, pending.drop_last(), edges.drop_last());
        let last = pending.last();
        assert(last == pending[pending.len() - 1]);
        assert(edges.drop_last().push(edges.last()) =~= edges);
        assert(edges.last() == (edges[edges.len() - 1].0, edges[edges.len() - 1].1, last.2));
    } else {
        assert(edges =~= Seq::<(nat, nat, Option<Seq<char>>)>::empty());
    }
}

/// Where each Tepora node id is found.
proof fn lemma_tepora_lookups()
    ensures
        crate::graph::runtime::lookup(tepora_nodes(), "router"@) == Some(0nat),
        crate::graph::runtime::lookup(tepora_nodes(), "thinking"@) == Some(1nat),
        crate::graph::runtime::lookup(tepora_nodes(), "chat"@) == Some(2nat),
        crate::graph::runtime::lookup(tepora_nodes(), "search"@) == Some(3nat),
        crate::graph::runtime::lookup(tepora_nodes(), "search_agentic"@) == Some(4nat),
        crate::graph::runtime::lookup(tepora_nodes(), "supervisor"@) == Some(5nat),
        crate::graph::runtime::lookup(tepora_nodes(), "planner"@) == Some(6nat),
        crate::graph::runtime::lookup(tepora_nodes(), "agent_executor"@) == Some(7nat),
{
    reveal_strlit("router");
    reveal_strlit("thinking");
    reveal_strlit("chat");
    reveal_strlit("search");
    reveal_strlit("search_agentic");
    reveal_strlit("supervisor");
    reveal_strlit("planner");
    reveal_strlit("agent_executor");
    reveal_strlit("synthesizer");
    reveal_with_fuel(crate::graph::runtime::lookup, 10);
    let n = tepora_nodes();
    assert(n[0][0] == 'r' && n[1][0] == 't' && n[2][0] == 'c' && n[3][0] == 's' && n[4][0] == 's'
        && n[5][0] == 's' && n[6][0] == 'p' && n[7][0] == 'a' && n[8][0] == 's');
    assert(n[3].len() == 6 && n[4].len() == 14 && n[5].len() == 10 && n[8].len() == 11);
    assert(n.drop_last().drop_last().drop_last().drop_last().drop_last().drop_last().drop_last().drop_last().drop_last() =~= Seq::<Seq<char>>::empty());
}

/// A graph whose edges all go from a lower to a higher node index has no
/// cycle.
pub proof fn lemma_forward_edges_acyclic(edges: Seq<(nat, nat, Option<Seq<char>>)>)
    requires
        forall|k: int| 0 <= k < edges.len() ==> (#[trigger] edges[k]).0 < edges[k].1,
    ensures
        !has_directed_cycle(edges),
{
    if has_directed_cycle(edges) {
        let walk = choose|walk: Seq<nat>|
            #![trigger walk.len()]
            walk.len() >= 2 && walk[0] == walk.last() && forall|k: int|
                0 <= k < walk.len() - 1 ==> crate::graph::flow_graph::has_edge(
                    edges,
                    #[trigger] walk[k],
                    walk[k + 1],
                );
        assert forall|k: int| 0 <= k < walk.len() - 1 implies #[trigger] walk[k] < walk[k + 1] by {
            assert(crate::graph::flow_graph::has_edge(edges, walk[k], walk[k + 1]));
            let e = choose|e: int|
                0 <= e < edges.len() && #[trigger] edges[e].0 == walk[k] && edges[e].1 == walk[k + 1];
        }
        lemma_increasing_walk(walk, walk.len() - 1);
    }
}

proof fn lemma_increasing_walk(walk: Seq<nat>, j: int)
    requires
        1 <= j < walk.len(),
        forall|k: int| 0 <= k < walk.len() - 1 ==> #[trigger] walk[k] < walk[k + 1],
    ensures
        walk[0] < walk[j],
    decreases j,
{
    if j > 1 {
        lemma_increasing_walk(walk, j - 1);
        assert(walk[j - 1] < walk[j]);
    } else {
        assert(walk[0] < walk[1]);
    }
}

/// The Tepora graph has no cycle: every edge leads forward.
pub proof fn lemma_tepora_graph_acyclic()
    ensures
        !has_directed_cycle(tepora_edges()),
{
    lemma_forward_edges_acyclic(tepora_edges());
}

/// A node within a workflow definition.
pub struct NodeDef {
    /// Id of the node instance in this graph (e.g. `"chat"`, `"search_1"`).
    pub id: String,
    /// The node implementation (e.g. `"ChatNode"`).
    pub node_type: String,
    /// Editor metadata; a tool node reads `tool_name` and `tool_args` here.
    pub metadata: JsonValue,
}

/// A transition between two nodes of a workflow definition.
pub struct EdgeDef {
    pub from: String,
    pub to: String,
    /// Branch label; a missing condition is a default edge.
    pub condition: Option<String>,
    pub metadata: JsonValue,
}

/// A workflow definition.
pub struct WorkflowDef {
    pub name: String,
    pub entry_node: String,
    pub nodes: Vec<NodeDef>,
    pub edges: Vec<EdgeDef>,
    pub max_steps: Option<usize>,
    pub execution_timeout_ms: Option<u64>,
}

/// The node implementations a workflow can name.
#[derive(Debug, Clone, Copy, PartialEq, Eq, Structural)]
pub enum NodeKind {
    Router,
    Thinking,
    Chat,
    Search,
    AgenticSearch,
    Supervisor,
    Planner,
    AgentExecutor,
    Synthesizer,
    Tool,
}

/// The id of the node a kind provides.
pub open spec fn kind_id(k: NodeKind) -> Seq<char> {
    match k {
        NodeKind::Router => "router"@,
        NodeKind::Thinking => "thinking"@,
        NodeKind::Chat => "chat"@,
        NodeKind::Search => "search"@,
        NodeKind::AgenticSearch => "search_agentic"@,
        NodeKind::Supervisor => "supervisor"@,
        NodeKind::Planner => "planner"@,
        NodeKind::AgentExecutor => "agent_executor"@,
        NodeKind::Synthesizer => "synthesizer"@,
        NodeKind::Tool => "tool"@,
    }
}

/// The display name of the node a kind provides.
pub open spec fn kind_name(k: NodeKind) -> Seq<char> {
    match k {
        NodeKind::Router => "Mode Router"@,
        NodeKind::Thinking => "Thinking Node"@,
        NodeKind::Chat => "Chat Node"@,
        NodeKind::Search => "Search Node"@,
        NodeKind::AgenticSearch => "Agentic Search"@,
        NodeKind::Supervisor => "Supervisor"@,
        NodeKind::Planner => "Planner"@,
        NodeKind::AgentExecutor => "Agent Executor"@,
        NodeKind::Synthesizer => "Response Synthesizer"@,
        NodeKind::Tool => "Tool Node"@,
    }
}

impl NodeKind {
    /// The id of the node this kind provides.
    pub fn id(self) -> (s: &'static str)
        ensures
            s@ == kind_id(self),
    {
        match self {
            NodeKind::Router => RouterNode::new().id(),
            NodeKind::Thinking => ThinkingNode::new().id(),
            NodeKind::Chat => ChatNode::new().id(),
            NodeKind::Search => SearchNode::new().id(),
            NodeKind::AgenticSearch => AgenticSearchNode::new().id(),
            NodeKind::Supervisor => SupervisorNode::new().id(),
            NodeKind::Planner => PlannerNode::new().id(),
            NodeKind::AgentExecutor => AgentExecutorNode::new().id(),
            NodeKind::Synthesizer => SynthesizerNode::new().id(),
            NodeKind::Tool => "tool",
        }
    }

    /// The display name of the node this kind provides.
    pub fn name(self) -> (s: &'static str)
        ensures
            s@ == kind_name(self),
    {
        match self {
            NodeKind::Router => RouterNode::new().name(),
            NodeKind::Thinking => ThinkingNode::new().name(),
            NodeKind::Chat => ChatNode::new().name(),
            NodeKind::Search => SearchNode::new().name(),
            NodeKind::AgenticSearch => AgenticSearchNode::new().name(),
            NodeKind::Supervisor => SupervisorNode::new().name(),
            NodeKind::Planner => PlannerNode::new().name(),
            NodeKind::AgentExecutor => AgentExecutorNode::new().name(),
            NodeKind::Synthesizer => SynthesizerNode::new().name(),
            NodeKind::Tool => "Tool Node",
        }
    }
}

/// The implementation a type name selects.
pub open spec fn node_kind_of(t: Seq<char>) -> Option<NodeKind> {
    if t == "RouterNode"@ {
        Some(NodeKind::Router)
    } else if t == "ThinkingNode"@ {
        Some(NodeKind::Thinking)
    } else if t == "ChatNode"@ {
        Some(NodeKind::Chat)
    } else if t == "SearchNode"@ {
        Some(NodeKind::Search)
    } else if t == "AgenticSearchNode"@ {
        Some(NodeKind::AgenticSearch)
    } else if t == "SupervisorNode"@ {
        Some(NodeKind::Supervisor)
    } else if t == "PlannerNode"@ {
        Some(NodeKind::Planner)
    } else if t == "AgentExecutorNode"@ {
        Some(NodeKind::AgentExecutor)
    } else if t == "SynthesizerNode"@ {
        Some(NodeKind::Synthesizer)
    } else if t == "ToolNode"@ {
        Some(NodeKind::Tool)
    } else {
        None
    }
}

/// The message for an unknown node type.
pub open spec fn unknown_type_message(t: Seq<char>) -> Seq<char> {
    "Unknown node type '"@ + t + "' requested via JSON schema"@
}

/// Selects the node implementation for a type name from a workflow.
pub fn instantiate_node(node_type: &str) -> (r: Result<NodeKind, GraphError>)
    ensures
        match node_kind_of(node_type@) {
            Some(k) => r == Ok::<NodeKind, GraphError>(k),
            None => r matches Err(e) && is_error(e, "loader"@, unknown_type_message(node_type@)),
        },
{
    if str_eq(node_type, "RouterNode") {
        Ok(NodeKind::Router)
    } else if str_eq(node_type, "ThinkingNode") {
        Ok(NodeKind::Thinking)
    } else if str_eq(node_type, "ChatNode") {
        Ok(NodeKind::Chat)
    } else if str_eq(node_type, "SearchNode") {
        Ok(NodeKind::Search)
    } else if str_eq(node_type, "AgenticSearchNode") {
        Ok(NodeKind::AgenticSearch)
    } else if str_eq(node_type, "SupervisorNode") {
        Ok(NodeKind::Supervisor)
    } else if str_eq(node_type, "PlannerNode") {
        Ok(NodeKind::Planner)
    } else if str_eq(node_type, "AgentExecutorNode") {
        Ok(NodeKind::AgentExecutor)
    } else if str_eq(node_type, "SynthesizerNode") {
        Ok(NodeKind::Synthesizer)
    } else if str_eq(node_type, "ToolNode") {
        Ok(NodeKind::Tool)
    } else {
        let mut message = to_owned_string("Unknown node type '");
        push_str(&mut message, node_type);
        push_str(&mut message, "' requested via JSON schema");
        Err(GraphError::from_parts(to_owned_string("loader"), message))
    }
}

/// Index of the first node whose type is unknown.
pub open spec fn first_unknown(types: Seq<Seq<char>>) -> Option<nat>
    decreases types.len(),
{
    if types.len() == 0 {
        None
    } else if node_kind_of(types[0]) is None {
        Some(0)
    } else {
        match first_unknown(types.drop_first()) {
            Some(i) => Some(i + 1),
            None => None,
        }
    }
}

/// The pending edges of a definition.
pub open spec fn def_edges(edges: Seq<EdgeDef>) -> Seq<(Seq<char>, Seq<char>, Option<Seq<char>>)> {
    edges.map_values(
        |e: EdgeDef|
            (
                e.from@,
                e.to@,
                match e.condition {
                    Some(c) => Some(c@),
                    None => None,
                },
            ),
    )
}

/// Loads a runtime from a workflow definition: every node must have a known
/// type (the first unknown type is the error), then the edges are added as
/// `GraphBuilder::build` adds them.  The graph's node ids are the
/// definition's ids.
pub fn load_workflow_from_json(def: &WorkflowDef) -> (r: Result<GraphRuntime, GraphError>)
    requires
        def.nodes@.len() < u32::MAX,
        def.edges@.len() < u32::MAX,
    ensures
        ({
            let types = def.nodes@.map_values(|n: NodeDef| n.node_type@);
            let ids = def.nodes@.map_values(|n: NodeDef| n.id@);
            match first_unknown(types) {
                Some(i) => r matches Err(e) && is_error(
                    e,
                    "loader"@,
                    unknown_type_message(types[i as int]),
                ),
                None => match build_outcome(ids, def_edges(def.edges@)) {
                    Ok(es) => r matches Ok(rt) && rt.wf() && rt.nodes() == ids && rt.edges() == es
                        && rt.entry() == def.entry_node@ && rt.step_limit() == match def.max_steps {
                        Some(m) => m as nat,
                        None => 50,
                    },
                    Err(p) => r matches Err(e) && is_error(e, p.0, p.1),
                },
            }
        }),
{
    let ghost types = def.nodes@.map_values(|n: NodeDef| n.node_type@);
    let ghost ids = def.nodes@.map_values(|n: NodeDef| n.id@);
    let mut builder = GraphBuilder::new().entry(def.entry_node.as_str());
    if let Some(max_steps) = def.max_steps {
        builder = builder.max_steps(max_steps);
    }
    let mut i: usize = 0;
    assert(types.skip(0) =~= types);
    while i < def.nodes.len()
        invariant
            types == def.nodes@.map_values(|n: NodeDef| n.node_type@),
            ids == def.nodes@.map_values(|n: NodeDef| n.id@),
            def.nodes@.len() < u32::MAX,
            0 <= i <= def.nodes@.len(),
            builder.wf(),
            builder.nodes() == ids.take(i as int),
            builder.entry_id() == def.entry_node@,
            builder.step_limit() == match def.max_steps {
                Some(m) => m as nat,
                None => 50,
            },
            builder.pending().len() == 0,
            forall|k: int| 0 <= k < i ==> node_kind_of(#[trigger] types[k]) is Some,
            first_unknown(types) == match first_unknown(types.skip(i as int)) {
                Some(j) => Some((j + i) as nat),
                None => None,
            },
        decreases def.nodes.len() - i,
    {
        let node_def = &def.nodes[i];
        assert(types[i as int] == node_def.node_type@);
        assert(ids[i as int] == node_def.id@);
        assert(types.skip(i as int).drop_first() =~= types.skip(i + 1));
        assert(types.skip(i as int)[0] == types[i as int]);
        match instantiate_node(node_def.node_type.as_str()) {
            Ok(_) => {},
            Err(e) => {
                return Err(e);
            },
        }
        builder = builder.node(node_def.id.as_str());
        assert(ids.take(i + 1) =~= ids.take(i as int).push(ids[i as int]));
        i = i + 1;
    }
    assert(ids.take(def.nodes@.len() as int) =~= ids);
    assert(types.skip(i as int) =~= Seq::<Seq<char>>::empty());
    let mut k: usize = 0;
    while k < def.edges.len()
        invariant
            ids == def.nodes@.map_values(|n: NodeDef| n.id@),
            0 <= k <= def.edges@.len(),
            def.edges@.len() < u32::MAX,
            builder.wf(),
            builder.nodes() == ids,
            builder.entry_id() == def.entry_node@,
            builder.step_limit() == match def.max_steps {
                Some(m) => m as nat,
                None => 50,
            },
            builder.pending() == def_edges(def.edges@).take(k as int),
        decreases def.edges.len() - k,
    {
        let edge = &def.edges[k];
        assert(def_edges(def.edges@).take(k + 1) =~= def_edges(def.edges@).take(k as int).push(
            def_edges(def.edges@)[k as int],
        ));
        match &edge.condition {
            Some(condition) => {
                builder = builder.conditional_edge(
                    edge.from.as_str(),
                    edge.to.as_str(),
                    condition.as_str(),
                );
            },
            None => {
                builder = builder.edge(edge.from.as_str(), edge.to.as_str());
            },
        }
        k = k + 1;
    }
    assert(def_edges(def.edges@).take(def.edges@.len() as int) =~= def_edges(def.edges@));
    builder.build()
}

} // verus!
