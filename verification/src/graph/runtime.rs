//! Routing conditions, the graph runtime and its builder.
//!
//! A runtime holds a directed graph whose nodes are node ids and whose edges
//! carry a routing condition.  A node is found by id; when several nodes
//! share an id, the one added last is found.  After a node has run, its
//! output decides the next node: an explicit target, an edge labelled with
//! the branch condition, or else the default edge.

use petgraph::graph::Graph;
use petgraph::Directed;
use vstd::prelude::*;

use crate::graph::flow_graph::{
    condition_view, flow_edges, flow_graph_add_edge, flow_graph_add_node,
    flow_graph_is_cyclic, flow_graph_new, flow_graph_node_count, flow_graph_node_id,
    flow_graph_outgoing, flow_nodes, has_directed_cycle, outgoing,
};
use crate::graph::node::{GraphError, NodeOutput};
use crate::text::{decimal, push_decimal, push_str, str_eq, to_owned_string};

verus! {

broadcast use vstd::string::group_string_axioms;

/// Edge condition for graph routing.
#[derive(Debug, Clone, PartialEq, Eq, Hash)]
pub enum EdgeCondition {
    /// Always follow this edge (the default edge).
    Always,
    /// Follow this edge when the node returns this condition.
    OnCondition(String),
}

impl EdgeCondition {
    /// The default edge condition.
    pub fn always() -> (c: EdgeCondition)
        ensures
            condition_view(c) == Option::<Seq<char>>::None,
    {
        EdgeCondition::Always
    }

    /// The condition that matches the label `condition`.
    pub fn on(condition: &str) -> (c: EdgeCondition)
        ensures
            condition_view(c) == Some(condition@),
    {
        EdgeCondition::OnCondition(to_owned_string(condition))
    }

    /// A copy of this condition.
    pub fn duplicate(&self) -> (c: EdgeCondition)
        ensures
            c == *self,
    {
        match self {
            EdgeCondition::Always => EdgeCondition::Always,
            EdgeCondition::OnCondition(s) => EdgeCondition::OnCondition(s.clone()),
        }
    }

    /// Whether this edge is taken for `condition`: the default edge for no
    /// condition, a labelled edge for its own label.
    pub fn matches(&self, condition: Option<&str>) -> (r: bool)
        ensures
            r == (condition_view(*self) == match condition {
                Some(c) => Some(c@),
                None => None::<Seq<char>>,
            }),
    {
        match (self, condition) {
            (EdgeCondition::Always, None) => true,
            (EdgeCondition::OnCondition(expected), Some(actual)) => str_eq(expected.as_str(), actual),
            _ => false,
        }
    }
}

/// The index of the node with id `id`: the last node added with that id.
pub open spec fn lookup(nodes: Seq<Seq<char>>, id: Seq<char>) -> Option<nat>
    decreases nodes.len(),
{
    if nodes.len() == 0 {
        None
    } else if nodes.last() == id {
        Some((nodes.len() - 1) as nat)
    } else {
        lookup(nodes.drop_last(), id)
    }
}

pub proof fn lemma_lookup_bounds(nodes: Seq<Seq<char>>, id: Seq<char>)
    ensures
        lookup(nodes, id) matches Some(i) ==> i < nodes.len() && nodes[i as int] == id,
        lookup(nodes, id) is None ==> forall|j: int| 0 <= j < nodes.len() ==> nodes[j] != id,
    decreases nodes.len(),
{
    if nodes.len() > 0 && nodes.last() != id {
        lemma_lookup_bounds(nodes.drop_last(), id);
        if lookup(nodes, id) is None {
            assert forall|j: int| 0 <= j < nodes.len() implies nodes[j] != id by {
                if j < nodes.len() - 1 {
                    assert(nodes[j] == nodes.drop_last()[j]);
                }
            }
        }
    }
}

/// The target of the first edge in `out` whose condition is `c`.
pub open spec fn first_with(out: Seq<(nat, Option<Seq<char>>)>, c: Option<Seq<char>>) -> Option<
    nat,
>
    decreases out.len(),
{
    if out.len() == 0 {
        None
    } else if out[0].1 == c {
        Some(out[0].0)
    } else {
        first_with(out.drop_first(), c)
    }
}

/// The id shown for node `current` in errors.
pub open spec fn node_label(nodes: Seq<Seq<char>>, current: nat) -> Seq<char> {
    if current < nodes.len() {
        nodes[current as int]
    } else {
        "unknown"@
    }
}

/// The rendering of a string slice by `{:?}`: quoted, with escapes.
pub uninterp spec fn str_debug(s: Seq<char>) -> Seq<char>;

/// `format!("{:?}", s)`.
///
/// Calls the `Debug` formatting of `str`, which writes the string quoted and
/// escaped.
#[verifier::external_body]
fn debug_str(s: &str) -> (r: String)
    ensures
        r@ == str_debug(s@),
{
    format!("{:?}", s)
}

/// Outcome of routing from node `current`: the next node index, or the node
/// id and message of the error.
pub open spec fn route(
    nodes: Seq<Seq<char>>,
    edges: Seq<(nat, nat, Option<Seq<char>>)>,
    current: nat,
    condition: Option<Seq<char>>,
    explicit: Option<Seq<char>>,
) -> Result<nat, (Seq<char>, Seq<char>)> {
    let label = node_label(nodes, current);
    let out = outgoing(edges, current);
    match explicit {
        Some(target) => match lookup(nodes, target) {
            Some(i) => Ok(i),
            None => Err((label, "Explicit target node not found: "@ + target)),
        },
        None => if out.len() == 0 {
            Err((label, "No outgoing edges from node: "@ + label))
        } else {
            let labelled = match condition {
                Some(c) => first_with(out, Some(c)),
                None => None,
            };
            match labelled {
                Some(t) => Ok(t),
                None => match first_with(out, None) {
                    Some(t) => Ok(t),
                    None => Err(
                        (
                            label,
                            "No matching edge for condition: "@ + str_debug(
                                match condition {
                                    Some(c) => c,
                                    None => "(none)"@,
                                },
                            ),
                        ),
                    ),
                },
            }
        },
    }
}

/// The error carries this node id and message and an empty trace.
pub open spec fn is_error(e: GraphError, node_id: Seq<char>, message: Seq<char>) -> bool {
    e.node_id@ == node_id && e.message@ == message && e.execution_trace@.len() == 0
}

/// The result corresponds to the outcome `o`.
pub open spec fn agrees(r: Result<usize, GraphError>, o: Result<nat, (Seq<char>, Seq<char>)>) -> bool {
    match (r, o) {
        (Ok(i), Ok(j)) => i as nat == j,
        (Err(e), Err(p)) => is_error(e, p.0, p.1),
        _ => false,
    }
}

/// The `"Maximum steps (N) exceeded"` message.
pub open spec fn max_steps_message(max_steps: nat) -> Seq<char> {
    "Maximum steps ("@ + decimal(max_steps) + ") exceeded"@
}

/// What the caller does next while running the graph.
#[derive(Debug, Clone, PartialEq, Eq)]
pub enum RunAction {
    /// Execute the node with this index.
    Execute(usize),
    /// The graph has finished.
    Finished,
}

/// petgraph-based state graph runtime.
#[derive(Debug)]
pub struct GraphRuntime {
    graph: Graph<String, EdgeCondition, Directed, u32>,
    entry_node_id: String,
    max_steps: usize,
}

impl GraphRuntime {
    /// Node ids by node index.
    pub closed spec fn nodes(&self) -> Seq<Seq<char>> {
        flow_nodes(self.graph)
    }

    /// Edges (source, target, condition) in the order they were added.
    pub closed spec fn edges(&self) -> Seq<(nat, nat, Option<Seq<char>>)> {
        flow_edges(self.graph)
    }

    /// Id of the entry node.
    pub closed spec fn entry(&self) -> Seq<char> {
        self.entry_node_id@
    }

    /// Maximum number of node executions in one run.
    pub closed spec fn step_limit(&self) -> nat {
        self.max_steps as nat
    }

    /// Every edge joins two existing nodes, and indices fit `u32`.
    pub open spec fn wf(&self) -> bool {
        &&& self.nodes().len() <= u32::MAX
        &&& self.edges().len() <= u32::MAX
        &&& forall|k: int|
            0 <= k < self.edges().len() ==> (#[trigger] self.edges()[k]).0 < self.nodes().len()
                && self.edges()[k].1 < self.nodes().len()
    }

    /// An empty runtime: no nodes, no entry, at most 50 steps.
    pub fn new() -> (r: GraphRuntime)
        ensures
            r.wf(),
            r.nodes().len() == 0,
            r.edges().len() == 0,
            r.entry().len() == 0,
            r.step_limit() == 50,
    {
        GraphRuntime { graph: flow_graph_new(), entry_node_id: String::new(), max_steps: 50 }
    }

    /// The runtime with another step limit.
    pub fn with_max_steps(self, max_steps: usize) -> (r: GraphRuntime)
        ensures
            r.nodes() == self.nodes(),
            r.edges() == self.edges(),
            r.entry() == self.entry(),
            r.step_limit() == max_steps,
    {
        let mut r = self;
        r.max_steps = max_steps;
        r
    }

    /// The runtime with another entry node id.
    pub fn with_entry(self, node_id: &str) -> (r: GraphRuntime)
        ensures
            r.nodes() == self.nodes(),
            r.edges() == self.edges(),
            r.entry() == node_id@,
            r.step_limit() == self.step_limit(),
    {
        let mut r = self;
        r.entry_node_id = to_owned_string(node_id);
        r
    }

    /// The step limit.
    pub fn max_steps(&self) -> (n: usize)
        ensures
            n == self.step_limit(),
    {
        self.max_steps
    }

    /// The entry node id.
    pub fn entry_node_id(&self) -> (s: &str)
        ensures
            s@ == self.entry(),
    {
        self.entry_node_id.as_str()
    }

    /// Adds a node with id `node_id` and returns its index.
    pub fn add_node(&mut self, node_id: &str) -> (i: usize)
        requires
            old(self).wf(),
            old(self).nodes().len() < u32::MAX,
        ensures
            final(self).wf(),
            i == old(self).nodes().len(),
            final(self).nodes() == old(self).nodes().push(node_id@),
            final(self).edges() == old(self).edges(),
            final(self).entry() == old(self).entry(),
            final(self).step_limit() == old(self).step_limit(),
    {
        flow_graph_add_node(&mut self.graph, to_owned_string(node_id))
    }

    /// The index of the node with id `node_id` (the last one added with it).
    pub fn find_node(&self, node_id: &str) -> (r: Option<usize>)
        ensures
            r matches Some(i) ==> lookup(self.nodes(), node_id@) == Some(i as nat),
            r is None ==> lookup(self.nodes(), node_id@) is None,
    {
        let n = flow_graph_node_count(&self.graph);
        let ghost nodes = self.nodes();
        let mut i = n;
        assert(nodes.take(n as int) =~= nodes);
        while i > 0
            invariant
                nodes == self.nodes(),
                n == nodes.len(),
                0 <= i <= n,
                lookup(nodes.take(i as int), node_id@) == lookup(nodes, node_id@),
            decreases i,
        {
            let id = flow_graph_node_id(&self.graph, i - 1);
            assert(nodes.take(i as int).last() == nodes[i - 1]);
            if str_eq(id.as_str(), node_id) {
                return Some(i - 1);
            }
            assert(nodes.take(i as int).drop_last() =~= nodes.take(i - 1));
            i = i - 1;
        }
        assert(nodes.take(0) =~= Seq::<Seq<char>>::empty());
        None
    }

    /// The index of the node with id `node_id`, if there is one.
    pub fn get_node(&self, node_id: &str) -> (r: Option<usize>)
        ensures
            r matches Some(i) ==> lookup(self.nodes(), node_id@) == Some(i as nat),
            r is None ==> lookup(self.nodes(), node_id@) is None,
    {
        self.find_node(node_id)
    }

    /// The id of node `index`.
    pub fn node_id(&self, index: usize) -> (r: Option<String>)
        ensures
            r matches Some(s) ==> index < self.nodes().len() && s@ == self.nodes()[index as int],
            r is None ==> index >= self.nodes().len(),
    {
        if index < flow_graph_node_count(&self.graph) {
            Some(flow_graph_node_id(&self.graph, index).clone())
        } else {
            None
        }
    }

    /// The distinct node ids, each once.
    pub fn node_ids(&self) -> (ids: Vec<String>)
        ensures
            ids@.map_values(|s: String| s@).no_duplicates(),
            ids@.map_values(|s: String| s@).to_set() == self.nodes().to_set(),
    {
        let n = flow_graph_node_count(&self.graph);
        let ghost nodes = self.nodes();
        let mut ids: Vec<String> = Vec::new();
        let mut i: usize = 0;
        while i < n
            invariant
                nodes == self.nodes(),
                n == nodes.len(),
                0 <= i <= n,
                ids@.map_values(|s: String| s@).no_duplicates(),
                ids@.map_values(|s: String| s@).to_set() == nodes.take(i as int).to_set(),
            decreases n - i,
        {
            let id = flow_graph_node_id(&self.graph, i);
            let ghost views = ids@.map_values(|s: String| s@);
            let mut seen = false;
            let mut k: usize = 0;
            while k < ids.len()
                invariant
                    views == ids@.map_values(|s: String| s@),
                    0 <= k <= ids@.len(),
                    !seen ==> forall|j: int| 0 <= j < k ==> views[j] != id@,
                    seen ==> views.contains(id@),
                decreases ids.len() - k,
            {
                if str_eq(ids[k].as_str(), id.as_str()) {
                    assert(views[k as int] == id@);
                    seen = true;
                }
                k = k + 1;
            }
            assert(nodes.take(i + 1) =~= nodes.take(i as int).push(id@));
            if !seen {
                ids.push(id.clone());
                assert(ids@.map_values(|s: String| s@) =~= views.push(id@));
                proof {
                    lemma_push_to_set(views, id@);
                    lemma_push_to_set(nodes.take(i as int), id@);
                    assert forall|a: int, b: int|
                        0 <= a < b < views.push(id@).len() implies views.push(id@)[a] != views.push(
                        id@,
                    )[b] by {
                        if b == views.len() {
                            assert(views.push(id@)[a] == views[a]);
                        }
                    }
                }
            } else {
                proof {
                    assert(views.to_set().contains(id@));
                    lemma_push_to_set(nodes.take(i as int), id@);
                    assert(views.to_set() =~= views.to_set().insert(id@));
                }
            }
            i = i + 1;
        }
        assert(nodes.take(n as int) =~= nodes);
        ids
    }

    /// Adds a default edge from `from` to `to`.
    pub fn add_edge(&mut self, from: &str, to: &str) -> (r: Result<(), GraphError>)
        requires
            old(self).wf(),
            old(self).edges().len() < u32::MAX,
        ensures
            final(self).wf(),
            edge_added(*old(self), *final(self), from@, to@, None, r),
    {
        self.add_conditional_edge(from, to, EdgeCondition::Always)
    }

    /// Adds an edge from `from` to `to` taken on `condition`.
    ///
    /// Fails, leaving the graph unchanged, when either node is missing; the
    /// source is checked first.
    pub fn add_conditional_edge(&mut self, from: &str, to: &str, condition: EdgeCondition) -> (r:
        Result<(), GraphError>)
        requires
            old(self).wf(),
            old(self).edges().len() < u32::MAX,
        ensures
            final(self).wf(),
            edge_added(*old(self), *final(self), from@, to@, condition_view(condition), r),
    {
        proof {
            lemma_lookup_bounds(self.nodes(), from@);
            lemma_lookup_bounds(self.nodes(), to@);
        }
        let from_idx = match self.find_node(from) {
            Some(i) => i,
            None => {
                let mut message = to_owned_string("Source node not found: ");
                push_str(&mut message, from);
                return Err(GraphError::from_parts(to_owned_string(from), message));
            },
        };
        let to_idx = match self.find_node(to) {
            Some(i) => i,
            None => {
                let mut message = to_owned_string("Target node not found: ");
                push_str(&mut message, to);
                return Err(GraphError::from_parts(to_owned_string(to), message));
            },
        };
        flow_graph_add_edge(&mut self.graph, from_idx, to_idx, condition);
        Ok(())
    }

    /// Whether the graph has a directed cycle.
    pub fn has_cycle(&self) -> (r: bool)
        ensures
            r == has_directed_cycle(self.edges()),
    {
        flow_graph_is_cyclic(&self.graph)
    }

    /// The next node after node `current`: the explicit target if given,
    /// else the first edge (most recent first) labelled with `condition`,
    /// else the first default edge.
    pub fn resolve_next_node(
        &self,
        current: usize,
        condition: Option<&str>,
        explicit: Option<&str>,
    ) -> (r: Result<usize, GraphError>)
        requires
            self.wf(),
        ensures
            agrees(
                r,
                route(
                    self.nodes(),
                    self.edges(),
                    current as nat,
                    match condition {
                        Some(c) => Some(c@),
                        None => None,
                    },
                    match explicit {
                        Some(c) => Some(c@),
                        None => None,
                    },
                ),
            ),
            r matches Ok(i) ==> i < self.nodes().len(),
    {
        let n = flow_graph_node_count(&self.graph);
        let current_id = if current < n {
            flow_graph_node_id(&self.graph, current).clone()
        } else {
            to_owned_string("unknown")
        };
        proof {
            reveal_strlit("unknown");
        }
        if let Some(next_id) = explicit {
            proof {
                lemma_lookup_bounds(self.nodes(), next_id@);
            }
            return match self.find_node(next_id) {
                Some(i) => Ok(i),
                None => {
                    let mut message = to_owned_string("Explicit target node not found: ");
                    push_str(&mut message, next_id);
                    Err(GraphError::from_parts(current_id, message))
                },
            };
        }
        if current >= n {
            proof {
                lemma_outgoing_of_missing(self.edges(), current as nat, n as nat);
            }
            let mut message = to_owned_string("No outgoing edges from node: ");
            push_str(&mut message, current_id.as_str());
            return Err(GraphError::from_parts(current_id, message));
        }
        let edges_with_targets = flow_graph_outgoing(&self.graph, current);
        let ghost out = outgoing(self.edges(), current as nat);
        proof {
            lemma_outgoing_targets(self.edges(), current as nat, n as nat);
        }
        if edges_with_targets.len() == 0 {
            let mut message = to_owned_string("No outgoing edges from node: ");
            push_str(&mut message, current_id.as_str());
            return Err(GraphError::from_parts(current_id, message));
        }
        assert(out.skip(0) =~= out);
        if let Some(cond) = condition {
            let mut k: usize = 0;
            while k < edges_with_targets.len()
                invariant
                    out == outgoing(self.edges(), current as nat),
                    edges_with_targets@.len() == out.len(),
                    forall|j: int|
                        0 <= j < edges_with_targets@.len() ==> (
                        #[trigger] edges_with_targets@[j]).0 as nat == out[j].0 && condition_view(
                            edges_with_targets@[j].1,
                        ) == out[j].1,
                    0 <= k <= out.len(),
                    first_with(out, Some(cond@)) == first_with(out.skip(k as int), Some(cond@)),
                    n == self.nodes().len(),
                    condition == Some(cond),
                    explicit is None,
                    out.len() > 0,
                    forall|j: int| 0 <= j < out.len() ==> (#[trigger] out[j]).0 < n,
                decreases edges_with_targets.len() - k,
            {
                assert(out.skip(k as int).drop_first() =~= out.skip(k + 1));
                let (target, weight) = &edges_with_targets[k];
                if let EdgeCondition::OnCondition(expected) = weight {
                    if str_eq(expected.as_str(), cond) {
                        assert(out.skip(k as int)[0] == out[k as int]);
                        assert(out[k as int].0 < n);
                        return Ok(*target);
                    }
                }
                k = k + 1;
            }
            assert(out.skip(k as int) =~= Seq::<(nat, Option<Seq<char>>)>::empty());
            assert(first_with(out, Some(cond@)) is None);
        }
        let mut k: usize = 0;
        while k < edges_with_targets.len()
            invariant
                out == outgoing(self.edges(), current as nat),
                edges_with_targets@.len() == out.len(),
                forall|j: int|
                    0 <= j < edges_with_targets@.len() ==> (
                    #[trigger] edges_with_targets@[j]).0 as nat == out[j].0 && condition_view(
                        edges_with_targets@[j].1,
                    ) == out[j].1,
                0 <= k <= out.len(),
                first_with(out, None) == first_with(out.skip(k as int), None),
                n == self.nodes().len(),
                out.len() > 0,
                explicit is None,
                match condition {
                    Some(c) => first_with(out, Some(c@)) is None,
                    None => true,
                },
                forall|j: int| 0 <= j < out.len() ==> (#[trigger] out[j]).0 < n,
            decreases edges_with_targets.len() - k,
        {
            assert(out.skip(k as int).drop_first() =~= out.skip(k + 1));
            let (target, weight) = &edges_with_targets[k];
            if let EdgeCondition::Always = weight {
                assert(out.skip(k as int)[0] == out[k as int]);
                assert(out[k as int].0 < n);
                return Ok(*target);
            }
            k = k + 1;
        }
        assert(out.skip(k as int) =~= Seq::<(nat, Option<Seq<char>>)>::empty());
        assert(first_with(out, None) is None);
        let shown = match condition {
            Some(c) => debug_str(c),
            None => {
                proof {
                    reveal_strlit("(none)");
                }
                debug_str("(none)")
            },
        };
        let mut message = to_owned_string("No matching edge for condition: ");
        push_str(&mut message, shown.as_str());
        Err(GraphError::from_parts(current_id, message))
    }

    /// Starts a run: the index of the entry node, which executes as step 0.
    pub fn run_start(&self) -> (r: Result<usize, GraphError>)
        requires
            self.wf(),
        ensures
            agrees(r, start_outcome(self.nodes(), self.entry(), self.step_limit())),
            r matches Ok(i) ==> i < self.nodes().len(),
    {
        if self.entry_node_id.as_str().unicode_len() == 0 {
            return Err(GraphError::new("runtime", "No entry node set"));
        }
        proof {
            lemma_lookup_bounds(self.nodes(), self.entry());
        }
        let idx = match self.find_node(self.entry_node_id.as_str()) {
            Some(i) => i,
            None => {
                let mut message = to_owned_string("Entry node not found: ");
                push_str(&mut message, self.entry_node_id.as_str());
                return Err(GraphError::from_parts(to_owned_string("runtime"), message));
            },
        };
        if self.max_steps == 0 {
            return Err(GraphError::from_parts(to_owned_string("runtime"), self.max_steps_message()));
        }
        Ok(idx)
    }

    /// After node `current` ran as step `step` and returned `output`: the
    /// next action, or the error that ends the run.
    pub fn run_advance(&self, current: usize, step: usize, output: NodeOutput) -> (r: Result<
        RunAction,
        GraphError,
    >)
        requires
            self.wf(),
        ensures
            advance_agrees(
                r,
                advance_outcome(
                    self.nodes(),
                    self.edges(),
                    self.step_limit(),
                    current as nat,
                    step as nat,
                    output,
                ),
            ),
            r matches Ok(RunAction::Execute(i)) ==> i < self.nodes().len() && step + 1
                < self.step_limit(),
    {
        let n = flow_graph_node_count(&self.graph);
        if current >= n {
            return Err(GraphError::new("runtime", "Node not found in graph"));
        }
        let next = match output {
            NodeOutput::Final => {
                return Ok(RunAction::Finished);
            },
            NodeOutput::Error(msg) => {
                let node_id = flow_graph_node_id(&self.graph, current).clone();
                return Err(GraphError::from_parts(node_id, msg));
            },
            NodeOutput::Continue(explicit_next) => {
                let explicit = match &explicit_next {
                    Some(s) => Some(s.as_str()),
                    None => None,
                };
                self.resolve_next_node(current, None, explicit)
            },
            NodeOutput::Branch(condition) => self.resolve_next_node(
                current,
                Some(condition.as_str()),
                None,
            ),
        };
        let next = match next {
            Ok(i) => i,
            Err(e) => {
                return Err(e);
            },
        };
        if self.max_steps == 0 || step >= self.max_steps - 1 {
            return Err(GraphError::from_parts(to_owned_string("runtime"), self.max_steps_message()));
        }
        Ok(RunAction::Execute(next))
    }

    fn max_steps_message(&self) -> (s: String)
        ensures
            s@ == max_steps_message(self.step_limit()),
    {
        let mut s = to_owned_string("Maximum steps (");
        push_decimal(&mut s, self.max_steps);
        push_str(&mut s, ") exceeded");
        s
    }
}

impl Default for GraphRuntime {
    /// Same as `GraphRuntime::new`.
    fn default() -> (r: GraphRuntime)
        ensures
            r.wf(),
            r.nodes().len() == 0,
            r.edges().len() == 0,
            r.entry().len() == 0,
            r.step_limit() == 50,
    {
        GraphRuntime::new()
    }
}

/// A pending edge as plain values: source id, target id, condition.
pub open spec fn pending_view(e: (String, String, EdgeCondition)) -> (
    Seq<char>,
    Seq<char>,
    Option<Seq<char>>,
) {
    (e.0@, e.1@, condition_view(e.2))
}

/// Outcome of adding the pending edges in order: the edges of the built
/// graph, or the error of the first edge with a missing endpoint.
pub open spec fn build_outcome(
    nodes: Seq<Seq<char>>,
    pending: Seq<(Seq<char>, Seq<char>, Option<Seq<char>>)>,
) -> Result<Seq<(nat, nat, Option<Seq<char>>)>, (Seq<char>, Seq<char>)>
    decreases pending.len(),
{
    if pending.len() == 0 {
        Ok(seq![])
    } else {
        match build_outcome(nodes, pending.drop_last()) {
            Err(e) => Err(e),
            Ok(es) => {
                let (from, to, c) = pending.last();
                match (lookup(nodes, from), lookup(nodes, to)) {
                    (Some(a), Some(b)) => Ok(es.push((a, b, c))),
                    (None, _) => Err((from, "Source node not found: "@ + from)),
                    (Some(_), None) => Err((to, "Target node not found: "@ + to)),
                }
            },
        }
    }
}

/// Builder for constructing graphs fluently; edges are checked when the
/// graph is built.
pub struct GraphBuilder {
    runtime: GraphRuntime,
    pending_edges: Vec<(String, String, EdgeCondition)>,
}

impl GraphBuilder {
    /// Node ids added so far.
    pub closed spec fn nodes(&self) -> Seq<Seq<char>> {
        self.runtime.nodes()
    }

    /// Entry node id.
    pub closed spec fn entry_id(&self) -> Seq<char> {
        self.runtime.entry()
    }

    /// Step limit.
    pub closed spec fn step_limit(&self) -> nat {
        self.runtime.step_limit()
    }

    /// Edges waiting for `build`, in the order they were given.
    pub closed spec fn pending(&self) -> Seq<(Seq<char>, Seq<char>, Option<Seq<char>>)> {
        self.pending_edges@.map_values(|e: (String, String, EdgeCondition)| pending_view(e))
    }

    /// The runtime under construction has no edges and is well formed.
    pub closed spec fn wf(&self) -> bool {
        self.runtime.wf() && self.runtime.edges().len() == 0
    }

    /// An empty builder over `GraphRuntime::new()`.
    pub fn new() -> (b: GraphBuilder)
        ensures
            b.wf(),
            b.nodes().len() == 0,
            b.entry_id().len() == 0,
            b.step_limit() == 50,
            b.pending().len() == 0,
    {
        let b = GraphBuilder { runtime: GraphRuntime::new(), pending_edges: Vec::new() };
        assert(b.pending() =~= Seq::<(Seq<char>, Seq<char>, Option<Seq<char>>)>::empty());
        b
    }

    /// Sets the entry node id.
    pub fn entry(self, node_id: &str) -> (b: GraphBuilder)
        requires
            self.wf(),
        ensures
            b.wf(),
            b.nodes() == self.nodes(),
            b.entry_id() == node_id@,
            b.step_limit() == self.step_limit(),
            b.pending() == self.pending(),
    {
        GraphBuilder {
            runtime: self.runtime.with_entry(node_id),
            pending_edges: self.pending_edges,
        }
    }

    /// Sets the step limit.
    pub fn max_steps(self, max_steps: usize) -> (b: GraphBuilder)
        requires
            self.wf(),
        ensures
            b.wf(),
            b.nodes() == self.nodes(),
            b.entry_id() == self.entry_id(),
            b.step_limit() == max_steps,
            b.pending() == self.pending(),
    {
        GraphBuilder {
            runtime: self.runtime.with_max_steps(max_steps),
            pending_edges: self.pending_edges,
        }
    }

    /// Adds a node with id `node_id`.
    pub fn node(self, node_id: &str) -> (b: GraphBuilder)
        requires
            self.wf(),
            self.nodes().len() < u32::MAX,
        ensures
            b.wf(),
            b.nodes() == self.nodes().push(node_id@),
            b.entry_id() == self.entry_id(),
            b.step_limit() == self.step_limit(),
            b.pending() == self.pending(),
    {
        let mut b = self;
        b.runtime.add_node(node_id);
        b
    }

    /// Queues a default edge.
    pub fn edge(self, from: &str, to: &str) -> (b: GraphBuilder)
        requires
            self.wf(),
        ensures
            b.wf(),
            b.nodes() == self.nodes(),
            b.entry_id() == self.entry_id(),
            b.step_limit() == self.step_limit(),
            b.pending() == self.pending().push((from@, to@, None)),
    {
        let mut b = self;
        let ghost before = b.pending_edges@;
        b.pending_edges.push((to_owned_string(from), to_owned_string(to), EdgeCondition::Always));
        proof {
            assert(b.pending_edges@.map_values(|e: (String, String, EdgeCondition)| pending_view(e))
                =~= before.map_values(|e: (String, String, EdgeCondition)| pending_view(e)).push(
                (from@, to@, None),
            ));
        }
        b
    }

    /// Queues an edge taken on `condition`.
    pub fn conditional_edge(self, from: &str, to: &str, condition: &str) -> (b: GraphBuilder)
        requires
            self.wf(),
        ensures
            b.wf(),
            b.nodes() == self.nodes(),
            b.entry_id() == self.entry_id(),
            b.step_limit() == self.step_limit(),
            b.pending() == self.pending().push((from@, to@, Some(condition@))),
    {
        let mut b = self;
        let ghost before = b.pending_edges@;
        b.pending_edges.push(
            (to_owned_string(from), to_owned_string(to), EdgeCondition::on(condition)),
        );
        proof {
            assert(b.pending_edges@.map_values(|e: (String, String, EdgeCondition)| pending_view(e))
                =~= before.map_values(|e: (String, String, EdgeCondition)| pending_view(e)).push(
                (from@, to@, Some(condition@)),
            ));
        }
        b
    }

    /// Adds the queued edges in order and returns the runtime, or the error
    /// of the first edge whose source or target is not a node.
    pub fn build(self) -> (r: Result<GraphRuntime, GraphError>)
        requires
            self.wf(),
            self.pending().len() < u32::MAX,
        ensures
            match build_outcome(self.nodes(), self.pending()) {
                Ok(es) => r matches Ok(rt) && rt.wf() && rt.nodes() == self.nodes() && rt.edges()
                    == es && rt.entry() == self.entry_id() && rt.step_limit() == self.step_limit(),
                Err(p) => r matches Err(e) && is_error(e, p.0, p.1),
            },
    {
        let GraphBuilder { mut runtime, pending_edges } = self;
        let ghost pending = pending_edges@.map_values(
            |e: (String, String, EdgeCondition)| pending_view(e),
        );
        let ghost nodes = runtime.nodes();
        let mut i: usize = 0;
        assert(pending.take(0) =~= Seq::<(Seq<char>, Seq<char>, Option<Seq<char>>)>::empty());
        assert(runtime.edges() =~= Seq::<(nat, nat, Option<Seq<char>>)>::empty());
        while i < pending_edges.len()
            invariant
                pending == pending_edges@.map_values(
                    |e: (String, String, EdgeCondition)| pending_view(e),
                ),
                pending.len() < u32::MAX,
                0 <= i <= pending.len(),
                runtime.wf(),
                runtime.nodes() == nodes,
                self.nodes() == nodes,
                self.pending() == pending,
                runtime.entry() == self.entry_id(),
                runtime.step_limit() == self.step_limit(),
                build_outcome(nodes, pending.take(i as int)) == Ok::<
                    Seq<(nat, nat, Option<Seq<char>>)>,
                    (Seq<char>, Seq<char>),
                >(runtime.edges()),
                runtime.edges().len() == i,
            decreases pending_edges.len() - i,
        {
            assert(pending.take(i + 1).drop_last() =~= pending.take(i as int));
            assert(pending.take(i + 1).last() == pending[i as int]);
            let (from, to, condition) = &pending_edges[i];
            assert(pending[i as int] == pending_view(pending_edges@[i as int]));
            let result = runtime.add_conditional_edge(
                from.as_str(),
                to.as_str(),
                condition.duplicate(),
            );
            match result {
                Ok(()) => {},
                Err(e) => {
                    proof {
                        let (f, t, c) = pending[i as int];
                        assert(f == from@ && t == to@);
                        let prev = build_outcome(nodes, pending.take(i as int));
                        assert(prev is Ok);
                        match (lookup(nodes, f), lookup(nodes, t)) {
                            (None, _) => {
                                assert(build_outcome(nodes, pending.take(i + 1)) == Err::<
                                    Seq<(nat, nat, Option<Seq<char>>)>,
                                    (Seq<char>, Seq<char>),
                                >((f, "Source node not found: "@ + f)));
                            },
                            (Some(_), None) => {
                                assert(build_outcome(nodes, pending.take(i + 1)) == Err::<
                                    Seq<(nat, nat, Option<Seq<char>>)>,
                                    (Seq<char>, Seq<char>),
                                >((t, "Target node not found: "@ + t)));
                            },
                            (Some(_), Some(_)) => {
                                assert(false);
                            },
                        }
                        lemma_build_outcome_err(nodes, pending, i as int);
                    }
                    return Err(e);
                },
            }
            i = i + 1;
        }
        assert(pending.take(pending.len() as int) =~= pending);
        Ok(runtime)
    }
}

/// An error at an edge is the error of the whole build.
proof fn lemma_build_outcome_err(
    nodes: Seq<Seq<char>>,
    pending: Seq<(Seq<char>, Seq<char>, Option<Seq<char>>)>,
    i: int,
)
    requires
        0 <= i < pending.len(),
        build_outcome(nodes, pending.take(i)) is Ok,
        build_outcome(nodes, pending.take(i + 1)) is Err,
    ensures
        build_outcome(nodes, pending) == build_outcome(nodes, pending.take(i + 1)),
    decreases pending.len() - i,
{
    if i + 1 == pending.len() {
        assert(pending.take(i + 1) =~= pending);
    } else {
        lemma_build_outcome_err_extend(nodes, pending, i + 1);
    }
}

proof fn lemma_build_outcome_err_extend(
    nodes: Seq<Seq<char>>,
    pending: Seq<(Seq<char>, Seq<char>, Option<Seq<char>>)>,
    j: int,
)
    requires
        0 <= j <= pending.len(),
        build_outcome(nodes, pending.take(j)) is Err,
    ensures
        build_outcome(nodes, pending) == build_outcome(nodes, pending.take(j)),
    decreases pending.len() - j,
{
    if j == pending.len() {
        assert(pending.take(j) =~= pending);
    } else {
        assert(pending.take(j + 1).drop_last() =~= pending.take(j));
        lemma_build_outcome_err_extend(nodes, pending, j + 1);
    }
}

impl Default for GraphBuilder {
    /// Same as `GraphBuilder::new`.
    fn default() -> (b: GraphBuilder)
        ensures
            b.wf(),
            b.nodes().len() == 0,
            b.entry_id().len() == 0,
            b.step_limit() == 50,
            b.pending().len() == 0,
    {
        GraphBuilder::new()
    }
}

/// The edge was added iff both endpoints exist; the error names the missing
/// endpoint, source first.
pub open spec fn edge_added(
    before: GraphRuntime,
    after: GraphRuntime,
    from: Seq<char>,
    to: Seq<char>,
    condition: Option<Seq<char>>,
    r: Result<(), GraphError>,
) -> bool {
    &&& after.nodes() == before.nodes()
    &&& after.entry() == before.entry()
    &&& after.step_limit() == before.step_limit()
    &&& match (lookup(before.nodes(), from), lookup(before.nodes(), to)) {
        (Some(a), Some(b)) => r is Ok && after.edges() == before.edges().push((a, b, condition)),
        (None, _) => after.edges() == before.edges() && (r matches Err(e) && is_error(
            e,
            from,
            "Source node not found: "@ + from,
        )),
        (Some(_), None) => after.edges() == before.edges() && (r matches Err(e) && is_error(
            e,
            to,
            "Target node not found: "@ + to,
        )),
    }
}

/// Outcome of starting a run.
pub open spec fn start_outcome(nodes: Seq<Seq<char>>, entry: Seq<char>, max_steps: nat) -> Result<
    nat,
    (Seq<char>, Seq<char>),
> {
    if entry.len() == 0 {
        Err(("runtime"@, "No entry node set"@))
    } else {
        match lookup(nodes, entry) {
            None => Err(("runtime"@, "Entry node not found: "@ + entry)),
            Some(i) => if max_steps == 0 {
                Err(("runtime"@, max_steps_message(0)))
            } else {
                Ok(i)
            },
        }
    }
}

/// Outcome of one step: `None` when the graph finished, `Some(i)` to run
/// node `i` next, or an error.
pub open spec fn advance_outcome(
    nodes: Seq<Seq<char>>,
    edges: Seq<(nat, nat, Option<Seq<char>>)>,
    max_steps: nat,
    current: nat,
    step: nat,
    output: NodeOutput,
) -> Result<Option<nat>, (Seq<char>, Seq<char>)> {
    if current >= nodes.len() {
        Err(("runtime"@, "Node not found in graph"@))
    } else {
        let next = match output {
            NodeOutput::Final => Ok(None),
            NodeOutput::Error(msg) => Err((nodes[current as int], msg@)),
            NodeOutput::Continue(explicit) => match route(
                nodes,
                edges,
                current,
                None,
                match explicit {
                    Some(s) => Some(s@),
                    None => None,
                },
            ) {
                Ok(i) => Ok(Some(i)),
                Err(p) => Err(p),
            },
            NodeOutput::Branch(c) => match route(nodes, edges, current, Some(c@), None) {
                Ok(i) => Ok(Some(i)),
                Err(p) => Err(p),
            },
        };
        match next {
            Ok(Some(i)) => if step + 1 >= max_steps {
                Err(("runtime"@, max_steps_message(max_steps)))
            } else {
                Ok(Some(i))
            },
            other => other,
        }
    }
}

/// The result corresponds to the outcome of a step.
pub open spec fn advance_agrees(
    r: Result<RunAction, GraphError>,
    o: Result<Option<nat>, (Seq<char>, Seq<char>)>,
) -> bool {
    match (r, o) {
        (Ok(RunAction::Finished), Ok(None)) => true,
        (Ok(RunAction::Execute(i)), Ok(Some(j))) => i as nat == j,
        (Err(e), Err(p)) => is_error(e, p.0, p.1),
        _ => false,
    }
}

/// The set of a sequence with one more element.
pub proof fn lemma_push_to_set<A>(s: Seq<A>, v: A)
    ensures
        s.push(v).to_set() == s.to_set().insert(v),
{
    assert forall|x: A| s.push(v).to_set().contains(x) <==> s.to_set().insert(v).contains(x) by {
        if s.push(v).contains(x) {
            let i = choose|i: int| 0 <= i < s.push(v).len() && s.push(v)[i] == x;
            if i < s.len() {
                assert(s[i] == x);
            }
        }
        if s.contains(x) {
            let i = choose|i: int| 0 <= i < s.len() && s[i] == x;
            assert(s.push(v)[i] == x);
        }
        if x == v {
            assert(s.push(v)[s.len() as int] == v);
        }
    }
    assert(s.push(v).to_set() =~= s.to_set().insert(v));
}

/// Outgoing edges of a node index past the last node: none.
proof fn lemma_outgoing_of_missing(edges: Seq<(nat, nat, Option<Seq<char>>)>, i: nat, n: nat)
    requires
        i >= n,
        forall|k: int| 0 <= k < edges.len() ==> (#[trigger] edges[k]).0 < n,
    ensures
        outgoing(edges, i).len() == 0,
    decreases edges.len(),
{
    if edges.len() > 0 {
        assert forall|k: int| 0 <= k < edges.drop_last().len() implies (
        #[trigger] edges.drop_last()[k]).0 < n by {
            assert(edges.drop_last()[k] == edges[k]);
        }
        lemma_outgoing_of_missing(edges.drop_last(), i, n);
        assert(edges.last() == edges[edges.len() - 1]);
    }
}

/// Targets of outgoing edges are node indices.
proof fn lemma_outgoing_targets(edges: Seq<(nat, nat, Option<Seq<char>>)>, i: nat, n: nat)
    requires
        forall|k: int| 0 <= k < edges.len() ==> (#[trigger] edges[k]).1 < n,
    ensures
        forall|k: int| 0 <= k < outgoing(edges, i).len() ==> (#[trigger] outgoing(edges, i)[k]).0
            < n,
    decreases edges.len(),
{
    if edges.len() > 0 {
        assert forall|k: int| 0 <= k < edges.drop_last().len() implies (
        #[trigger] edges.drop_last()[k]).1 < n by {
            assert(edges.drop_last()[k] == edges[k]);
        }
        lemma_outgoing_targets(edges.drop_last(), i, n);
        let e = edges.last();
        assert(e == edges[edges.len() - 1]);
        let rest = outgoing(edges.drop_last(), i);
        if e.0 == i {
            assert forall|k: int| 0 <= k < outgoing(edges, i).len() implies (#[trigger] outgoing(
                edges,
                i,
            )[k]).0 < n by {
                if k > 0 {
                    assert(outgoing(edges, i)[k] == rest[k - 1]);
                }
            }
        }
    }
}

/// Every value in `out` below `n` makes `first_with` return a node below `n`.
pub proof fn lemma_first_with_bound(out: Seq<(nat, Option<Seq<char>>)>, c: Option<Seq<char>>, n: nat)
    requires
        forall|k: int| 0 <= k < out.len() ==> (#[trigger] out[k]).0 < n,
    ensures
        first_with(out, c) matches Some(t) ==> t < n,
    decreases out.len(),
{
    if out.len() > 0 && out[0].1 != c {
        assert forall|k: int| 0 <= k < out.drop_first().len() implies (
        #[trigger] out.drop_first()[k]).0 < n by {
            assert(out.drop_first()[k] == out[k + 1]);
        }
        lemma_first_with_bound(out.drop_first(), c, n);
    }
}

/// Edge `k` leaves `current` with condition `c`, and no later edge does:
/// it is the most recent such edge (petgraph lists a node's outgoing edges
/// most recent first).
pub open spec fn last_edge_with(
    edges: Seq<(nat, nat, Option<Seq<char>>)>,
    current: nat,
    c: Option<Seq<char>>,
    k: int,
) -> bool {
    &&& 0 <= k < edges.len()
    &&& edges[k].0 == current
    &&& edges[k].2 == c
    &&& forall|j: int| k < j < edges.len() ==> !(#[trigger] edges[j].0 == current && edges[j].2 == c)
}

/// In the outgoing list of `current`, the first edge with condition `c` is
/// the most recently added edge from `current` with that condition, and
/// there is none when no edge from `current` carries it.
proof fn lemma_first_with_outgoing(edges: Seq<(nat, nat, Option<Seq<char>>)>, current: nat, c: Option<Seq<char>>)
    ensures
        (forall|k: int| 0 <= k < edges.len() ==> !(#[trigger] edges[k].0 == current && edges[k].2 == c))
            ==> first_with(outgoing(edges, current), c) is None,
        forall|k: int|
            #[trigger] last_edge_with(edges, current, c, k) ==> first_with(outgoing(edges, current), c)
                == Some(edges[k].1),
    decreases edges.len(),
{
    if edges.len() > 0 {
        let rest = edges.drop_last();
        let e = edges.last();
        lemma_first_with_outgoing(rest, current, c);
        let n = edges.len() - 1;
        assert forall|k: int| 0 <= k < rest.len() implies #[trigger] rest[k] == edges[k] by {}
        if e.0 == current {
            let out = outgoing(edges, current);
            assert(out.drop_first() =~= outgoing(rest, current));
        }
        assert forall|k: int| #[trigger] last_edge_with(edges, current, c, k) implies first_with(
            outgoing(edges, current),
            c,
        ) == Some(edges[k].1) by {
            if k < n {
                assert(!(edges[n].0 == current && edges[n].2 == c));
                assert(last_edge_with(rest, current, c, k)) by {
                    assert forall|j: int| k < j < rest.len() implies !(#[trigger] rest[j].0 == current
                        && rest[j].2 == c) by {
                        assert(rest[j] == edges[j]);
                    }
                }
            }
        }
        if forall|k: int| 0 <= k < edges.len() ==> !(#[trigger] edges[k].0 == current && edges[k].2 == c) {
            assert forall|k: int| 0 <= k < rest.len() implies !(#[trigger] rest[k].0 == current
                && rest[k].2 == c) by {
                assert(rest[k] == edges[k]);
            }
        }
    }
}

/// Routing on a condition takes the edge labelled with it: when some edge
/// from `current` carries condition `c`, the next node is the target of the
/// most recent such edge, whatever default edges there are.
pub proof fn lemma_condition_edge_wins(
    nodes: Seq<Seq<char>>,
    edges: Seq<(nat, nat, Option<Seq<char>>)>,
    current: nat,
    c: Seq<char>,
    k: int,
)
    requires
        last_edge_with(edges, current, Some(c), k),
    ensures
        route(nodes, edges, current, Some(c), None) == Ok::<nat, (Seq<char>, Seq<char>)>(edges[k].1),
{
    lemma_first_with_outgoing(edges, current, Some(c));
    assert(first_with(outgoing(edges, current), Some(c)) == Some(edges[k].1));
}

/// The default edge is only a fallback: when no edge from `current` carries
/// the condition (or there is none), the next node is the target of the
/// most recent default edge from `current`.
pub proof fn lemma_default_edge_is_fallback(
    nodes: Seq<Seq<char>>,
    edges: Seq<(nat, nat, Option<Seq<char>>)>,
    current: nat,
    condition: Option<Seq<char>>,
    k: int,
)
    requires
        condition matches Some(c) ==> forall|j: int|
            0 <= j < edges.len() ==> !(#[trigger] edges[j].0 == current && edges[j].2 == Some(c)),
        last_edge_with(edges, current, None, k),
    ensures
        route(nodes, edges, current, condition, None) == Ok::<nat, (Seq<char>, Seq<char>)>(edges[k].1),
{
    lemma_first_with_outgoing(edges, current, None);
    if let Some(c) = condition {
        lemma_first_with_outgoing(edges, current, Some(c));
    }
    assert(first_with(outgoing(edges, current), None) == Some(edges[k].1));
}

/// A route on a condition that no edge from `current` carries, where no
/// default edge leaves `current` either, is an error.
pub proof fn lemma_no_matching_edge(
    nodes: Seq<Seq<char>>,
    edges: Seq<(nat, nat, Option<Seq<char>>)>,
    current: nat,
    condition: Option<Seq<char>>,
)
    requires
        condition matches Some(c) ==> forall|j: int|
            0 <= j < edges.len() ==> !(#[trigger] edges[j].0 == current && edges[j].2 == Some(c)),
        forall|j: int| 0 <= j < edges.len() ==> !(#[trigger] edges[j].0 == current && edges[j].2 == None::<Seq<char>>),
    ensures
        route(nodes, edges, current, condition, None) is Err,
{
    lemma_first_with_outgoing(edges, current, None);
    if let Some(c) = condition {
        lemma_first_with_outgoing(edges, current, Some(c));
    }
}

/// An explicit target overrides the edges: the next node is a node with
/// that id whenever one exists, and routing fails exactly when none does.
pub proof fn lemma_explicit_target_wins(
    nodes: Seq<Seq<char>>,
    edges: Seq<(nat, nat, Option<Seq<char>>)>,
    current: nat,
    condition: Option<Seq<char>>,
    target: Seq<char>,
)
    ensures
        route(nodes, edges, current, condition, Some(target)) matches Ok(i) ==> i < nodes.len()
            && nodes[i as int] == target,
        route(nodes, edges, current, condition, Some(target)) is Err <==> forall|j: int|
            0 <= j < nodes.len() ==> nodes[j] != target,
{
    lemma_lookup_bounds(nodes, target);
}

/// A target found in the outgoing list is the target of an edge from
/// `current` with that condition.
proof fn lemma_first_with_is_an_edge(
    edges: Seq<(nat, nat, Option<Seq<char>>)>,
    current: nat,
    c: Option<Seq<char>>,
)
    ensures
        first_with(outgoing(edges, current), c) matches Some(t) ==> exists|k: int|
            0 <= k < edges.len() && #[trigger] edges[k].0 == current && edges[k].2 == c && edges[k].1
                == t,
    decreases edges.len(),
{
    if edges.len() > 0 {
        let rest = edges.drop_last();
        let e = edges.last();
        lemma_first_with_is_an_edge(rest, current, c);
        if e.0 == current {
            assert(outgoing(edges, current).drop_first() =~= outgoing(rest, current));
        }
        if first_with(outgoing(edges, current), c) is Some {
            let t = first_with(outgoing(edges, current), c)->0;
            if e.0 == current && e.2 == c {
                assert(edges[edges.len() - 1].0 == current);
            } else {
                let k = choose|k: int|
                    0 <= k < rest.len() && #[trigger] rest[k].0 == current && rest[k].2 == c
                        && rest[k].1 == t;
                assert(edges[k] == rest[k]);
            }
        }
    }
}

/// Without an explicit target, the next node is always the target of an
/// edge leaving `current`, labelled with the condition or a default edge.
pub proof fn lemma_route_follows_an_edge(
    nodes: Seq<Seq<char>>,
    edges: Seq<(nat, nat, Option<Seq<char>>)>,
    current: nat,
    condition: Option<Seq<char>>,
)
    ensures
        route(nodes, edges, current, condition, None) matches Ok(t) ==> exists|k: int|
            0 <= k < edges.len() && #[trigger] edges[k].0 == current && edges[k].1 == t && (
            edges[k].2 is None || edges[k].2 == condition),
{
    lemma_first_with_is_an_edge(edges, current, None);
    if let Some(c) = condition {
        lemma_first_with_is_an_edge(edges, current, Some(c));
    }
}

} // verus!
