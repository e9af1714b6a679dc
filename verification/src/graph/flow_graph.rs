//! The directed graph that stores nodes and routing edges, kept in a
//! `petgraph` graph.
//!
//! Node weights are node ids; edge weights are routing conditions.  The
//! contents of a graph are named by `flow_nodes` and `flow_edges`, and every
//! operation the runtime uses is a wrapper whose contract speaks of them.

use petgraph::graph::{Graph, NodeIndex};
use petgraph::visit::EdgeRef;
use petgraph::{Directed, Direction};
use vstd::prelude::*;

use crate::graph::runtime::EdgeCondition;

verus! {

#[verifier::external_type_specification]
#[verifier::external_body]
#[verifier::reject_recursive_types(N)]
#[verifier::reject_recursive_types(E)]
#[verifier::reject_recursive_types(Ty)]
#[verifier::reject_recursive_types(Ix)]
pub struct ExGraph<N, E, Ty, Ix>(Graph<N, E, Ty, Ix>);

#[verifier::external_type_specification]
#[verifier::external_body]
pub struct ExDirected(Directed);

/// A routing condition as a plain value: `None` for the default edge,
/// `Some(label)` for an edge taken on that label.
pub open spec fn condition_view(c: EdgeCondition) -> Option<Seq<char>> {
    match c {
        EdgeCondition::Always => None,
        EdgeCondition::OnCondition(s) => Some(s@),
    }
}

/// The node weights of the graph (node ids), by node index.
pub uninterp spec fn flow_nodes(g: Graph<String, EdgeCondition, Directed, u32>) -> Seq<Seq<char>>;

/// The edges of the graph in the order they were added: source index,
/// target index and routing condition.
pub uninterp spec fn flow_edges(g: Graph<String, EdgeCondition, Directed, u32>) -> Seq<
    (nat, nat, Option<Seq<char>>),
>;

/// The edges leaving `i` as (target, condition), most recently added first.
pub open spec fn outgoing(edges: Seq<(nat, nat, Option<Seq<char>>)>, i: nat) -> Seq<
    (nat, Option<Seq<char>>),
>
    decreases edges.len(),
{
    if edges.len() == 0 {
        seq![]
    } else {
        let e = edges.last();
        let rest = outgoing(edges.drop_last(), i);
        if e.0 == i {
            seq![(e.1, e.2)] + rest
        } else {
            rest
        }
    }
}

/// Whether some edge goes from `a` to `b`.
pub open spec fn has_edge(edges: Seq<(nat, nat, Option<Seq<char>>)>, a: nat, b: nat) -> bool {
    exists|k: int| 0 <= k < edges.len() && #[trigger] edges[k].0 == a && edges[k].1 == b
}

/// Whether the directed graph has a cycle: a walk of at least one edge that
/// ends where it starts.
pub open spec fn has_directed_cycle(edges: Seq<(nat, nat, Option<Seq<char>>)>) -> bool {
    exists|walk: Seq<nat>|
        #![trigger walk.len()]
        walk.len() >= 2 && walk[0] == walk.last() && forall|k: int|
            0 <= k < walk.len() - 1 ==> has_edge(edges, #[trigger] walk[k], walk[k + 1])
}

/// An empty graph.
///
/// Calls `Graph::new`, which creates a graph with no nodes and no edges.
#[verifier::external_body]
pub(crate) fn flow_graph_new() -> (g: Graph<String, EdgeCondition, Directed, u32>)
    ensures
        flow_nodes(g) == Seq::<Seq<char>>::empty(),
        flow_edges(g) == Seq::<(nat, nat, Option<Seq<char>>)>::empty(),
{
    Graph::new()
}

/// Adds a node and returns its index.
///
/// Calls `Graph::add_node`, which appends the weight to the node list and
/// returns the index it was stored at; it panics only when the node count
/// has reached `u32::MAX`, which `requires` rules out.
#[verifier::external_body]
pub(crate) fn flow_graph_add_node(g: &mut Graph<String, EdgeCondition, Directed, u32>, id: String) -> (i:
    usize)
    requires
        flow_nodes(*old(g)).len() < u32::MAX,
    ensures
        i == flow_nodes(*old(g)).len(),
        flow_nodes(*final(g)) == flow_nodes(*old(g)).push(id@),
        flow_edges(*final(g)) == flow_edges(*old(g)),
{
    g.add_node(id).index()
}

/// Adds an edge from node `a` to node `b`.
///
/// Calls `Graph::add_edge`, which appends the edge to the edge list; it
/// panics only for an index out of bounds or an edge count of `u32::MAX`,
/// which `requires` rules out.
#[verifier::external_body]
pub(crate) fn flow_graph_add_edge(
    g: &mut Graph<String, EdgeCondition, Directed, u32>,
    a: usize,
    b: usize,
    condition: EdgeCondition,
)
    requires
        a < flow_nodes(*old(g)).len(),
        b < flow_nodes(*old(g)).len(),
        flow_edges(*old(g)).len() < u32::MAX,
    ensures
        flow_nodes(*final(g)) == flow_nodes(*old(g)),
        flow_edges(*final(g)) == flow_edges(*old(g)).push(
            (a as nat, b as nat, condition_view(condition)),
        ),
{
    g.add_edge(NodeIndex::new(a), NodeIndex::new(b), condition);
}

/// The number of nodes.
///
/// Calls `Graph::node_count`, the length of the node list.
#[verifier::external_body]
pub(crate) fn flow_graph_node_count(g: &Graph<String, EdgeCondition, Directed, u32>) -> (n: usize)
    ensures
        n == flow_nodes(*g).len(),
{
    g.node_count()
}

/// The id stored at node `i`.
///
/// Calls `Graph::node_weight`, which returns the weight at that index.
#[verifier::external_body]
pub(crate) fn flow_graph_node_id(g: &Graph<String, EdgeCondition, Directed, u32>, i: usize) -> (id: &String)
    requires
        i < flow_nodes(*g).len(),
    ensures
        id@ == flow_nodes(*g)[i as int],
{
    g.node_weight(NodeIndex::new(i)).unwrap()
}

/// The edges leaving node `i`, as (target index, condition).
///
/// Calls `Graph::edges_directed` with `Direction::Outgoing`, which for a
/// directed graph lists the edges from `i` in reverse order of their
/// addition, most recent first.
#[verifier::external_body]
pub(crate) fn flow_graph_outgoing(g: &Graph<String, EdgeCondition, Directed, u32>, i: usize) -> (out: Vec<
    (usize, EdgeCondition),
>)
    requires
        i < flow_nodes(*g).len(),
    ensures
        out@.len() == outgoing(flow_edges(*g), i as nat).len(),
        forall|k: int|
            0 <= k < out@.len() ==> (#[trigger] out@[k]).0 as nat == outgoing(
                flow_edges(*g),
                i as nat,
            )[k].0 && condition_view(out@[k].1) == outgoing(flow_edges(*g), i as nat)[k].1,
{
    let mut out = Vec::new();
    for edge in g.edges_directed(NodeIndex::new(i), Direction::Outgoing) {
        out.push((edge.target().index(), edge.weight().clone()));
    }
    out
}

/// Whether the graph has a directed cycle.
///
/// Calls `petgraph::algo::is_cyclic_directed`, which reports whether a depth
/// first search meets a back edge, that is whether the graph has a cycle.
#[verifier::external_body]
pub(crate) fn flow_graph_is_cyclic(g: &Graph<String, EdgeCondition, Directed, u32>) -> (r: bool)
    ensures
        r == has_directed_cycle(flow_edges(*g)),
{
    petgraph::algo::is_cyclic_directed(g)
}

} // verus!
