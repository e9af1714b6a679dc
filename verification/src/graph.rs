//! The state-graph engine: nodes, routing edges and the execution rules.

pub mod builder;
pub mod executor;
pub mod flow_graph;
pub mod node;
pub mod nodes;
pub mod runtime;
pub mod search_flow;
pub mod search_support;
pub mod state;
pub mod stream;
pub mod thinking;
