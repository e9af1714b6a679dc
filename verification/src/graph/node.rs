//! Node outputs and graph errors.

use vstd::prelude::*;

use crate::text::{push_str, to_owned_string};

verus! {

broadcast use vstd::string::group_string_axioms;

/// Output from a node execution.
#[derive(Debug, Clone)]
pub enum NodeOutput {
    /// Continue to the given next node (`None` = follow the default edge).
    Continue(Option<String>),
    /// Branch along the edge labelled with this condition.
    Branch(String),
    /// Graph execution is complete.
    Final,
    /// The node failed with this message.
    Error(String),
}

/// Graph execution error.
///
/// `execution_trace` records node ids visited before the error, most recent
/// last.
#[derive(Debug, Clone)]
pub struct GraphError {
    pub node_id: String,
    pub message: String,
    pub execution_trace: Vec<String>,
}

/// The pieces joined with `sep` between consecutive pieces.
pub open spec fn joined(parts: Seq<Seq<char>>, sep: Seq<char>) -> Seq<char>
    decreases parts.len(),
{
    if parts.len() == 0 {
        seq![]
    } else if parts.len() == 1 {
        parts[0]
    } else {
        joined(parts.drop_last(), sep) + sep + parts.last()
    }
}

/// The views of a list of strings.
pub open spec fn string_views(v: Seq<String>) -> Seq<Seq<char>> {
    v.map_values(|s: String| s@)
}

/// The text of an error as the program's error type renders it: the node id,
/// the trace joined with `" -> "` when there is one, and the message.
pub open spec fn error_text(prefix: Seq<char>, e: GraphError) -> Seq<char> {
    if e.execution_trace@.len() == 0 {
        prefix + e.node_id@ + ": "@ + e.message@
    } else {
        prefix + e.node_id@ + " (trace: "@ + joined(string_views(e.execution_trace@), " -> "@)
            + "): "@ + e.message@
    }
}

/// Joins strings with a separator.
pub fn join_strings(parts: &Vec<String>, sep: &str) -> (out: String)
    ensures
        out@ == joined(string_views(parts@), sep@),
{
    let mut out = String::new();
    let mut i: usize = 0;
    while i < parts.len()
        invariant
            0 <= i <= parts@.len(),
            out@ == joined(string_views(parts@.take(i as int)), sep@),
        decreases parts.len() - i,
    {
        let ghost before = string_views(parts@.take(i as int));
        if i > 0 {
            push_str(&mut out, sep);
        }
        push_str(&mut out, parts[i].as_str());
        proof {
            let after = string_views(parts@.take(i + 1));
            assert(after.drop_last() =~= before);
            assert(after.last() == parts@[i as int]@);
            if i == 0 {
                assert(after.len() == 1);
                assert(out@ =~= after[0]);
            }
        }
        i = i + 1;
    }
    assert(parts@.take(parts@.len() as int) =~= parts@);
    out
}

impl GraphError {
    /// A new error for `node_id` with an empty trace.
    pub fn new(node_id: &str, message: &str) -> (e: GraphError)
        ensures
            e.node_id@ == node_id@,
            e.message@ == message@,
            e.execution_trace@.len() == 0,
    {
        GraphError {
            node_id: to_owned_string(node_id),
            message: to_owned_string(message),
            execution_trace: Vec::new(),
        }
    }

    /// The error from owned strings.
    pub fn from_parts(node_id: String, message: String) -> (e: GraphError)
        ensures
            e.node_id == node_id,
            e.message == message,
            e.execution_trace@.len() == 0,
    {
        GraphError { node_id, message, execution_trace: Vec::new() }
    }

    /// The error with `node_id` appended to its execution trace.
    pub fn with_trace_entry(self, node_id: &str) -> (e: GraphError)
        ensures
            e.node_id == self.node_id,
            e.message == self.message,
            string_views(e.execution_trace@) == string_views(self.execution_trace@).push(
                node_id@,
            ),
    {
        let mut e = self;
        let ghost before = e.execution_trace@;
        e.execution_trace.push(to_owned_string(node_id));
        proof {
            assert(string_views(e.execution_trace@) =~= string_views(before).push(node_id@));
        }
        e
    }

    /// Display text: `"GraphError in <node>: <message>"`, with the trace
    /// between the node and the message when there is one.
    pub fn to_display_string(&self) -> (s: String)
        ensures
            s@ == error_text("GraphError in "@, *self),
    {
        self.render("GraphError in ")
    }

    /// The message the program's API error carries for this error:
    /// `"Graph error in <node>: <message>"`, with the trace when there is one.
    pub fn api_message(&self) -> (s: String)
        ensures
            s@ == error_text("Graph error in "@, *self),
    {
        self.render("Graph error in ")
    }

    fn render(&self, prefix: &str) -> (s: String)
        ensures
            s@ == error_text(prefix@, *self),
    {
        let mut s = to_owned_string(prefix);
        push_str(&mut s, self.node_id.as_str());
        if self.execution_trace.len() == 0 {
            push_str(&mut s, ": ");
        } else {
            push_str(&mut s, " (trace: ");
            let trace = join_strings(&self.execution_trace, " -> ");
            push_str(&mut s, trace.as_str());
            push_str(&mut s, "): ");
        }
        push_str(&mut s, self.message.as_str());
        proof {
            assert(s@ =~= error_text(prefix@, *self));
        }
        s
    }
}

} // verus!
