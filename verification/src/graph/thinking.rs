//! The thinking node's plan: whether it thinks at all, whether it makes one
//! reasoning call or several parallel ones followed by a synthesis call, the
//! prompts of those calls, and what it does with what came back.

use vstd::prelude::*;

use crate::graph::node::{joined, string_views, GraphError, NodeOutput};
use crate::text::{decimal, push_decimal, push_str, to_owned_string, trim, trim_str};

verus! {

broadcast use vstd::string::group_string_axioms;

/// The system prompt of every thinking call.
pub open spec fn thinking_system_prompt() -> Seq<char> {
    "You are a reasoning assistant. Before answering, think through the problem step by step.\n\nOutput your thinking process in the following format:\n1. First, understand what is being asked\n2. Consider relevant information and context\n3. Analyze potential approaches\n4. Reason through the best approach\n5. Formulate a clear conclusion\n\nKeep your reasoning concise but thorough. Focus on the key aspects of the question.\nOutput only your thinking process, not the final answer."@
}

/// The system prompt of every thinking call.
pub fn thinking_instruction() -> (s: &'static str)
    ensures
        s@ == thinking_system_prompt(),
{
    "You are a reasoning assistant. Before answering, think through the problem step by step.\n\nOutput your thinking process in the following format:\n1. First, understand what is being asked\n2. Consider relevant information and context\n3. Analyze potential approaches\n4. Reason through the best approach\n5. Formulate a clear conclusion\n\nKeep your reasoning concise but thorough. Focus on the key aspects of the question.\nOutput only your thinking process, not the final answer."
}

/// With no thinking budget the node goes straight on to chat.
pub fn skips_thinking(budget: u8) -> (r: bool)
    ensures
        r == (budget == 0),
{
    budget == 0
}

/// The progress message when thinking starts.
pub fn thinking_activity_message(paths: u8) -> (s: String)
    ensures
        s@ == if paths > 1 {
            "Generating "@ + decimal(paths as nat) + " parallel reasoning paths..."@
        } else {
            "Reasoning step by step..."@
        },
{
    if paths > 1 {
        let mut s = to_owned_string("Generating ");
        push_decimal(&mut s, paths as usize);
        push_str(&mut s, " parallel reasoning paths...");
        s
    } else {
        to_owned_string("Reasoning step by step...")
    }
}

/// The perspective of reasoning path `i`: the three perspectives in turn.
pub open spec fn perspective(i: nat) -> Seq<char> {
    if i % 3 == 0 {
        "Focus on a strict, logical, step-by-step breakdown."@
    } else if i % 3 == 1 {
        "Take a critical approach, looking for edge cases or potential flaws in obvious answers."@
    } else {
        "Focus on creative, out-of-the-box solutions while remaining grounded in the facts."@
    }
}

/// The extra instruction of reasoning path `i`.
pub open spec fn path_instruction(i: nat) -> Seq<char> {
    "Approach constraint: "@ + perspective(i)
        + "\n\nVERY IMPORTANT: Keep your output under 500 words. Output ONLY the reasoning process."@
}

/// The extra instruction of reasoning path `i`.
pub fn path_prompt(i: usize) -> (s: String)
    ensures
        s@ == path_instruction(i as nat),
{
    let mut s = to_owned_string("Approach constraint: ");
    let r = i % 3;
    if r == 0 {
        push_str(&mut s, "Focus on a strict, logical, step-by-step breakdown.");
    } else if r == 1 {
        push_str(
            &mut s,
            "Take a critical approach, looking for edge cases or potential flaws in obvious answers.",
        );
    } else {
        push_str(
            &mut s,
            "Focus on creative, out-of-the-box solutions while remaining grounded in the facts.",
        );
    }
    push_str(
        &mut s,
        "\n\nVERY IMPORTANT: Keep your output under 500 words. Output ONLY the reasoning process.",
    );
    s
}

/// An extra instruction is used only when it is not blank.
pub fn usable_instruction(extra: Option<&str>) -> (r: bool)
    ensures
        r == match extra {
            Some(e) => trim(e@).len() > 0,
            None => false,
        },
{
    match extra {
        Some(e) => trim_str(e).unicode_len() > 0,
        None => false,
    }
}

/// `"### Path <n>\n<thought>\n"`.
pub open spec fn path_section(n: nat, thought: Seq<char>) -> Seq<char> {
    "### Path "@ + decimal(n) + "\n"@ + thought + "\n"@
}

/// The sections of the paths that came back, numbered by their position
/// among all paths.
pub open spec fn path_sections(results: Seq<Option<Seq<char>>>) -> Seq<Seq<char>>
    decreases results.len(),
{
    if results.len() == 0 {
        seq![]
    } else {
        let rest = path_sections(results.drop_last());
        match results.last() {
            Some(t) => rest.push(path_section(results.len() as nat, t)),
            None => rest,
        }
    }
}

/// The sections of the reasoning paths that succeeded (`None` for a path
/// that failed), numbered from 1 by their position among all paths.
pub fn collect_paths(results: &Vec<Option<String>>) -> (out: Vec<String>)
    ensures
        string_views(out@) == path_sections(
            results@.map_values(
                |r: Option<String>|
                    match r {
                        Some(s) => Some(s@),
                        None => None,
                    },
            ),
        ),
{
    let ghost rs = results@.map_values(
        |r: Option<String>|
            match r {
                Some(s) => Some(s@),
                None => None,
            },
    );
    let mut out: Vec<String> = Vec::new();
    let mut i: usize = 0;
    while i < results.len()
        invariant
            rs == results@.map_values(
                |r: Option<String>|
                    match r {
                        Some(s) => Some(s@),
                        None => None,
                    },
            ),
            0 <= i <= results@.len(),
            string_views(out@) == path_sections(rs.take(i as int)),
        decreases results.len() - i,
    {
        proof {
            assert(rs.take(i + 1).drop_last() =~= rs.take(i as int));
            assert(rs.take(i + 1).last() == rs[i as int]);
        }
        match &results[i] {
            Some(thought) => {
                let ghost before = out@;
                let mut section = to_owned_string("### Path ");
                push_decimal(&mut section, i + 1);
                push_str(&mut section, "\n");
                push_str(&mut section, thought.as_str());
                push_str(&mut section, "\n");
                out.push(section);
                proof {
                    assert(string_views(out@) =~= string_views(before).push(section@));
                }
            },
            None => {},
        }
        i = i + 1;
    }
    assert(rs.take(results@.len() as int) =~= rs);
    out
}

/// The error when no reasoning path came back.
pub fn all_paths_failed() -> (e: GraphError)
    ensures
        e.node_id@ == "thinking"@,
        e.message@ == "All parallel thinking paths failed."@,
        e.execution_trace@.len() == 0,
{
    GraphError::new("thinking", "All parallel thinking paths failed.")
}

/// The prompt of the synthesis step: the user's request, how many paths
/// came back, and their sections separated by `---` lines.
pub open spec fn synthesis_text(input: Seq<char>, paths: Seq<Seq<char>>) -> Seq<char> {
    "You are an expert evaluator. The user asked: '"@ + input
        + "'\n\nBelow are "@ + decimal(paths.len()) + " independent reasoning paths. Compare them critically, identify flaws or strengths in each, synthesize the best insights, and output a single, highly refined, final reasoning process. \n\nOutput ONLY the final, unified thought process, keeping it concise but comprehensive. Do not output the final answer to the user, only the reasoning.\n\n"@
        + joined(paths, "\n---\n"@)
}

/// The prompt of the synthesis step.
pub fn synthesis_prompt(input: &str, paths: &Vec<String>) -> (s: String)
    ensures
        s@ == synthesis_text(input@, string_views(paths@)),
{
    let mut s = to_owned_string("You are an expert evaluator. The user asked: '");
    push_str(&mut s, input);
    push_str(&mut s, "'\n\nBelow are ");
    push_decimal(&mut s, paths.len());
    push_str(
        &mut s,
        " independent reasoning paths. Compare them critically, identify flaws or strengths in each, synthesize the best insights, and output a single, highly refined, final reasoning process. \n\nOutput ONLY the final, unified thought process, keeping it concise but comprehensive. Do not output the final answer to the user, only the reasoning.\n\n",
    );
    let body = crate::graph::node::join_strings(paths, "\n---\n");
    push_str(&mut s, body.as_str());
    s
}

/// The extra instruction of the synthesis step.
pub fn synthesis_instruction() -> (s: &'static str)
    ensures
        s@ == "Synthesize the strongest reasoning into a single unified thought process. Output only the reasoning."@,
{
    "Synthesize the strongest reasoning into a single unified thought process. Output only the reasoning."
}

/// What the thinking node does first, given its budget.
#[derive(Debug, Clone, Copy, PartialEq, Eq)]
pub enum ThinkingPlan {
    /// Thinking is off: go straight on to the chat node.
    SkipToChat,
    /// One step-by-step reasoning call with no extra instruction.
    SingleCall,
    /// This many reasoning calls at once, path `i` with `path_prompt(i)`,
    /// then a synthesis call over the paths that came back.
    ParallelPaths(u8),
}

/// The plan for a thinking budget: none, one call, or that many paths.
pub fn plan_thinking(budget: u8) -> (p: ThinkingPlan)
    ensures
        budget == 0 ==> p == ThinkingPlan::SkipToChat,
        budget == 1 ==> p == ThinkingPlan::SingleCall,
        budget > 1 ==> p == ThinkingPlan::ParallelPaths(budget),
{
    if skips_thinking(budget) {
        ThinkingPlan::SkipToChat
    } else if budget == 1 {
        ThinkingPlan::SingleCall
    } else {
        ThinkingPlan::ParallelPaths(budget)
    }
}

/// Where the node goes when it is done, thinking or not: the chat node.
pub fn after_thinking() -> (out: NodeOutput)
    ensures
        out matches NodeOutput::Continue(Some(next)) && next@ == "chat"@,
{
    NodeOutput::Continue(Some(to_owned_string("chat")))
}

/// What follows the parallel paths: the synthesis prompt over the sections
/// of those that came back (`None` for one that failed), or the error when
/// none did.
pub fn after_parallel_paths(input: &str, results: &Vec<Option<String>>) -> (r: Result<
    String,
    GraphError,
>)
    ensures
        ({
            let sections = path_sections(
                results@.map_values(
                    |o: Option<String>|
                        match o {
                            Some(t) => Some(t@),
                            None => None,
                        },
                ),
            );
            match r {
                Ok(prompt) => sections.len() > 0 && prompt@ == synthesis_text(input@, sections),
                Err(e) => sections.len() == 0 && e.node_id@ == "thinking"@ && e.message@
                    == "All parallel thinking paths failed."@ && e.execution_trace@.len() == 0,
            }
        }),
{
    let paths = collect_paths(results);
    if paths.len() == 0 {
        proof {
            assert(string_views(paths@).len() == 0);
        }
        Err(all_paths_failed())
    } else {
        Ok(synthesis_prompt(input, &paths))
    }
}

/// The error when the synthesis call fails with `reason`.
pub fn synthesis_failed(reason: &str) -> (e: GraphError)
    ensures
        e.node_id@ == "thinking"@,
        e.message@ == "Synthesis failed: "@ + reason@,
        e.execution_trace@.len() == 0,
{
    let mut m = to_owned_string("Synthesis failed: ");
    push_str(&mut m, reason);
    GraphError::new("thinking", m.as_str())
}

} // verus!
