use tepora_core::graph::node::NodeOutput;
use tepora_core::graph::thinking::{
    after_parallel_paths, after_thinking, plan_thinking, synthesis_failed, ThinkingPlan,
    all_paths_failed, collect_paths, path_prompt, skips_thinking, synthesis_instruction,
    synthesis_prompt, thinking_activity_message, thinking_instruction, usable_instruction,
};

#[test]
fn budget_zero_skips_thinking() {
    assert!(skips_thinking(0));
    assert!(!skips_thinking(2));
    assert_eq!(thinking_activity_message(1), "Reasoning step by step...");
    assert_eq!(thinking_activity_message(3), "Generating 3 parallel reasoning paths...");
}

#[test]
fn path_prompts_cycle_perspectives() {
    assert!(path_prompt(0).starts_with("Approach constraint: Focus on a strict"));
    assert!(path_prompt(1).starts_with("Approach constraint: Take a critical approach"));
    assert!(path_prompt(2).starts_with("Approach constraint: Focus on creative"));
    assert_eq!(path_prompt(3), path_prompt(0));
    assert!(path_prompt(4).ends_with("Output ONLY the reasoning process."));
}

#[test]
fn collected_paths_keep_original_numbers() {
    let results = vec![Some("alpha".to_string()), None, Some("gamma".to_string())];
    let paths = collect_paths(&results);
    assert_eq!(paths, vec!["### Path 1\nalpha\n", "### Path 3\ngamma\n"]);
    assert!(collect_paths(&vec![None, None]).is_empty());
    let err = all_paths_failed();
    assert_eq!(err.node_id, "thinking");
    assert_eq!(err.message, "All parallel thinking paths failed.");
}

#[test]
fn synthesis_prompt_lists_paths() {
    let paths = vec!["### Path 1\na\n".to_string(), "### Path 2\nb\n".to_string()];
    let prompt = synthesis_prompt("why?", &paths);
    assert!(prompt.starts_with("You are an expert evaluator. The user asked: 'why?'\n\nBelow are 2 independent reasoning paths."));
    assert!(prompt.ends_with("### Path 1\na\n\n---\n### Path 2\nb\n"));
    assert!(synthesis_instruction().starts_with("Synthesize the strongest reasoning"));
    assert!(thinking_instruction().starts_with("You are a reasoning assistant."));
}

#[test]
fn blank_extra_instruction_is_ignored() {
    assert!(!usable_instruction(None));
    assert!(!usable_instruction(Some("   ")));
    assert!(usable_instruction(Some(" be brief ")));
}

#[test]
fn budget_decides_between_one_call_and_parallel_paths() {
    assert_eq!(plan_thinking(0), ThinkingPlan::SkipToChat);
    assert_eq!(plan_thinking(1), ThinkingPlan::SingleCall);
    assert_eq!(plan_thinking(3), ThinkingPlan::ParallelPaths(3));
    match after_thinking() {
        NodeOutput::Continue(Some(next)) => assert_eq!(next, "chat"),
        _ => panic!("thinking must continue to chat"),
    }
}

#[test]
fn parallel_results_lead_to_synthesis_or_failure() {
    let results = vec![None, Some("b".to_string())];
    let prompt = after_parallel_paths("q", &results).unwrap();
    assert!(prompt.starts_with("You are an expert evaluator. The user asked: 'q'\n\nBelow are 1 independent"));
    assert!(prompt.ends_with("### Path 2\nb\n"));
    let err = after_parallel_paths("q", &vec![None, None, None]).unwrap_err();
    assert_eq!(err.message, "All parallel thinking paths failed.");
    let err = synthesis_failed("timeout");
    assert_eq!(err.node_id, "thinking");
    assert_eq!(err.message, "Synthesis failed: timeout");
}
