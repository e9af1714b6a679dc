use tepora_core::graph::search_flow::{deep_search_evidence, report_gaps};
use tepora_core::graph::search_flow::{after_knowledge_search, quick_search_evidence, QuickSearchNext, SearchStrategy};
use tepora_core::graph::node::NodeOutput;
use tepora_core::graph::search_flow::{
    parse_json_payload,
    brief_from_lines, build_chunk_briefs, build_report_brief, chunk_display_results,
    claims_from_chunks, empty_context_message, expanded_content, empty_context_output, json_candidate,
    plan_sub_queries, resolve_search_settings, search_settings, web_failure_status, ChunkBrief,
    ChunkText, web_picks,
};
use tepora_core::json::JsonValue;

fn chunk(id: &str, source: &str, content: &str) -> ChunkText {
    ChunkText { chunk_id: id.to_string(), source: source.to_string(), content: content.to_string() }
}

fn brief(id: &str, source: &str, claim: &str) -> ChunkBrief {
    ChunkBrief { chunk_id: id.to_string(), source: source.to_string(), claim: claim.to_string() }
}

#[test]
fn settings_defaults_and_clamps() {
    let s = resolve_search_settings(Some(true), None, false, None, None);
    assert!(s.web_search);
    assert_eq!((s.fetch_top_n, s.rag_limit), (3, 8));
    let s = resolve_search_settings(Some(true), Some(true), false, Some(0), Some(99));
    assert!(!s.web_search);
    assert_eq!((s.fetch_top_n, s.rag_limit), (1, 20));
    let s = resolve_search_settings(None, None, false, Some(20), Some(5));
    assert!(!s.web_search);
    assert_eq!((s.fetch_top_n, s.rag_limit), (8, 5));
    assert!(!resolve_search_settings(Some(true), Some(false), true, None, None).web_search);
}

#[test]
fn settings_from_config() {
    let config = parse_json_payload(
        r#"{"privacy": {"allow_web_search": true, "isolation_mode": false},
            "search": {"fetch_top_n": 5, "rag_limit": 0}}"#,
    )
    .unwrap();
    let s = search_settings(&config, false);
    assert!(s.web_search);
    assert_eq!((s.fetch_top_n, s.rag_limit), (5, 1));
    let s = search_settings(&JsonValue::Null, false);
    assert!(!s.web_search);
    assert_eq!((s.fetch_top_n, s.rag_limit), (3, 8));
}

#[test]
fn empty_context_texts() {
    assert!(empty_context_message(true).starts_with("Web search failed and RAG context is empty."));
    assert_eq!(
        empty_context_message(false),
        "RAG context is empty. I can only answer from existing session knowledge right now."
    );
    assert!(empty_context_output().starts_with("RAG context is empty. Please ingest"));
    assert_eq!(web_failure_status("timeout"), "Web search failed, continuing with RAG only: timeout");
}

#[test]
fn json_candidate_extraction() {
    assert_eq!(json_candidate("  [1, 2]  "), Some("[1, 2]".to_string()));
    assert_eq!(json_candidate("Result: {\"a\": [1]} done"), Some("{\"a\": [1]}".to_string()));
    assert_eq!(json_candidate("no json here"), None);
    assert_eq!(json_candidate("] then ["), None);
    assert_eq!(json_candidate("{"), None);
}

#[test]
fn sub_queries_start_with_input_and_dedupe() {
    let parsed = vec![
        " rust verus ".to_string(),
        "".to_string(),
        "what is verus".to_string(),
        "rust verus".to_string(),
        "a".to_string(),
        "b".to_string(),
        "c".to_string(),
    ];
    let out = plan_sub_queries("what is verus", parsed);
    assert_eq!(out, vec!["what is verus", "rust verus", "a", "b", "c"]);
    assert_eq!(plan_sub_queries("q", vec![]), vec!["q"]);
}

#[test]
fn chunk_claims_results_and_briefs() {
    let chunks = vec![
        chunk("c1", "s1", "\n  First line  \nsecond"),
        chunk("c2", "s2", "   "),
        chunk("c3", "s3", &"z".repeat(300)),
    ];
    let claims = claims_from_chunks(&chunks);
    assert_eq!(claims.len(), 3);
    assert_eq!(claims[0].summary, "First line");
    assert_eq!(claims[0].citations, vec!["c1", "s1"]);
    assert_eq!(claims[1].summary, "");
    let results = chunk_display_results(&chunks);
    assert_eq!(results[0].title, "RAG Chunk c1");
    assert_eq!(results[0].url, "s1");
    assert_eq!(results[2].snippet, format!("{}...", "z".repeat(240)));
    let briefs = build_chunk_briefs(&chunks);
    assert_eq!(briefs[0].claim, "First line");
    assert_eq!(briefs[1].claim, "");
    assert_eq!(briefs[2].claim, format!("{}...", "z".repeat(180)));
}

#[test]
fn report_brief_from_report() {
    let report = "Overall answer\n\n- finding one\n* finding two\n1. third\nThis may change later.\nUNKNOWN cause\n不明な点";
    let briefs = vec![brief("c1", "s1", "claim one")];
    let b = build_report_brief(report, &briefs);
    assert_eq!(b.answer_outline, "Overall answer");
    assert_eq!(b.key_findings, vec!["finding one", "finding two", "1. third"]);
    assert_eq!(b.open_uncertainties, vec!["This may change later.", "UNKNOWN cause", "不明な点"]);
    assert_eq!(b.citation_map, vec!["c1 -> s1"]);
}

#[test]
fn report_brief_falls_back_to_chunk_claims() {
    let briefs = vec![brief("c1", "s1", "claim one"), brief("c2", "s2", "claim two")];
    let b = build_report_brief("", &briefs);
    assert_eq!(b.answer_outline, "Summarize the strongest findings and cite the supporting chunks.");
    assert_eq!(b.key_findings, vec!["claim one", "claim two"]);
    assert!(b.open_uncertainties.is_empty());
    let lines = vec!["plain".to_string()];
    let lowered = vec!["plain".to_string()];
    let b = brief_from_lines(&lines, &lowered, &vec![]);
    assert!(b.key_findings.is_empty());
    assert_eq!(b.answer_outline, "plain");
}

#[test]
fn chunk_windows_replace_content_only_when_they_hold_text() {
    let window = vec!["first part".to_string(), "second part".to_string()];
    assert_eq!(expanded_content(&window), Some("first part\n\nsecond part".to_string()));
    assert_eq!(expanded_content(&vec![]), None);
    assert_eq!(expanded_content(&vec!["  ".to_string(), "\n".to_string()]), None);
    assert_eq!(expanded_content(&vec!["only".to_string()]), Some("only".to_string()));
}

#[test]
fn json_payloads_are_found_inside_model_answers() {
    let whole = parse_json_payload(r#"["a", "b"]"#).unwrap();
    assert!(matches!(whole, JsonValue::Array(ref items) if items.len() == 2));
    let wrapped = parse_json_payload("Here you go:\n```json\n{\"q\": \"rust\"}\n```").unwrap();
    assert!(matches!(wrapped, JsonValue::Object(ref members) if members.len() == 1 && members[0].0 == "q"));
    assert!(parse_json_payload("no json here").is_none());
    assert!(parse_json_payload("} backwards {").is_none());
    assert!(parse_json_payload("[broken").is_none());
}

#[test]
fn web_picks_keep_two_results_of_the_first_three_queries() {
    let found = vec![Some(5), None, Some(1), Some(4)];
    assert_eq!(web_picks(&found), vec![(0, 0), (0, 1), (2, 0)]);
    assert_eq!(web_picks(&vec![Some(0), Some(2)]), vec![(1, 0), (1, 1)]);
    assert!(web_picks(&Vec::new()).is_empty());
}

#[test]
fn empty_knowledge_search_ends_without_a_model_call() {
    match after_knowledge_search("what is rust?", 0, true, vec!["web".to_string()], Vec::new()) {
        QuickSearchNext::FinishEmpty { evidence, message, output, node_output } => {
            assert!(message.starts_with("Web search failed and RAG context is empty."));
            assert_eq!(output, "RAG context is empty. Please ingest additional sources for higher quality results.");
            assert!(matches!(node_output, NodeOutput::Final));
            assert_eq!(evidence.strategy, SearchStrategy::Quick);
            assert_eq!(evidence.query_plan, vec!["what is rust?".to_string()]);
            assert_eq!(evidence.explored_sources, vec!["web".to_string()]);
            assert!(evidence.claims.is_empty());
            assert_eq!(evidence.gaps.len(), 1);
            assert_eq!(evidence.gaps[0].topic, "what is rust?");
            assert_eq!(evidence.gaps[0].reason, message);
        }
        QuickSearchNext::Answer => panic!("no chunks must not lead to an answer"),
    }
    assert!(matches!(after_knowledge_search("q", 2, false, Vec::new(), Vec::new()), QuickSearchNext::Answer));
    let chunks = vec![ChunkText { chunk_id: "c1".to_string(), source: "doc".to_string(), content: "line one\nline two".to_string() }];
    let e = quick_search_evidence("q", Vec::new(), Vec::new(), &chunks);
    assert_eq!(e.claims.len(), 1);
    assert_eq!(e.claims[0].summary, "line one");
    assert!(e.gaps.is_empty());
}

#[test]
fn deep_evidence_claims_follow_briefs_and_gaps_follow_uncertainties() {
    let briefs = vec![ChunkBrief { source: "doc".to_string(), chunk_id: "c1".to_string(), claim: "Rust is safe".to_string() }];
    let e = deep_search_evidence(vec!["q1".to_string(), "q2".to_string()], Vec::new(), Vec::new(), &briefs);
    assert_eq!(e.strategy, SearchStrategy::Deep);
    assert_eq!(e.query_plan, vec!["q1".to_string(), "q2".to_string()]);
    assert_eq!(e.claims.len(), 1);
    assert_eq!(e.claims[0].topic, "doc");
    assert_eq!(e.claims[0].summary, "Rust is safe");
    assert_eq!(e.claims[0].citations, vec!["c1".to_string(), "doc".to_string()]);
    let gaps = report_gaps("question", &vec!["unclear".to_string()]);
    assert_eq!(gaps.len(), 1);
    assert_eq!(gaps[0].topic, "question");
    assert_eq!(gaps[0].reason, "unclear");
}
