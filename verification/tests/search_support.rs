use tepora_core::graph::search_support::{
    build_explored_sources, build_final_constraints, dedupe_search_results,
    first_meaningful_line, first_meaningful_line_or_empty, render_query_plan_brief,
    render_report_brief, truncate_text, ReportBrief, SearchResult,
};
use tepora_core::json::JsonValue;

fn result(title: &str, url: &str) -> SearchResult {
    SearchResult { title: title.to_string(), url: url.to_string(), snippet: String::new() }
}

#[test]
fn truncate_text_marks_cut() {
    assert_eq!(truncate_text("hello", 5), "hello");
    assert_eq!(truncate_text("hello world", 5), "hello...");
    assert_eq!(truncate_text("日本語テキスト", 3), "日本語...");
}

#[test]
fn first_meaningful_line_skips_blank_lines() {
    assert_eq!(first_meaningful_line("\n  \n  first  \nsecond"), "first");
    assert_eq!(first_meaningful_line("   "), "");
    assert_eq!(first_meaningful_line_or_empty("\r\n\n x\r\n"), "x");
    assert_eq!(first_meaningful_line_or_empty(""), "");
}

#[test]
fn dedupe_keeps_first_url_web_first() {
    let web = vec![result("w1", "u1"), result("w2", "u2"), result("w3", "u1")];
    let rag = vec![result("r1", "u2"), result("r2", "u3")];
    let out = dedupe_search_results(web, rag);
    let titles: Vec<&str> = out.iter().map(|r| r.title.as_str()).collect();
    assert_eq!(titles, vec!["w1", "w2", "r2"]);
}

#[test]
fn query_plan_numbers_and_caps_at_five() {
    let queries: Vec<String> = ["  a ", "b", "c", "d", "e", "f"].iter().map(|s| s.to_string()).collect();
    let plan = render_query_plan_brief(&queries);
    assert_eq!(
        plan,
        "[Query Plan Brief]\n- Query 1: a\n- Query 2: b\n- Query 3: c\n- Query 4: d\n- Query 5: e"
    );
    assert_eq!(render_query_plan_brief(&vec![]), "[Query Plan Brief]\n");
}

#[test]
fn final_constraints_trim_and_cut_request() {
    let text = build_final_constraints("  what is rust?  ");
    assert!(text.starts_with("[Final Constraints]\n- Answer the user's request directly.\n"));
    assert!(text.ends_with("- User request: what is rust?"));
    let long = "y".repeat(200);
    let text = build_final_constraints(&long);
    assert!(text.ends_with(&format!("{}...", "y".repeat(180))));
}

#[test]
fn report_brief_renders_non_empty_sections() {
    let brief = ReportBrief {
        answer_outline: "Outline".to_string(),
        key_findings: vec!["k1".to_string(), "k2".to_string()],
        open_uncertainties: vec![],
        citation_map: vec!["c1 -> s1".to_string()],
    };
    assert_eq!(
        render_report_brief(&brief),
        "[Answer Outline]\nOutline\n\n[Key Findings]\n- k1\n- k2\n\n[Citation Map]\n- c1 -> s1"
    );
}

#[test]
fn explored_sources_order() {
    let none: Vec<JsonValue> = vec![];
    assert_eq!(build_explored_sources(&none, false), vec!["session_rag", "local_knowledge"]);
    let one = vec![JsonValue::Null];
    assert_eq!(
        build_explored_sources(&one, true),
        vec!["attachments", "session_rag", "local_knowledge", "web"]
    );
}
