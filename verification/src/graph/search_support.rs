//! Text shaping for the search nodes: truncation, query plans, report
//! briefs, final constraints and result de-duplication.

use vstd::prelude::*;

use crate::text::{
    chars_of, join, line_spans, lines, push_decimal, push_str, str_eq, string_of_range, to_owned_string,
    trim, trim_bounds, trim_str, truncate_chars, truncated, decimal,
};
use crate::graph::node::{joined, string_views};
use crate::json::JsonValue;

verus! {

broadcast use vstd::string::group_string_axioms;

/// A web or knowledge search hit.
#[derive(Debug, Clone)]
pub struct SearchResult {
    pub title: String,
    pub url: String,
    pub snippet: String,
}

/// `text` cut to `max_len` characters, with `"..."` when it was cut.
pub fn truncate_text(text: &str, max_len: usize) -> (out: String)
    ensures
        out@ == truncated(text@, max_len as nat),
{
    truncate_chars(text, max_len)
}

/// The first line of `ls` that is not blank, trimmed.
pub open spec fn first_nonblank(ls: Seq<Seq<char>>) -> Option<Seq<char>>
    decreases ls.len(),
{
    if ls.len() == 0 {
        None
    } else if trim(ls[0]).len() > 0 {
        Some(trim(ls[0]))
    } else {
        first_nonblank(ls.drop_first())
    }
}

fn first_nonblank_line(text: &str) -> (r: Option<String>)
    ensures
        match first_nonblank(lines(text@)) {
            Some(l) => r matches Some(s) && s@ == l,
            None => r is None,
        },
{
    let v = chars_of(text);
    let spans = line_spans(&v);
    let ghost ls = lines(text@);
    let mut k: usize = 0;
    assert(ls.skip(0) =~= ls);
    while k < spans.len()
        invariant
            v@ == text@,
            ls == lines(text@),
            forall|j: int| 0 <= j < spans@.len() ==> (#[trigger] spans@[j]).0 <= spans@[j].1 <= v@.len(),
            spans@.map_values(|p: (usize, usize)| v@.subrange(p.0 as int, p.1 as int)) == ls,
            0 <= k <= spans@.len(),
            first_nonblank(ls) == first_nonblank(ls.skip(k as int)),
        decreases spans.len() - k,
    {
        let (a, b) = spans[k];
        assert(ls[k as int] == v@.subrange(a as int, b as int));
        assert(ls.skip(k as int)[0] == ls[k as int]);
        assert(ls.skip(k as int).drop_first() =~= ls.skip(k + 1));
        let (s, e) = trim_bounds(&v, a, b);
        if s < e {
            return Some(string_of_range(&v, s, e));
        }
        k = k + 1;
    }
    assert(ls.skip(k as int) =~= Seq::<Seq<char>>::empty());
    None
}

/// The first non-blank line of `text`, trimmed; the trimmed text when there
/// is none.
pub fn first_meaningful_line(text: &str) -> (out: String)
    ensures
        out@ == match first_nonblank(lines(text@)) {
            Some(l) => l,
            None => trim(text@),
        },
{
    match first_nonblank_line(text) {
        Some(l) => l,
        None => trim_str(text),
    }
}

/// The first non-blank line of `text`, trimmed; empty when there is none.
pub fn first_meaningful_line_or_empty(text: &str) -> (out: String)
    ensures
        out@ == match first_nonblank(lines(text@)) {
            Some(l) => l,
            None => Seq::<char>::empty(),
        },
{
    match first_nonblank_line(text) {
        Some(l) => l,
        None => String::new(),
    }
}

/// Some result in `s` has URL `u`.
pub open spec fn has_url(s: Seq<SearchResult>, u: Seq<char>) -> bool {
    exists|k: int| 0 <= k < s.len() && #[trigger] s[k].url@ == u
}

/// Keeps the first result for each URL, in order.
pub open spec fn dedupe_by_url(s: Seq<SearchResult>) -> Seq<SearchResult>
    decreases s.len(),
{
    if s.len() == 0 {
        seq![]
    } else {
        let rest = dedupe_by_url(s.drop_last());
        if has_url(s.drop_last(), s.last().url@) {
            rest
        } else {
            rest.push(s.last())
        }
    }
}

proof fn lemma_has_url_push(p: Seq<SearchResult>, x: SearchResult, u: Seq<char>)
    ensures
        has_url(p.push(x), u) <==> (has_url(p, u) || x.url@ == u),
{
    let s = p.push(x);
    if has_url(s, u) {
        let k = choose|k: int| 0 <= k < s.len() && #[trigger] s[k].url@ == u;
        if k < p.len() {
            assert(p[k] == s[k]);
        }
    }
    if has_url(p, u) {
        let k = choose|k: int| 0 <= k < p.len() && #[trigger] p[k].url@ == u;
        assert(s[k] == p[k]);
    }
    if x.url@ == u {
        assert(s[p.len() as int] == x);
    }
}

/// The URLs kept by `dedupe_by_url` are those of the input.
proof fn lemma_dedupe_urls(s: Seq<SearchResult>, u: Seq<char>)
    ensures
        has_url(dedupe_by_url(s), u) == has_url(s, u),
    decreases s.len(),
{
    if s.len() > 0 {
        let d = s.drop_last();
        lemma_dedupe_urls(d, u);
        assert(d.push(s.last()) =~= s);
        lemma_has_url_push(d, s.last(), u);
        if !has_url(d, s.last().url@) {
            lemma_has_url_push(dedupe_by_url(d), s.last(), u);
        }
    }
}

/// Merged search results hold every URL of their sources and no URL twice.
pub proof fn lemma_dedupe_results(s: Seq<SearchResult>)
    ensures
        forall|u: Seq<char>| has_url(dedupe_by_url(s), u) == #[trigger] has_url(s, u),
        forall|i: int, j: int|
            0 <= i < j < dedupe_by_url(s).len() ==> (#[trigger] dedupe_by_url(s)[i]).url@
                != (#[trigger] dedupe_by_url(s)[j]).url@,
    decreases s.len(),
{
    assert forall|u: Seq<char>| has_url(dedupe_by_url(s), u) == #[trigger] has_url(s, u) by {
        lemma_dedupe_urls(s, u);
    }
    if s.len() > 0 {
        let d = s.drop_last();
        lemma_dedupe_results(d);
        let rest = dedupe_by_url(d);
        let x = s.last();
        if !has_url(d, x.url@) {
            lemma_dedupe_urls(d, x.url@);
            let out = rest.push(x);
            assert forall|i: int, j: int| 0 <= i < j < out.len() implies (#[trigger] out[i]).url@
                != (#[trigger] out[j]).url@ by {
                if j == rest.len() {
                    assert(out[i] == rest[i]);
                    if rest[i].url@ == x.url@ {
                        assert(has_url(rest, x.url@));
                    }
                } else {
                    assert(out[i] == rest[i]);
                    assert(out[j] == rest[j]);
                }
            }
        }
    }
}

/// Appends to `out` each item whose URL it does not hold yet.
fn append_unique(out: &mut Vec<SearchResult>, items: Vec<SearchResult>, Ghost(prefix): Ghost<Seq<SearchResult>>)
    requires
        old(out)@ == dedupe_by_url(prefix),
    ensures
        final(out)@ == dedupe_by_url(prefix + items@),
{
    let mut rest = items;
    let ghost mut done = prefix;
    while rest.len() > 0
        invariant
            out@ == dedupe_by_url(done),
            done + rest@ == prefix + items@,
        decreases rest@.len(),
    {
        let item = rest.remove(0);
        let mut seen = false;
        let mut k: usize = 0;
        while k < out.len()
            invariant
                0 <= k <= out@.len(),
                seen <==> exists|j: int| 0 <= j < k && (#[trigger] out@[j]).url@ == item.url@,
            decreases out.len() - k,
        {
            if str_eq(out[k].url.as_str(), item.url.as_str()) {
                seen = true;
            }
            k = k + 1;
        }
        proof {
            lemma_dedupe_urls(done, item.url@);
            assert(seen == has_url(out@, item.url@));
            assert(done.push(item).drop_last() =~= done);
            assert(done.push(item) + rest@ =~= done + seq![item] + rest@);
        }
        if !seen {
            out.push(item);
        }
        proof {
            done = done.push(item);
        }
    }
    assert(done =~= prefix + items@);
}

/// Merges web and knowledge results, web first, dropping repeated URLs.
pub fn dedupe_search_results(web_results: Vec<SearchResult>, rag_results: Vec<SearchResult>) -> (out:
    Vec<SearchResult>)
    ensures
        out@ == dedupe_by_url(web_results@ + rag_results@),
{
    let ghost web = web_results@;
    let mut out: Vec<SearchResult> = Vec::new();
    assert(out@ == dedupe_by_url(Seq::<SearchResult>::empty()));
    append_unique(&mut out, web_results, Ghost(Seq::empty()));
    assert(Seq::<SearchResult>::empty() + web =~= web);
    append_unique(&mut out, rag_results, Ghost(web));
    out
}

/// The query plan shown to later stages: up to five queries, trimmed and
/// numbered from 1.
pub open spec fn query_plan(queries: Seq<Seq<char>>) -> Seq<char> {
    let shown = if queries.len() <= 5 {
        queries
    } else {
        queries.take(5)
    };
    "[Query Plan Brief]\n"@ + join(
        Seq::new(shown.len(), |i: int| "- Query "@ + decimal((i + 1) as nat) + ": "@ + trim(shown[i])),
        "\n"@,
    )
}

/// Renders the plan of sub-queries.
pub fn render_query_plan_brief(sub_queries: &Vec<String>) -> (out: String)
    ensures
        out@ == query_plan(string_views(sub_queries@)),
{
    let ghost qs = string_views(sub_queries@);
    let count = if sub_queries.len() <= 5 {
        sub_queries.len()
    } else {
        5
    };
    let ghost shown = if qs.len() <= 5 {
        qs
    } else {
        qs.take(5)
    };
    let ghost items = Seq::new(shown.len(), |i: int| "- Query "@ + decimal((i + 1) as nat) + ": "@ + trim(shown[i]));
    let mut lines_out = String::new();
    let mut i: usize = 0;
    while i < count
        invariant
            qs == string_views(sub_queries@),
            count == shown.len(),
            count <= sub_queries@.len(),
            shown == (if qs.len() <= 5 { qs } else { qs.take(5) }),
            items == Seq::new(shown.len(), |i: int| "- Query "@ + decimal((i + 1) as nat) + ": "@ + trim(shown[i])),
            0 <= i <= count,
            lines_out@ == join(items.take(i as int), "\n"@),
        decreases count - i,
    {
        if i > 0 {
            push_str(&mut lines_out, "\n");
        }
        push_str(&mut lines_out, "- Query ");
        push_decimal(&mut lines_out, i + 1);
        push_str(&mut lines_out, ": ");
        let t = trim_str(sub_queries[i].as_str());
        push_str(&mut lines_out, t.as_str());
        proof {
            assert(shown[i as int] == sub_queries@[i as int]@);
            let after = items.take(i + 1);
            assert(after.drop_last() =~= items.take(i as int));
            assert(after.last() == items[i as int]);
            if i == 0 {
                assert(lines_out@ =~= join(after, "\n"@));
            } else {
                assert(lines_out@ =~= join(after, "\n"@));
            }
        }
        i = i + 1;
    }
    assert(items.take(count as int) =~= items);
    let mut out = to_owned_string("[Query Plan Brief]\n");
    push_str(&mut out, lines_out.as_str());
    out
}

/// The constraints appended before the final answer.
pub open spec fn final_constraints(user_input: Seq<char>) -> Seq<char> {
    "[Final Constraints]\n- Answer the user's request directly.\n- Preserve the user's language.\n- Cite chunk IDs or source URLs when possible.\n- User request: "@
        + truncated(trim(user_input), 180)
}

pub fn build_final_constraints(user_input: &str) -> (out: String)
    ensures
        out@ == final_constraints(user_input@),
{
    let t = trim_str(user_input);
    let shortened = truncate_chars(t.as_str(), 180);
    let mut out = to_owned_string(
        "[Final Constraints]\n- Answer the user's request directly.\n- Preserve the user's language.\n- Cite chunk IDs or source URLs when possible.\n- User request: ",
    );
    push_str(&mut out, shortened.as_str());
    out
}

/// The brief that frames the final report.
#[derive(Debug, Clone)]
pub struct ReportBrief {
    pub answer_outline: String,
    pub key_findings: Vec<String>,
    pub open_uncertainties: Vec<String>,
    pub citation_map: Vec<String>,
}

/// Items as a bulleted list under a heading.
pub open spec fn bullet_section(heading: Seq<char>, items: Seq<Seq<char>>) -> Seq<char> {
    heading + "\n"@ + join(Seq::new(items.len(), |i: int| "- "@ + items[i]), "\n"@)
}

/// The sections of a report brief: the outline, then each non-empty list.
pub open spec fn brief_sections(b: ReportBrief) -> Seq<Seq<char>> {
    let s0 = seq!["[Answer Outline]\n"@ + b.answer_outline@];
    let s1 = if b.key_findings@.len() > 0 {
        s0.push(bullet_section("[Key Findings]"@, string_views(b.key_findings@)))
    } else {
        s0
    };
    let s2 = if b.open_uncertainties@.len() > 0 {
        s1.push(bullet_section("[Open Uncertainties]"@, string_views(b.open_uncertainties@)))
    } else {
        s1
    };
    if b.citation_map@.len() > 0 {
        s2.push(bullet_section("[Citation Map]"@, string_views(b.citation_map@)))
    } else {
        s2
    }
}

fn render_bullets(heading: &str, items: &Vec<String>) -> (out: String)
    ensures
        out@ == bullet_section(heading@, string_views(items@)),
{
    let ghost views = string_views(items@);
    let ghost bullets = Seq::new(views.len(), |i: int| "- "@ + views[i]);
    let mut body = String::new();
    let mut i: usize = 0;
    while i < items.len()
        invariant
            views == string_views(items@),
            bullets == Seq::new(views.len(), |i: int| "- "@ + views[i]),
            0 <= i <= items@.len(),
            body@ == join(bullets.take(i as int), "\n"@),
        decreases items.len() - i,
    {
        if i > 0 {
            push_str(&mut body, "\n");
        }
        push_str(&mut body, "- ");
        push_str(&mut body, items[i].as_str());
        proof {
            let after = bullets.take(i + 1);
            assert(after.drop_last() =~= bullets.take(i as int));
            assert(after.last() == bullets[i as int]);
            assert(views[i as int] == items@[i as int]@);
            assert(body@ =~= join(after, "\n"@));
        }
        i = i + 1;
    }
    assert(bullets.take(items@.len() as int) =~= bullets);
    let mut out = to_owned_string(heading);
    push_str(&mut out, "\n");
    push_str(&mut out, body.as_str());
    out
}

/// Renders a report brief: its sections separated by blank lines.
pub fn render_report_brief(brief: &ReportBrief) -> (out: String)
    ensures
        out@ == join(brief_sections(*brief), "\n\n"@),
{
    let mut sections: Vec<String> = Vec::new();
    let mut first = to_owned_string("[Answer Outline]\n");
    push_str(&mut first, brief.answer_outline.as_str());
    sections.push(first);
    if brief.key_findings.len() > 0 {
        sections.push(render_bullets("[Key Findings]", &brief.key_findings));
    }
    if brief.open_uncertainties.len() > 0 {
        sections.push(render_bullets("[Open Uncertainties]", &brief.open_uncertainties));
    }
    if brief.citation_map.len() > 0 {
        sections.push(render_bullets("[Citation Map]", &brief.citation_map));
    }
    proof {
        assert(string_views(sections@) =~= brief_sections(*brief));
        lemma_joined_is_join(string_views(sections@), "\n\n"@);
    }
    crate::graph::node::join_strings(&sections, "\n\n")
}

/// The two joins agree.
pub proof fn lemma_joined_is_join(parts: Seq<Seq<char>>, sep: Seq<char>)
    ensures
        joined(parts, sep) == join(parts, sep),
    decreases parts.len(),
{
    if parts.len() > 1 {
        lemma_joined_is_join(parts.drop_last(), sep);
    }
}

/// The sources consulted, in display order.
pub open spec fn explored_sources(has_attachments: bool, web_enabled: bool) -> Seq<Seq<char>> {
    let base = seq!["session_rag"@, "local_knowledge"@];
    let with_attachments = if has_attachments {
        seq!["attachments"@] + base
    } else {
        base
    };
    if web_enabled {
        with_attachments.push("web"@)
    } else {
        with_attachments
    }
}

/// Lists the sources a search consulted.
pub fn build_explored_sources(attachments: &[JsonValue], web_enabled: bool) -> (out: Vec<
    String,
>)
    ensures
        string_views(out@) == explored_sources(attachments@.len() > 0, web_enabled),
{
    let mut sources: Vec<String> = Vec::new();
    sources.push(to_owned_string("session_rag"));
    sources.push(to_owned_string("local_knowledge"));
    if attachments.len() > 0 {
        sources.insert(0, to_owned_string("attachments"));
    }
    if web_enabled {
        sources.push(to_owned_string("web"));
    }
    proof {
        assert(string_views(sources@) =~= explored_sources(attachments@.len() > 0, web_enabled));
    }
    sources
}

} // verus!
