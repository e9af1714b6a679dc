//! Decisions of the two search flows: which phases run and with what limits,
//! what is answered when nothing was found, how the model's sub-queries are
//! cleaned up, and how retrieved chunks become results, claims and briefs.

use vstd::prelude::*;

use crate::graph::search_support::{first_nonblank, first_meaningful_line, ReportBrief, SearchResult};
use crate::json::{
    config_bool, config_bool_of, config_u64, config_u64_of, parse_json, parsed_json, JsonValue,
};
use crate::text::{
    chars_of, contains_seq, line_spans, lines, push_str, starts_with, str_contains, str_eq,
    str_starts_with, string_of_range, to_owned_string, trim, trim_bounds, trim_str, truncate_chars,
    truncated,
};
use crate::graph::node::{join_strings, joined, string_views, NodeOutput};

verus! {

broadcast use vstd::string::group_string_axioms;

// ---------------------------------------------------------------------------
// Settings
// ---------------------------------------------------------------------------

/// The limits and switches a search run uses.
#[derive(Debug, Clone, Copy, PartialEq, Eq)]
pub struct SearchSettings {
    /// The web phase runs.
    pub web_search: bool,
    /// How many web results are fetched and ingested (1 to 8).
    pub fetch_top_n: usize,
    /// How many chunks the knowledge search returns (1 to 20).
    pub rag_limit: usize,
}

/// `v` clamped to `lo..=hi`.
pub open spec fn clamped(v: u64, lo: u64, hi: u64) -> u64 {
    if v < lo {
        lo
    } else if v > hi {
        hi
    } else {
        v
    }
}

/// The settings from the raw configuration values: the web phase runs when
/// web search is allowed, the request does not skip it and isolation mode is
/// off; the limits default to 3 and 8 and are clamped.
pub open spec fn settings_of(
    allow_web: Option<bool>,
    isolation: Option<bool>,
    skip_web_search: bool,
    fetch_top_n: Option<u64>,
    rag_limit: Option<u64>,
) -> SearchSettings {
    SearchSettings {
        web_search: allow_web == Some(true) && !skip_web_search && isolation != Some(true),
        fetch_top_n: clamped(
            match fetch_top_n {
                Some(v) => v,
                None => 3,
            },
            1,
            8,
        ) as usize,
        rag_limit: clamped(
            match rag_limit {
                Some(v) => v,
                None => 8,
            },
            1,
            20,
        ) as usize,
    }
}

fn clamp_u64(v: u64, lo: u64, hi: u64) -> (r: u64)
    requires
        lo <= hi,
    ensures
        r == clamped(v, lo, hi),
{
    if v < lo {
        lo
    } else if v > hi {
        hi
    } else {
        v
    }
}

/// The settings from raw configuration values.
pub fn resolve_search_settings(
    allow_web: Option<bool>,
    isolation: Option<bool>,
    skip_web_search: bool,
    fetch_top_n: Option<u64>,
    rag_limit: Option<u64>,
) -> (s: SearchSettings)
    ensures
        s == settings_of(allow_web, isolation, skip_web_search, fetch_top_n, rag_limit),
{
    let web = match allow_web {
        Some(true) => true,
        _ => false,
    };
    let isolated = match isolation {
        Some(true) => true,
        _ => false,
    };
    let fetch = clamp_u64(
        match fetch_top_n {
            Some(v) => v,
            None => 3,
        },
        1,
        8,
    );
    let limit = clamp_u64(
        match rag_limit {
            Some(v) => v,
            None => 8,
        },
        1,
        20,
    );
    SearchSettings {
        web_search: web && !skip_web_search && !isolated,
        fetch_top_n: fetch as usize,
        rag_limit: limit as usize,
    }
}

/// The settings a configuration gives: `privacy.allow_web_search`,
/// `privacy.isolation_mode`, `search.fetch_top_n` and `search.rag_limit`.
pub fn search_settings(config: &JsonValue, skip_web_search: bool) -> (s: SearchSettings)
    ensures
        s == settings_of(
            config_bool_of(*config, "privacy"@, "allow_web_search"@),
            config_bool_of(*config, "privacy"@, "isolation_mode"@),
            skip_web_search,
            config_u64_of(*config, "search"@, "fetch_top_n"@),
            config_u64_of(*config, "search"@, "rag_limit"@),
        ),
{
    let allow_web = config_bool(config, "privacy", "allow_web_search");
    let isolation = config_bool(config, "privacy", "isolation_mode");
    let fetch_top_n = config_u64(config, "search", "fetch_top_n");
    let rag_limit = config_u64(config, "search", "rag_limit");
    resolve_search_settings(allow_web, isolation, skip_web_search, fetch_top_n, rag_limit)
}

/// Privacy: a search reaches the web only when the configuration sets
/// `privacy.allow_web_search` to `true`, `privacy.isolation_mode` is not
/// `true` and the request does not skip the web.
pub proof fn lemma_web_search_needs_permission(config: JsonValue, skip_web_search: bool)
    ensures
        settings_of(
            config_bool_of(config, "privacy"@, "allow_web_search"@),
            config_bool_of(config, "privacy"@, "isolation_mode"@),
            skip_web_search,
            config_u64_of(config, "search"@, "fetch_top_n"@),
            config_u64_of(config, "search"@, "rag_limit"@),
        ).web_search ==> {
            &&& config_bool_of(config, "privacy"@, "allow_web_search"@) == Some(true)
            &&& config_bool_of(config, "privacy"@, "isolation_mode"@) != Some(true)
            &&& !skip_web_search
        },
{
}

// ---------------------------------------------------------------------------
// Messages of the quick search flow
// ---------------------------------------------------------------------------

/// What the user is told when the knowledge search found nothing.
pub open spec fn empty_context_text(web_failed: bool) -> Seq<char> {
    if web_failed {
        "Web search failed and RAG context is empty. Please try again or ingest relevant documents first."@
    } else {
        "RAG context is empty. I can only answer from existing session knowledge right now."@
    }
}

/// The message streamed when the knowledge search found nothing.
pub fn empty_context_message(web_failed: bool) -> (s: String)
    ensures
        s@ == empty_context_text(web_failed),
{
    if web_failed {
        to_owned_string(
            "Web search failed and RAG context is empty. Please try again or ingest relevant documents first.",
        )
    } else {
        to_owned_string(
            "RAG context is empty. I can only answer from existing session knowledge right now.",
        )
    }
}

/// The output recorded when the knowledge search found nothing.
pub fn empty_context_output() -> (s: String)
    ensures
        s@ == "RAG context is empty. Please ingest additional sources for higher quality results."@,
{
    to_owned_string("RAG context is empty. Please ingest additional sources for higher quality results.")
}

/// The status sent when the web phase fails.
pub fn web_failure_status(error: &str) -> (s: String)
    ensures
        s@ == "Web search failed, continuing with RAG only: "@ + error@,
{
    let mut s = to_owned_string("Web search failed, continuing with RAG only: ");
    push_str(&mut s, error);
    s
}

// ---------------------------------------------------------------------------
// The evidence record of a search run
// ---------------------------------------------------------------------------

/// Which search flow produced the evidence.
#[derive(Debug, Clone, Copy, PartialEq, Eq, Structural)]
pub enum SearchStrategy {
    Quick,
    Deep,
}

/// A question the evidence leaves open.
#[derive(Debug, Clone)]
pub struct EvidenceGap {
    pub topic: String,
    pub reason: String,
}

/// What a search run found and how: the queries, where it looked, the web
/// results, the claims drawn from knowledge chunks and the open gaps.
#[derive(Debug, Clone)]
pub struct SearchEvidence {
    pub strategy: SearchStrategy,
    pub query_plan: Vec<String>,
    pub explored_sources: Vec<String>,
    pub results: Vec<SearchResult>,
    pub claims: Vec<ClaimDraft>,
    pub gaps: Vec<EvidenceGap>,
}

/// What the quick search does once the knowledge search has answered.
#[derive(Debug)]
pub enum QuickSearchNext {
    /// Nothing was found: the message is streamed, the evidence and output
    /// recorded, and the node ends without asking the model.
    FinishEmpty { evidence: SearchEvidence, message: String, output: String, node_output: NodeOutput },
    /// Chunks were found: the model writes the answer from them.
    Answer,
}

/// The quick search's next step after a knowledge search that gave
/// `chunk_count` chunks: with none, it ends with a record of one gap (the
/// input, for the reason told to the user) and no claims, and no model
/// request follows; otherwise it goes on to the answer.
pub fn after_knowledge_search(
    input: &str,
    chunk_count: usize,
    web_failed: bool,
    explored_sources: Vec<String>,
    web_results: Vec<SearchResult>,
) -> (next: QuickSearchNext)
    ensures
        chunk_count > 0 ==> next is Answer,
        chunk_count == 0 ==> (next matches QuickSearchNext::FinishEmpty {
            evidence,
            message,
            output,
            node_output,
        } && {
            &&& message@ == empty_context_text(web_failed)
            &&& output@ == "RAG context is empty. Please ingest additional sources for higher quality results."@
            &&& node_output is Final
            &&& evidence.strategy == SearchStrategy::Quick
            &&& string_views(evidence.query_plan@) == seq![input@]
            &&& evidence.explored_sources@ == explored_sources@
            &&& evidence.results@ == web_results@
            &&& evidence.claims@.len() == 0
            &&& evidence.gaps@.len() == 1
            &&& evidence.gaps@[0].topic@ == input@
            &&& evidence.gaps@[0].reason@ == empty_context_text(web_failed)
        }),
{
    if chunk_count > 0 {
        return QuickSearchNext::Answer;
    }
    let message = empty_context_message(web_failed);
    let mut query_plan: Vec<String> = Vec::new();
    query_plan.push(to_owned_string(input));
    let mut gaps: Vec<EvidenceGap> = Vec::new();
    gaps.push(EvidenceGap { topic: to_owned_string(input), reason: empty_context_message(web_failed) });
    proof {
        assert(string_views(query_plan@) =~= seq![input@]);
    }
    let evidence = SearchEvidence {
        strategy: SearchStrategy::Quick,
        query_plan,
        explored_sources,
        results: web_results,
        claims: Vec::new(),
        gaps,
    };
    QuickSearchNext::FinishEmpty {
        evidence,
        message,
        output: empty_context_output(),
        node_output: NodeOutput::Final,
    }
}

/// The evidence of a quick search that found chunks: the input as the only
/// query, a claim for each of the first four chunks and no gaps.
pub fn quick_search_evidence(
    input: &str,
    explored_sources: Vec<String>,
    web_results: Vec<SearchResult>,
    chunks: &Vec<ChunkText>,
) -> (e: SearchEvidence)
    ensures
        e.strategy == SearchStrategy::Quick,
        string_views(e.query_plan@) == seq![input@],
        e.explored_sources@ == explored_sources@,
        e.results@ == web_results@,
        e.claims@.len() == if chunks@.len() < 4 {
            chunks@.len()
        } else {
            4
        },
        forall|i: int|
            0 <= i < e.claims@.len() ==> {
                &&& (#[trigger] e.claims@[i]).topic@ == chunks@[i].source@
                &&& e.claims@[i].summary@ == truncated(first_line_or_empty(chunks@[i].content@), 180)
                &&& string_views(e.claims@[i].citations@) == seq![chunks@[i].chunk_id@, chunks@[i].source@]
            },
        e.gaps@.len() == 0,
{
    let mut query_plan: Vec<String> = Vec::new();
    query_plan.push(to_owned_string(input));
    proof {
        assert(string_views(query_plan@) =~= seq![input@]);
    }
    SearchEvidence {
        strategy: SearchStrategy::Quick,
        query_plan,
        explored_sources,
        results: web_results,
        claims: claims_from_chunks(chunks),
        gaps: Vec::new(),
    }
}

/// The evidence of an agentic search: its sub-queries, the results shown,
/// a claim for each chunk brief (its source, its claim, and the chunk id and
/// source as citations), and, once the report is written, a gap for each
/// of the report's open uncertainties.
pub fn deep_search_evidence(
    sub_queries: Vec<String>,
    explored_sources: Vec<String>,
    display_results: Vec<SearchResult>,
    briefs: &Vec<ChunkBrief>,
) -> (e: SearchEvidence)
    ensures
        e.strategy == SearchStrategy::Deep,
        e.query_plan@ == sub_queries@,
        e.explored_sources@ == explored_sources@,
        e.results@ == display_results@,
        e.claims@.len() == briefs@.len(),
        forall|i: int|
            0 <= i < e.claims@.len() ==> {
                &&& (#[trigger] e.claims@[i]).topic@ == briefs@[i].source@
                &&& e.claims@[i].summary@ == briefs@[i].claim@
                &&& string_views(e.claims@[i].citations@) == seq![briefs@[i].chunk_id@, briefs@[i].source@]
            },
        e.gaps@.len() == 0,
{
    let mut claims: Vec<ClaimDraft> = Vec::new();
    let mut i: usize = 0;
    while i < briefs.len()
        invariant
            0 <= i <= briefs@.len(),
            claims@.len() == i,
            forall|j: int|
                0 <= j < i ==> {
                    &&& (#[trigger] claims@[j]).topic@ == briefs@[j].source@
                    &&& claims@[j].summary@ == briefs@[j].claim@
                    &&& string_views(claims@[j].citations@) == seq![briefs@[j].chunk_id@, briefs@[j].source@]
                },
        decreases briefs.len() - i,
    {
        let b = &briefs[i];
        let mut citations: Vec<String> = Vec::new();
        citations.push(b.chunk_id.clone());
        citations.push(b.source.clone());
        proof {
            assert(string_views(citations@) =~= seq![b.chunk_id@, b.source@]);
        }
        claims.push(ClaimDraft { topic: b.source.clone(), summary: b.claim.clone(), citations });
        i = i + 1;
    }
    SearchEvidence {
        strategy: SearchStrategy::Deep,
        query_plan: sub_queries,
        explored_sources,
        results: display_results,
        claims,
        gaps: Vec::new(),
    }
}

/// The gaps a report leaves: one for each open uncertainty, on the input.
pub fn report_gaps(input: &str, uncertainties: &Vec<String>) -> (gaps: Vec<EvidenceGap>)
    ensures
        gaps@.len() == uncertainties@.len(),
        forall|i: int|
            0 <= i < gaps@.len() ==> (#[trigger] gaps@[i]).topic@ == input@ && gaps@[i].reason@
                == uncertainties@[i]@,
{
    let mut gaps: Vec<EvidenceGap> = Vec::new();
    let mut i: usize = 0;
    while i < uncertainties.len()
        invariant
            0 <= i <= uncertainties@.len(),
            gaps@.len() == i,
            forall|j: int|
                0 <= j < i ==> (#[trigger] gaps@[j]).topic@ == input@ && gaps@[j].reason@
                    == uncertainties@[j]@,
        decreases uncertainties.len() - i,
    {
        gaps.push(EvidenceGap { topic: to_owned_string(input), reason: uncertainties[i].clone() });
        i = i + 1;
    }
    gaps
}

// ---------------------------------------------------------------------------
// JSON payloads in tool output
// ---------------------------------------------------------------------------

/// Index of the first character of `s` that is one of `a`, `b`.
pub open spec fn first_of(s: Seq<char>, a: char, b: char) -> Option<nat>
    decreases s.len(),
{
    if s.len() == 0 {
        None
    } else if s[0] == a || s[0] == b {
        Some(0)
    } else {
        match first_of(s.drop_first(), a, b) {
            Some(i) => Some(i + 1),
            None => None,
        }
    }
}

/// Index of the last character of `s` that is one of `a`, `b`.
pub open spec fn last_of(s: Seq<char>, a: char, b: char) -> Option<nat>
    decreases s.len(),
{
    if s.len() == 0 {
        None
    } else if s.last() == a || s.last() == b {
        Some((s.len() - 1) as nat)
    } else {
        last_of(s.drop_last(), a, b)
    }
}

/// The part of a tool's output that may hold a JSON payload: the trimmed
/// output from its first `[` or `{` to its last `]` or `}`.
pub open spec fn json_candidate_of(output: Seq<char>) -> Option<Seq<char>> {
    let t = trim(output);
    match (first_of(t, '[', '{'), last_of(t, ']', '}')) {
        (Some(start), Some(end)) => if end < start {
            None
        } else {
            Some(t.subrange(start as int, end as int + 1))
        },
        _ => None,
    }
}

proof fn lemma_first_of(s: Seq<char>, a: char, b: char, k: int)
    requires
        0 <= k <= s.len(),
        forall|j: int| 0 <= j < k ==> s[j] != a && s[j] != b,
    ensures
        first_of(s, a, b) == match first_of(s.skip(k), a, b) {
            Some(i) => Some((i + k) as nat),
            None => None::<nat>,
        },
    decreases k,
{
    if k > 0 {
        assert(s.skip(1).skip(k - 1) =~= s.skip(k));
        assert(s.drop_first() =~= s.skip(1));
        lemma_first_of(s.drop_first(), a, b, k - 1);
    } else {
        assert(s.skip(0) =~= s);
    }
}

proof fn lemma_last_of(s: Seq<char>, a: char, b: char, k: int)
    requires
        0 <= k <= s.len(),
        forall|j: int| k <= j < s.len() ==> s[j] != a && s[j] != b,
    ensures
        last_of(s, a, b) == last_of(s.take(k), a, b),
    decreases s.len() - k,
{
    if k < s.len() {
        assert(s.drop_last().take(k) =~= s.take(k));
        lemma_last_of(s.drop_last(), a, b, k);
    } else {
        assert(s.take(k) =~= s);
    }
}

/// The part of a tool's output that may hold a JSON payload.
pub fn json_candidate(output: &str) -> (r: Option<String>)
    ensures
        match json_candidate_of(output@) {
            Some(c) => r matches Some(s) && s@ == c,
            None => r is None,
        },
{
    let t = trim_str(output);
    let v = chars_of(t.as_str());
    let n = v.len();
    let mut start: usize = 0;
    while start < n && v[start] != '[' && v[start] != '{'
        invariant
            n == v@.len(),
            0 <= start <= n,
            forall|j: int| 0 <= j < start ==> v@[j] != '[' && v@[j] != '{',
        decreases n - start,
    {
        start = start + 1;
    }
    proof {
        lemma_first_of(v@, '[', '{', start as int);
        if start == n {
            assert(v@.skip(n as int) =~= Seq::<char>::empty());
        } else {
            assert(v@.skip(start as int)[0] == v@[start as int]);
        }
    }
    if start == n {
        return None;
    }
    let mut end: usize = n;
    while end > 0 && v[end - 1] != ']' && v[end - 1] != '}'
        invariant
            n == v@.len(),
            0 <= end <= n,
            forall|j: int| end <= j < n ==> v@[j] != ']' && v@[j] != '}',
        decreases end,
    {
        end = end - 1;
    }
    proof {
        lemma_last_of(v@, ']', '}', end as int);
        if end == 0 {
            assert(v@.take(0) =~= Seq::<char>::empty());
        } else {
            assert(v@.take(end as int).last() == v@[end - 1]);
        }
    }
    if end == 0 || end - 1 < start {
        return None;
    }
    Some(string_of_range(&v, start, end))
}

/// The document a model's JSON answer holds: the whole text when it parses,
/// else the part from its first bracket to its last.
pub open spec fn json_payload_of(output: Seq<char>) -> Option<JsonValue> {
    match parsed_json(output) {
        Some(v) => Some(v),
        None => match json_candidate_of(output) {
            Some(c) => parsed_json(c),
            None => None,
        },
    }
}

/// Reads the JSON document a model's answer holds.
pub fn parse_json_payload(output: &str) -> (r: Option<JsonValue>)
    ensures
        r == json_payload_of(output@),
{
    match parse_json(output) {
        Some(v) => Some(v),
        None => match json_candidate(output) {
            Some(c) => parse_json(c.as_str()),
            None => None,
        },
    }
}

// ---------------------------------------------------------------------------
// Sub-queries
// ---------------------------------------------------------------------------

/// `q` trimmed is added to `acc` unless it is empty or already there.
pub open spec fn add_query(acc: Seq<Seq<char>>, q: Seq<char>) -> Seq<Seq<char>> {
    let t = trim(q);
    if t.len() > 0 && !acc.contains(t) {
        acc.push(t)
    } else {
        acc
    }
}

/// The queries after adding each of `parsed` in turn.
pub open spec fn gather_queries(acc: Seq<Seq<char>>, parsed: Seq<Seq<char>>) -> Seq<Seq<char>>
    decreases parsed.len(),
{
    if parsed.len() == 0 {
        acc
    } else {
        add_query(gather_queries(acc, parsed.drop_last()), parsed.last())
    }
}

/// The search plan: the user's input, then the model's distinct non-empty
/// trimmed sub-queries, at most five in all.
pub open spec fn query_list(input: Seq<char>, parsed: Seq<Seq<char>>) -> Seq<Seq<char>> {
    let all = gather_queries(seq![input], parsed);
    if all.len() <= 5 {
        all
    } else {
        all.take(5)
    }
}

/// Gathering keeps the queries gathered so far in front and adds no query
/// twice.
proof fn lemma_gather_distinct(acc: Seq<Seq<char>>, parsed: Seq<Seq<char>>)
    requires
        acc.no_duplicates(),
    ensures
        gather_queries(acc, parsed).no_duplicates(),
        gather_queries(acc, parsed).len() >= acc.len(),
        gather_queries(acc, parsed).take(acc.len() as int) == acc,
    decreases parsed.len(),
{
    if parsed.len() > 0 {
        lemma_gather_distinct(acc, parsed.drop_last());
        let g = gather_queries(acc, parsed.drop_last());
        let t = trim(parsed.last());
        if t.len() > 0 && !g.contains(t) {
            assert(g.push(t).take(acc.len() as int) =~= g.take(acc.len() as int));
            assert forall|i: int, j: int| 0 <= i < j < g.push(t).len() implies g.push(t)[i] != g.push(t)[j] by {
                if j == g.len() {
                    assert(g.push(t)[i] == g[i]);
                }
            }
        }
    }
}

/// The search plan starts with the user's input, has at most five queries
/// and no query twice.
pub proof fn lemma_query_plan_shape(input: Seq<char>, parsed: Seq<Seq<char>>)
    ensures
        query_list(input, parsed).len() >= 1,
        query_list(input, parsed).len() <= 5,
        query_list(input, parsed)[0] == input,
        query_list(input, parsed).no_duplicates(),
{
    let one = seq![input];
    assert(one.no_duplicates());
    lemma_gather_distinct(one, parsed);
    let all = gather_queries(one, parsed);
    assert(all[0] == all.take(1)[0]);
    if all.len() > 5 {
        assert forall|i: int, j: int| 0 <= i < j < all.take(5).len() implies all.take(5)[i] != all.take(5)[j] by {
            assert(all.take(5)[i] == all[i]);
            assert(all.take(5)[j] == all[j]);
        }
    }
}

/// Builds the search plan from the user's input and the model's sub-queries.
pub fn plan_sub_queries(input: &str, parsed: Vec<String>) -> (out: Vec<String>)
    ensures
        string_views(out@) == query_list(input@, string_views(parsed@)),
{
    let ghost p = string_views(parsed@);
    let mut queries: Vec<String> = Vec::new();
    queries.push(to_owned_string(input));
    let mut i: usize = 0;
    assert(string_views(queries@) =~= seq![input@]);
    assert(p.take(0) =~= Seq::<Seq<char>>::empty());
    while i < parsed.len()
        invariant
            p == string_views(parsed@),
            0 <= i <= parsed@.len(),
            string_views(queries@) == gather_queries(seq![input@], p.take(i as int)),
        decreases parsed.len() - i,
    {
        let q = trim_str(parsed[i].as_str());
        let ghost before = string_views(queries@);
        let mut seen = false;
        let mut k: usize = 0;
        while k < queries.len()
            invariant
                before == string_views(queries@),
                0 <= k <= queries@.len(),
                seen <==> exists|j: int| 0 <= j < k && before[j] == q@,
            decreases queries.len() - k,
        {
            assert(before[k as int] == queries@[k as int]@);
            if str_eq(queries[k].as_str(), q.as_str()) {
                seen = true;
            }
            k = k + 1;
        }
        proof {
            assert(p.take(i + 1).drop_last() =~= p.take(i as int));
            assert(p.take(i + 1).last() == p[i as int]);
            assert(p[i as int] == parsed@[i as int]@);
            if seen {
                let j = choose|j: int| 0 <= j < k && before[j] == q@;
                assert(before.contains(q@));
            } else {
                assert forall|j: int| 0 <= j < before.len() implies before[j] != q@ by {}
            }
        }
        if q.unicode_len() > 0 && !seen {
            queries.push(q);
            proof {
                assert(string_views(queries@) =~= before.push(trim(p[i as int])));
            }
        }
        i = i + 1;
    }
    assert(p.take(parsed@.len() as int) =~= p);
    if queries.len() > 5 {
        queries.truncate(5);
        proof {
            assert(string_views(queries@) =~= gather_queries(seq![input@], p).take(5));
        }
    }
    queries
}

// ---------------------------------------------------------------------------
// Web results of the agentic flow
// ---------------------------------------------------------------------------

/// How many sub-queries are searched on the web, and how many results of
/// each are kept.
pub open spec fn web_query_limit() -> nat {
    3
}

pub open spec fn web_results_per_query() -> nat {
    2
}

/// The (query, result) positions kept from query `q`, whose search gave
/// `found` results (`None` when it failed).
pub open spec fn query_picks(q: int, found: Option<usize>) -> Seq<(usize, usize)> {
    match found {
        None => seq![],
        Some(n) => Seq::new(
            if n < web_results_per_query() {
                n as nat
            } else {
                web_results_per_query()
            },
            |j: int| (q as usize, j as usize),
        ),
    }
}

/// The kept positions over the searches `found`, in order.
pub open spec fn picks_of(found: Seq<Option<usize>>) -> Seq<(usize, usize)>
    decreases found.len(),
{
    if found.len() == 0 {
        seq![]
    } else {
        picks_of(found.drop_last()) + query_picks(found.len() - 1, found.last())
    }
}

/// Which web results the agentic flow keeps: `found[q]` is how many results
/// the search of sub-query `q` gave (`None` when it failed); only the first
/// three sub-queries are searched, and the first two results of each are
/// kept, as (query, result) positions in order.
pub fn web_picks(found: &Vec<Option<usize>>) -> (out: Vec<(usize, usize)>)
    ensures
        out@ == picks_of(at_most(found@, web_query_limit())),
{
    let limit: usize = if found.len() < 3 {
        found.len()
    } else {
        3
    };
    let ghost searched = at_most(found@, web_query_limit());
    assert(searched =~= found@.take(limit as int));
    let mut out: Vec<(usize, usize)> = Vec::new();
    let mut q: usize = 0;
    assert(found@.take(0) =~= Seq::<Option<usize>>::empty());
    while q < limit
        invariant
            limit <= found@.len(),
            limit <= 3,
            0 <= q <= limit,
            out@ == picks_of(found@.take(q as int)),
        decreases limit - q,
    {
        let ghost before = out@;
        assert(found@.take(q + 1).drop_last() =~= found@.take(q as int));
        assert(found@.take(q + 1).last() == found@[q as int]);
        match found[q] {
            None => {
                assert(query_picks(q as int, None) =~= Seq::<(usize, usize)>::empty());
                assert(before + query_picks(q as int, None) =~= before);
            },
            Some(n) => {
                let keep: usize = if n < 2 {
                    n
                } else {
                    2
                };
                let mut j: usize = 0;
                while j < keep
                    invariant
                        0 <= j <= keep,
                        keep <= 2,
                        q < 3,
                        out@ == before + query_picks(q as int, Some(n)).take(j as int),
                        query_picks(q as int, Some(n)).len() == keep,
                    decreases keep - j,
                {
                    out.push((q, j));
                    proof {
                        assert(query_picks(q as int, Some(n)).take(j + 1) =~= query_picks(
                            q as int,
                            Some(n),
                        ).take(j as int).push((q, j)));
                    }
                    j = j + 1;
                }
                assert(query_picks(q as int, Some(n)).take(keep as int) =~= query_picks(
                    q as int,
                    Some(n),
                ));
            },
        }
        q = q + 1;
    }
    out
}

// ---------------------------------------------------------------------------
// Retrieved chunks
// ---------------------------------------------------------------------------

/// The text parts of a retrieved knowledge chunk.
#[derive(Debug, Clone)]
pub struct ChunkText {
    pub chunk_id: String,
    pub source: String,
    pub content: String,
}

/// A claim drawn from a chunk: its source, the first meaningful line of its
/// content cut to 180 characters, and its citations.
#[derive(Debug, Clone)]
pub struct ClaimDraft {
    pub topic: String,
    pub summary: String,
    pub citations: Vec<String>,
}

/// The first non-blank line, trimmed, or empty.
pub open spec fn first_line_or_empty(text: Seq<char>) -> Seq<char> {
    match first_nonblank(lines(text)) {
        Some(l) => l,
        None => Seq::<char>::empty(),
    }
}

/// The first non-blank line, trimmed, or the whole text trimmed.
pub open spec fn first_line_or_text(text: Seq<char>) -> Seq<char> {
    match first_nonblank(lines(text)) {
        Some(l) => l,
        None => trim(text),
    }
}

/// The claim of the quick search for one chunk.
pub fn claim_from_chunk(chunk: &ChunkText) -> (c: ClaimDraft)
    ensures
        c.topic@ == chunk.source@,
        c.summary@ == truncated(first_line_or_empty(chunk.content@), 180),
        string_views(c.citations@) == seq![chunk.chunk_id@, chunk.source@],
{
    let line = crate::graph::search_support::first_meaningful_line_or_empty(chunk.content.as_str());
    let summary = truncate_chars(line.as_str(), 180);
    let mut citations: Vec<String> = Vec::new();
    citations.push(chunk.chunk_id.clone());
    citations.push(chunk.source.clone());
    proof {
        assert(string_views(citations@) =~= seq![chunk.chunk_id@, chunk.source@]);
    }
    ClaimDraft { topic: chunk.source.clone(), summary, citations }
}

/// The claims of the quick search: one for each of the first four chunks.
pub fn claims_from_chunks(chunks: &Vec<ChunkText>) -> (out: Vec<ClaimDraft>)
    ensures
        out@.len() == if chunks@.len() < 4 {
            chunks@.len()
        } else {
            4
        },
        forall|i: int|
            0 <= i < out@.len() ==> {
                &&& (#[trigger] out@[i]).topic@ == chunks@[i].source@
                &&& out@[i].summary@ == truncated(first_line_or_empty(chunks@[i].content@), 180)
                &&& string_views(out@[i].citations@) == seq![chunks@[i].chunk_id@, chunks@[i].source@]
            },
{
    let n = if chunks.len() < 4 {
        chunks.len()
    } else {
        4
    };
    let mut out: Vec<ClaimDraft> = Vec::new();
    let mut i: usize = 0;
    while i < n
        invariant
            n <= chunks@.len(),
            n == if chunks@.len() < 4 {
                chunks@.len()
            } else {
                4
            },
            0 <= i <= n,
            out@.len() == i,
            forall|j: int|
                0 <= j < i ==> {
                    &&& (#[trigger] out@[j]).topic@ == chunks@[j].source@
                    &&& out@[j].summary@ == truncated(first_line_or_empty(chunks@[j].content@), 180)
                    &&& string_views(out@[j].citations@) == seq![chunks@[j].chunk_id@, chunks@[j].source@]
                },
        decreases n - i,
    {
        out.push(claim_from_chunk(&chunks[i]));
        i = i + 1;
    }
    out
}

/// `"RAG Chunk <id>"`.
pub open spec fn chunk_title(chunk_id: Seq<char>) -> Seq<char> {
    "RAG Chunk "@ + chunk_id
}

/// The results shown for the selected chunks: the first fifteen, titled by
/// chunk id, linked to their source, with the content cut to 240 characters.
pub fn chunk_display_results(chunks: &Vec<ChunkText>) -> (out: Vec<SearchResult>)
    ensures
        out@.len() == if chunks@.len() < 15 {
            chunks@.len()
        } else {
            15
        },
        forall|i: int|
            0 <= i < out@.len() ==> {
                &&& (#[trigger] out@[i]).title@ == chunk_title(chunks@[i].chunk_id@)
                &&& out@[i].url@ == chunks@[i].source@
                &&& out@[i].snippet@ == truncated(chunks@[i].content@, 240)
            },
{
    let n = if chunks.len() < 15 {
        chunks.len()
    } else {
        15
    };
    let mut out: Vec<SearchResult> = Vec::new();
    let mut i: usize = 0;
    while i < n
        invariant
            n <= chunks@.len(),
            n == if chunks@.len() < 15 {
                chunks@.len()
            } else {
                15
            },
            0 <= i <= n,
            out@.len() == i,
            forall|j: int|
                0 <= j < i ==> {
                    &&& (#[trigger] out@[j]).title@ == chunk_title(chunks@[j].chunk_id@)
                    &&& out@[j].url@ == chunks@[j].source@
                    &&& out@[j].snippet@ == truncated(chunks@[j].content@, 240)
                },
        decreases n - i,
    {
        let chunk = &chunks[i];
        let mut title = to_owned_string("RAG Chunk ");
        push_str(&mut title, chunk.chunk_id.as_str());
        let snippet = truncate_chars(chunk.content.as_str(), 240);
        out.push(SearchResult { title, url: chunk.source.clone(), snippet });
        i = i + 1;
    }
    out
}

/// The text of a chunk's surrounding window: its chunks' contents joined by
/// blank lines, when that holds more than whitespace.
pub open spec fn window_text(contents: Seq<Seq<char>>) -> Option<Seq<char>> {
    let text = joined(contents, "\n\n"@);
    if trim(text).len() > 0 {
        Some(text)
    } else {
        None
    }
}

/// The content that replaces a selected chunk's own once its window has
/// been fetched, if the window holds any text.
pub fn expanded_content(window: &Vec<String>) -> (r: Option<String>)
    ensures
        match window_text(string_views(window@)) {
            Some(t) => r matches Some(s) && s@ == t,
            None => r is None,
        },
{
    let text = join_strings(window, "\n\n");
    if trim_str(text.as_str()).unicode_len() > 0 {
        Some(text)
    } else {
        None
    }
}

/// A selected chunk as the final stages see it: where it came from and the
/// claim it supports.
#[derive(Debug, Clone)]
pub struct ChunkBrief {
    pub source: String,
    pub chunk_id: String,
    pub claim: String,
}

/// Briefs for the first six selected chunks: the claim is the first
/// meaningful line (or the trimmed content) cut to 180 characters.
pub fn build_chunk_briefs(chunks: &Vec<ChunkText>) -> (out: Vec<ChunkBrief>)
    ensures
        out@.len() == if chunks@.len() < 6 {
            chunks@.len()
        } else {
            6
        },
        forall|i: int|
            0 <= i < out@.len() ==> {
                &&& (#[trigger] out@[i]).source@ == chunks@[i].source@
                &&& out@[i].chunk_id@ == chunks@[i].chunk_id@
                &&& out@[i].claim@ == truncated(first_line_or_text(chunks@[i].content@), 180)
            },
{
    let n = if chunks.len() < 6 {
        chunks.len()
    } else {
        6
    };
    let mut out: Vec<ChunkBrief> = Vec::new();
    let mut i: usize = 0;
    while i < n
        invariant
            n <= chunks@.len(),
            n == if chunks@.len() < 6 {
                chunks@.len()
            } else {
                6
            },
            0 <= i <= n,
            out@.len() == i,
            forall|j: int|
                0 <= j < i ==> {
                    &&& (#[trigger] out@[j]).source@ == chunks@[j].source@
                    &&& out@[j].chunk_id@ == chunks@[j].chunk_id@
                    &&& out@[j].claim@ == truncated(first_line_or_text(chunks@[j].content@), 180)
                },
        decreases n - i,
    {
        let chunk = &chunks[i];
        let line = first_meaningful_line(chunk.content.as_str());
        let claim = truncate_chars(line.as_str(), 180);
        out.push(ChunkBrief { source: chunk.source.clone(), chunk_id: chunk.chunk_id.clone(), claim });
        i = i + 1;
    }
    out
}

// ---------------------------------------------------------------------------
// The report brief
// ---------------------------------------------------------------------------

/// The Unicode lower-case mapping of a string (`str::to_lowercase`).
pub uninterp spec fn lowercase(s: Seq<char>) -> Seq<char>;

/// `str::to_lowercase`.
///
/// The standard library maps each character by the Unicode lower-case
/// tables; the result is named `lowercase` and depends on the text alone.
#[verifier::external_body]
fn to_lowercase(s: &str) -> (r: String)
    ensures
        r@ == lowercase(s@),
{
    s.to_lowercase()
}

/// The trimmed non-blank lines, in order.
pub open spec fn nonblank_lines(ls: Seq<Seq<char>>) -> Seq<Seq<char>>
    decreases ls.len(),
{
    if ls.len() == 0 {
        seq![]
    } else if trim(ls[0]).len() > 0 {
        seq![trim(ls[0])] + nonblank_lines(ls.drop_first())
    } else {
        nonblank_lines(ls.drop_first())
    }
}

/// A line that reads as a list item.
pub open spec fn is_finding(l: Seq<char>) -> bool {
    starts_with(l, "- "@) || starts_with(l, "* "@) || starts_with(l, "1."@) || starts_with(l, "2."@)
}

/// `s` without leading `-`, `*` and spaces.
pub open spec fn strip_bullets(s: Seq<char>) -> Seq<char>
    decreases s.len(),
{
    if s.len() > 0 && (s[0] == '-' || s[0] == '*' || s[0] == ' ') {
        strip_bullets(s.drop_first())
    } else {
        s
    }
}

/// The text of a finding: the line without its bullet, trimmed, cut to 160
/// characters.
pub open spec fn finding_text(l: Seq<char>) -> Seq<char> {
    truncated(trim(strip_bullets(l)), 160)
}

/// The first `n` findings of `ls`.
pub open spec fn front_findings(ls: Seq<Seq<char>>, n: nat) -> Seq<Seq<char>>
    decreases ls.len(),
{
    if ls.len() == 0 || n == 0 {
        seq![]
    } else if is_finding(ls[0]) {
        seq![finding_text(ls[0])] + front_findings(ls.drop_first(), (n - 1) as nat)
    } else {
        front_findings(ls.drop_first(), n)
    }
}

/// A line that voices doubt, judged on the line and its lower-case form.
pub open spec fn is_uncertain(l: Seq<char>, low: Seq<char>) -> bool {
    ||| contains_seq(low, "uncertain"@)
    ||| contains_seq(low, "unknown"@)
    ||| contains_seq(low, "may "@)
    ||| contains_seq(low, "might "@)
    ||| contains_seq(l, "不明"@)
    ||| contains_seq(l, "不確実"@)
    ||| contains_seq(l, "追加確認"@)
}

/// The first `n` doubtful lines of `ls` (with `lows` their lower-case
/// forms), each cut to 160 characters.
pub open spec fn front_uncertain(ls: Seq<Seq<char>>, lows: Seq<Seq<char>>, n: nat) -> Seq<Seq<char>>
    decreases ls.len(),
{
    if ls.len() == 0 || n == 0 {
        seq![]
    } else if is_uncertain(ls[0], lows[0]) {
        seq![truncated(ls[0], 160)] + front_uncertain(ls.drop_first(), lows.drop_first(), (n - 1) as nat)
    } else {
        front_uncertain(ls.drop_first(), lows.drop_first(), n)
    }
}

/// The outline used when the report has no text.
pub open spec fn default_outline() -> Seq<char> {
    "Summarize the strongest findings and cite the supporting chunks."@
}

/// `"<chunk id> -> <source>"`.
pub open spec fn citation_line(b: ChunkBrief) -> Seq<char> {
    b.chunk_id@ + " -> "@ + b.source@
}

/// `s` cut to its first `n` items.
pub open spec fn at_most<A>(s: Seq<A>, n: nat) -> Seq<A> {
    if s.len() <= n {
        s
    } else {
        s.take(n as int)
    }
}

/// The brief's lists from the report's non-blank lines `ls`, their
/// lower-case forms `lows`, and the chunk briefs.
pub open spec fn brief_matches(
    out: ReportBrief,
    ls: Seq<Seq<char>>,
    lows: Seq<Seq<char>>,
    briefs: Seq<ChunkBrief>,
) -> bool {
    &&& out.answer_outline@ == if ls.len() > 0 {
        truncated(ls[0], 180)
    } else {
        default_outline()
    }
    &&& string_views(out.key_findings@) == if front_findings(ls, 4).len() > 0 {
        front_findings(ls, 4)
    } else {
        at_most(briefs, 4).map_values(|b: ChunkBrief| b.claim@)
    }
    &&& string_views(out.open_uncertainties@) == front_uncertain(ls, lows, 3)
    &&& string_views(out.citation_map@) == at_most(briefs, 6).map_values(|b: ChunkBrief| citation_line(b))
}

/// `l` with leading `-`, `*` and spaces removed.
fn strip_bullet_chars(l: &str) -> (out: String)
    ensures
        out@ == strip_bullets(l@),
{
    let v = chars_of(l);
    let n = v.len();
    let mut i: usize = 0;
    assert(v@.skip(0) =~= v@);
    while i < n && (v[i] == '-' || v[i] == '*' || v[i] == ' ')
        invariant
            n == v@.len(),
            0 <= i <= n,
            strip_bullets(v@) == strip_bullets(v@.skip(i as int)),
        decreases n - i,
    {
        assert(v@.skip(i as int).drop_first() =~= v@.skip(i + 1));
        i = i + 1;
    }
    let out = string_of_range(&v, i, n);
    assert(v@.subrange(i as int, n as int) =~= v@.skip(i as int));
    out
}

/// Items as bulleted claims: the claims of the first `n` briefs.
fn brief_claims(briefs: &Vec<ChunkBrief>, n: usize) -> (out: Vec<String>)
    ensures
        string_views(out@) == at_most(briefs@, n as nat).map_values(|b: ChunkBrief| b.claim@),
{
    let m = if briefs.len() <= n {
        briefs.len()
    } else {
        n
    };
    let ghost shown = at_most(briefs@, n as nat);
    let mut out: Vec<String> = Vec::new();
    let mut i: usize = 0;
    while i < m
        invariant
            m == shown.len(),
            shown == at_most(briefs@, n as nat),
            m <= briefs@.len(),
            0 <= i <= m,
            string_views(out@) == shown.take(i as int).map_values(|b: ChunkBrief| b.claim@),
        decreases m - i,
    {
        let ghost before = out@;
        let claim = briefs[i].claim.clone();
        out.push(claim);
        proof {
            assert(shown[i as int] == briefs@[i as int]);
            assert(string_views(out@) =~= string_views(before).push(claim@));
            assert(shown.take(i + 1).map_values(|b: ChunkBrief| b.claim@) =~= shown.take(
                i as int,
            ).map_values(|b: ChunkBrief| b.claim@).push(shown[i as int].claim@));
        }
        i = i + 1;
    }
    assert(shown.take(m as int) =~= shown);
    out
}

/// The citation lines of the first six briefs.
fn citation_lines(briefs: &Vec<ChunkBrief>) -> (out: Vec<String>)
    ensures
        string_views(out@) == at_most(briefs@, 6).map_values(|b: ChunkBrief| citation_line(b)),
{
    let m = if briefs.len() <= 6 {
        briefs.len()
    } else {
        6
    };
    let ghost shown = at_most(briefs@, 6);
    let mut out: Vec<String> = Vec::new();
    let mut i: usize = 0;
    while i < m
        invariant
            m == shown.len(),
            shown == at_most(briefs@, 6),
            m <= briefs@.len(),
            0 <= i <= m,
            string_views(out@) == shown.take(i as int).map_values(|b: ChunkBrief| citation_line(b)),
        decreases m - i,
    {
        let b = &briefs[i];
        let mut line = b.chunk_id.clone();
        push_str(&mut line, " -> ");
        push_str(&mut line, b.source.as_str());
        let ghost before = out@;
        out.push(line);
        proof {
            assert(shown[i as int] == briefs@[i as int]);
            assert(string_views(out@) =~= string_views(before).push(line@));
            assert(shown.take(i + 1).map_values(|b: ChunkBrief| citation_line(b)) =~= shown.take(
                i as int,
            ).map_values(|b: ChunkBrief| citation_line(b)).push(citation_line(shown[i as int])));
        }
        i = i + 1;
    }
    assert(shown.take(m as int) =~= shown);
    out
}

/// The report brief from the report's non-blank lines and their lower-case
/// forms: an outline, up to four findings (list items of the report, else
/// the chunk claims), up to three doubtful lines, and the citations.
pub fn brief_from_lines(lines: &Vec<String>, lowered: &Vec<String>, briefs: &Vec<ChunkBrief>) -> (out:
    ReportBrief)
    requires
        lowered@.len() == lines@.len(),
    ensures
        brief_matches(out, string_views(lines@), string_views(lowered@), briefs@),
{
    let ghost ls = string_views(lines@);
    let ghost lows = string_views(lowered@);
    let answer_outline = if lines.len() > 0 {
        truncate_chars(lines[0].as_str(), 180)
    } else {
        to_owned_string("Summarize the strongest findings and cite the supporting chunks.")
    };
    let mut findings: Vec<String> = Vec::new();
    let mut doubts: Vec<String> = Vec::new();
    let mut i: usize = 0;
    assert(ls.skip(0) =~= ls);
    assert(lows.skip(0) =~= lows);
    while i < lines.len()
        invariant
            ls == string_views(lines@),
            lows == string_views(lowered@),
            lowered@.len() == lines@.len(),
            0 <= i <= lines@.len(),
            findings@.len() <= 4,
            doubts@.len() <= 3,
            string_views(findings@) + front_findings(ls.skip(i as int), (4 - findings@.len()) as nat)
                == front_findings(ls, 4),
            string_views(doubts@) + front_uncertain(
                ls.skip(i as int),
                lows.skip(i as int),
                (3 - doubts@.len()) as nat,
            ) == front_uncertain(ls, lows, 3),
        decreases lines.len() - i,
    {
        let line = lines[i].as_str();
        let low = lowered[i].as_str();
        let ghost rest = ls.skip(i as int);
        let ghost rest_low = lows.skip(i as int);
        proof {
            assert(rest[0] == line@);
            assert(rest_low[0] == low@);
            assert(rest.drop_first() =~= ls.skip(i + 1));
            assert(rest_low.drop_first() =~= lows.skip(i + 1));
        }
        let finding = str_starts_with(line, "- ") || str_starts_with(line, "* ") || str_starts_with(
            line,
            "1.",
        ) || str_starts_with(line, "2.");
        if finding && findings.len() < 4 {
            let stripped = strip_bullet_chars(line);
            let t = trim_str(stripped.as_str());
            findings.push(truncate_chars(t.as_str(), 160));
            proof {
                assert(string_views(findings@) =~= string_views(findings@).drop_last().push(
                    finding_text(line@),
                ));
            }
        }
        let doubtful = str_contains(low, "uncertain") || str_contains(low, "unknown") || str_contains(
            low,
            "may ",
        ) || str_contains(low, "might ") || str_contains(line, "不明") || str_contains(
            line,
            "不確実",
        ) || str_contains(line, "追加確認");
        if doubtful && doubts.len() < 3 {
            doubts.push(truncate_chars(line, 160));
        }
        proof {
            assert(string_views(findings@) + front_findings(ls.skip(i + 1), (4 - findings@.len()) as nat)
                =~= front_findings(ls, 4));
            assert(string_views(doubts@) + front_uncertain(
                ls.skip(i + 1),
                lows.skip(i + 1),
                (3 - doubts@.len()) as nat,
            ) =~= front_uncertain(ls, lows, 3));
        }
        i = i + 1;
    }
    proof {
        assert(ls.skip(i as int) =~= Seq::<Seq<char>>::empty());
        assert(string_views(findings@) =~= front_findings(ls, 4));
        assert(string_views(doubts@) =~= front_uncertain(ls, lows, 3));
    }
    let key_findings = if findings.len() > 0 {
        findings
    } else {
        brief_claims(briefs, 4)
    };
    ReportBrief {
        answer_outline,
        key_findings,
        open_uncertainties: doubts,
        citation_map: citation_lines(briefs),
    }
}

/// The trimmed non-blank lines of a text.
pub fn nonblank_text_lines(text: &str) -> (out: Vec<String>)
    ensures
        string_views(out@) == nonblank_lines(lines(text@)),
{
    let v = chars_of(text);
    let spans = line_spans(&v);
    let ghost ls = lines(text@);
    let mut out: Vec<String> = Vec::new();
    let mut k: usize = 0;
    assert(ls.skip(0) =~= ls);
    while k < spans.len()
        invariant
            v@ == text@,
            ls == lines(text@),
            forall|j: int| 0 <= j < spans@.len() ==> (#[trigger] spans@[j]).0 <= spans@[j].1 <= v@.len(),
            spans@.map_values(|p: (usize, usize)| v@.subrange(p.0 as int, p.1 as int)) == ls,
            0 <= k <= spans@.len(),
            string_views(out@) + nonblank_lines(ls.skip(k as int)) == nonblank_lines(ls),
        decreases spans.len() - k,
    {
        let (a, b) = spans[k];
        assert(ls[k as int] == v@.subrange(a as int, b as int));
        assert(ls.skip(k as int)[0] == ls[k as int]);
        assert(ls.skip(k as int).drop_first() =~= ls.skip(k + 1));
        let (s, e) = trim_bounds(&v, a, b);
        if s < e {
            out.push(string_of_range(&v, s, e));
            proof {
                assert(string_views(out@) =~= string_views(out@).drop_last().push(trim(ls[k as int])));
            }
        }
        proof {
            assert(string_views(out@) + nonblank_lines(ls.skip(k + 1)) =~= nonblank_lines(ls));
        }
        k = k + 1;
    }
    assert(ls.skip(k as int) =~= Seq::<Seq<char>>::empty());
    assert(string_views(out@) =~= nonblank_lines(ls));
    out
}

/// The report brief of a research report and the chunk briefs: its
/// non-blank lines, judged for doubt on their lower-case forms.
pub fn build_report_brief(report: &str, briefs: &Vec<ChunkBrief>) -> (out: ReportBrief)
    ensures
        brief_matches(
            out,
            nonblank_lines(lines(report@)),
            nonblank_lines(lines(report@)).map_values(|l: Seq<char>| lowercase(l)),
            briefs@,
        ),
{
    let ls = nonblank_text_lines(report);
    let mut lowered: Vec<String> = Vec::new();
    let mut i: usize = 0;
    while i < ls.len()
        invariant
            0 <= i <= ls@.len(),
            string_views(lowered@) == string_views(ls@).take(i as int).map_values(
                |l: Seq<char>| lowercase(l),
            ),
        decreases ls.len() - i,
    {
        let ghost before = lowered@;
        let low = to_lowercase(ls[i].as_str());
        lowered.push(low);
        proof {
            assert(string_views(ls@)[i as int] == ls@[i as int]@);
            assert(string_views(lowered@) =~= string_views(before).push(low@));
            assert(string_views(ls@).take(i + 1).map_values(|l: Seq<char>| lowercase(l))
                =~= string_views(ls@).take(i as int).map_values(|l: Seq<char>| lowercase(l)).push(
                lowercase(string_views(ls@)[i as int]),
            ));
        }
        i = i + 1;
    }
    assert(string_views(ls@).take(ls@.len() as int) =~= string_views(ls@));
    brief_from_lines(&ls, &lowered, briefs)
}

} // verus!
