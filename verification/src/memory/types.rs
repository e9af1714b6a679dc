//! Enumerations of the memory store and their text forms.

use vstd::prelude::*;

use crate::text::{eq_ignore_ascii_case, push_str, str_eq, str_eq_ignore_ascii_case, to_owned_string};

verus! {

broadcast use vstd::string::group_string_axioms;

/// Memory tier used by the decay model.
#[derive(Debug, Clone, Copy, PartialEq, Eq, Structural)]
pub enum MemoryLayer {
    /// Long-term layer: slower decay.
    LML,
    /// Short-term layer: faster decay.
    SML,
}

impl Default for MemoryLayer {
    /// `MemoryLayer::SML`.
    fn default() -> (l: MemoryLayer)
        ensures
            l == MemoryLayer::SML,
    {
        MemoryLayer::SML
    }
}

pub open spec fn layer_name(l: MemoryLayer) -> Seq<char> {
    match l {
        MemoryLayer::LML => "LML"@,
        MemoryLayer::SML => "SML"@,
    }
}

/// The layer stored as text: `LML` in any ASCII case, else `SML`.
pub open spec fn layer_from_text(s: Seq<char>) -> MemoryLayer {
    if eq_ignore_ascii_case(s, "LML"@) {
        MemoryLayer::LML
    } else {
        MemoryLayer::SML
    }
}

impl MemoryLayer {
    pub fn as_str(self) -> (s: &'static str)
        ensures
            s@ == layer_name(self),
    {
        match self {
            MemoryLayer::LML => "LML",
            MemoryLayer::SML => "SML",
        }
    }
}

/// Reads a stored layer name (`parse_memory_layer`).
pub fn parse_memory_layer(raw: &str) -> (l: MemoryLayer)
    ensures
        l == layer_from_text(raw@),
{
    if str_eq_ignore_ascii_case(raw, "LML") {
        MemoryLayer::LML
    } else {
        MemoryLayer::SML
    }
}

/// Time unit for decay calculations.
#[derive(Debug, Clone, Copy, PartialEq, Eq, Structural)]
pub enum TimeUnit {
    Hours,
    Days,
}

impl Default for TimeUnit {
    /// `TimeUnit::Days`.
    fn default() -> (t: TimeUnit)
        ensures
            t == TimeUnit::Days,
    {
        TimeUnit::Days
    }
}

/// Scope of a memory event: which memory pool it belongs to.
#[derive(Debug, Clone, Copy, PartialEq, Eq, Structural)]
pub enum MemoryScope {
    /// Character memory, tied to a persona.
    Char,
    /// Professional memory, tied to general knowledge and tasks.
    Prof,
}

impl Default for MemoryScope {
    /// `MemoryScope::Char`.
    fn default() -> (s: MemoryScope)
        ensures
            s == MemoryScope::Char,
    {
        MemoryScope::Char
    }
}

pub open spec fn scope_name(s: MemoryScope) -> Seq<char> {
    match s {
        MemoryScope::Char => "CHAR"@,
        MemoryScope::Prof => "PROF"@,
    }
}

/// The scope a name selects, up to ASCII case; `None` for other names.
pub open spec fn scope_from_text(s: Seq<char>) -> Option<MemoryScope> {
    if eq_ignore_ascii_case(s, "PROF"@) {
        Some(MemoryScope::Prof)
    } else if eq_ignore_ascii_case(s, "CHAR"@) {
        Some(MemoryScope::Char)
    } else {
        None
    }
}

impl MemoryScope {
    pub fn as_str(self) -> (s: &'static str)
        ensures
            s@ == scope_name(self),
    {
        match self {
            MemoryScope::Char => "CHAR",
            MemoryScope::Prof => "PROF",
        }
    }

    /// Parses a scope name, ignoring ASCII case.  An unknown name is a bad
    /// request, whose message is returned.
    pub fn from_str(s: &str) -> (r: Result<MemoryScope, String>)
        ensures
            match scope_from_text(s@) {
                Some(scope) => r == Ok::<MemoryScope, String>(scope),
                None => r matches Err(m) && m@ == "Invalid MemoryScope: "@ + s@,
            },
    {
        if str_eq_ignore_ascii_case(s, "PROF") {
            Ok(MemoryScope::Prof)
        } else if str_eq_ignore_ascii_case(s, "CHAR") {
            Ok(MemoryScope::Char)
        } else {
            let mut m = to_owned_string("Invalid MemoryScope: ");
            push_str(&mut m, s);
            Err(m)
        }
    }
}

/// Kind of relationship between two memory events.
#[derive(Debug, Clone, Copy, PartialEq, Eq, Structural)]
pub enum MemoryEdgeType {
    /// Temporal adjacency within an episode.
    TemporalNext,
    /// Semantic similarity link across episodes.
    SemanticNeighbor,
    /// Provenance: the `from` event was compressed into the `to` event.
    CompressedFrom,
}

pub open spec fn edge_type_name(t: MemoryEdgeType) -> Seq<char> {
    match t {
        MemoryEdgeType::TemporalNext => "temporal_next"@,
        MemoryEdgeType::SemanticNeighbor => "semantic_neighbor"@,
        MemoryEdgeType::CompressedFrom => "compressed_from"@,
    }
}

/// The edge kind a stored name selects; unknown names are `TemporalNext`.
pub open spec fn edge_type_from_text(s: Seq<char>) -> MemoryEdgeType {
    if s == "semantic_neighbor"@ {
        MemoryEdgeType::SemanticNeighbor
    } else if s == "compressed_from"@ {
        MemoryEdgeType::CompressedFrom
    } else {
        MemoryEdgeType::TemporalNext
    }
}

impl MemoryEdgeType {
    pub fn as_str(self) -> (s: &'static str)
        ensures
            s@ == edge_type_name(self),
    {
        match self {
            MemoryEdgeType::TemporalNext => "temporal_next",
            MemoryEdgeType::SemanticNeighbor => "semantic_neighbor",
            MemoryEdgeType::CompressedFrom => "compressed_from",
        }
    }

    pub fn parse(s: &str) -> (t: MemoryEdgeType)
        ensures
            t == edge_type_from_text(s@),
    {
        if str_eq(s, "semantic_neighbor") {
            MemoryEdgeType::SemanticNeighbor
        } else if str_eq(s, "compressed_from") {
            MemoryEdgeType::CompressedFrom
        } else {
            MemoryEdgeType::TemporalNext
        }
    }
}

/// Status of a compaction job.
#[derive(Debug, Clone, Copy, PartialEq, Eq, Structural)]
pub enum CompactionStatus {
    Queued,
    Running,
    Done,
    Failed,
}

pub open spec fn status_name(s: CompactionStatus) -> Seq<char> {
    match s {
        CompactionStatus::Queued => "queued"@,
        CompactionStatus::Running => "running"@,
        CompactionStatus::Done => "done"@,
        CompactionStatus::Failed => "failed"@,
    }
}

/// The status a stored name selects (exact match); `None` for others.
pub open spec fn status_from_text(s: Seq<char>) -> Option<CompactionStatus> {
    if s == "queued"@ {
        Some(CompactionStatus::Queued)
    } else if s == "running"@ {
        Some(CompactionStatus::Running)
    } else if s == "done"@ {
        Some(CompactionStatus::Done)
    } else if s == "failed"@ {
        Some(CompactionStatus::Failed)
    } else {
        None
    }
}

impl CompactionStatus {
    pub fn as_str(self) -> (s: &'static str)
        ensures
            s@ == status_name(self),
    {
        match self {
            CompactionStatus::Queued => "queued",
            CompactionStatus::Running => "running",
            CompactionStatus::Done => "done",
            CompactionStatus::Failed => "failed",
        }
    }

    /// Parses a status name.  An unknown name is a bad request, whose
    /// message is returned.
    pub fn from_str(s: &str) -> (r: Result<CompactionStatus, String>)
        ensures
            match status_from_text(s@) {
                Some(st) => r == Ok::<CompactionStatus, String>(st),
                None => r matches Err(m) && m@ == "Invalid CompactionStatus: "@ + s@,
            },
    {
        if str_eq(s, "queued") {
            Ok(CompactionStatus::Queued)
        } else if str_eq(s, "running") {
            Ok(CompactionStatus::Running)
        } else if str_eq(s, "done") {
            Ok(CompactionStatus::Done)
        } else if str_eq(s, "failed") {
            Ok(CompactionStatus::Failed)
        } else {
            let mut m = to_owned_string("Invalid CompactionStatus: ");
            push_str(&mut m, s);
            Err(m)
        }
    }
}

/// Role of the speaker a memory event came from.
#[derive(Debug, Clone, Copy, PartialEq, Eq, Structural)]
pub enum SourceRole {
    User,
    Assistant,
    Tool,
    System,
}

pub open spec fn role_name(r: SourceRole) -> Seq<char> {
    match r {
        SourceRole::User => "user"@,
        SourceRole::Assistant => "assistant"@,
        SourceRole::Tool => "tool"@,
        SourceRole::System => "system"@,
    }
}

/// The role a stored name selects; unknown names are `User`.
pub open spec fn role_from_text(s: Seq<char>) -> SourceRole {
    if s == "assistant"@ {
        SourceRole::Assistant
    } else if s == "tool"@ {
        SourceRole::Tool
    } else if s == "system"@ {
        SourceRole::System
    } else {
        SourceRole::User
    }
}

impl SourceRole {
    pub fn as_str(self) -> (s: &'static str)
        ensures
            s@ == role_name(self),
    {
        match self {
            SourceRole::User => "user",
            SourceRole::Assistant => "assistant",
            SourceRole::Tool => "tool",
            SourceRole::System => "system",
        }
    }

    pub fn parse(s: &str) -> (r: SourceRole)
        ensures
            r == role_from_text(s@),
    {
        if str_eq(s, "assistant") {
            SourceRole::Assistant
        } else if str_eq(s, "tool") {
            SourceRole::Tool
        } else if str_eq(s, "system") {
            SourceRole::System
        } else {
            SourceRole::User
        }
    }
}

/// A record linking an original event to the compressed event that replaced
/// it.
#[derive(Debug, Clone)]
pub struct CompactionMember {
    pub id: String,
    pub job_id: String,
    pub original_event_id: String,
    pub new_event_id: String,
}

/// Event counts per layer.
#[derive(Debug, Clone, Default)]
pub struct LayerCounts {
    pub lml: usize,
    pub sml: usize,
}

/// The non-negative part of a stored count, as `usize`.
pub open spec fn stored_count(c: i64) -> usize {
    if c < 0 {
        0usize
    } else {
        c as usize
    }
}

/// Layer counts from grouped `(layer, count)` rows: a row sets the count of
/// the layer its name selects, later rows overriding earlier ones.
pub open spec fn counts_from_rows(rows: Seq<(Seq<char>, i64)>) -> (usize, usize)
    decreases rows.len(),
{
    if rows.len() == 0 {
        (0, 0)
    } else {
        let (lml, sml) = counts_from_rows(rows.drop_last());
        let (layer, c) = rows.last();
        match layer_from_text(layer) {
            MemoryLayer::LML => (stored_count(c), sml),
            MemoryLayer::SML => (lml, stored_count(c)),
        }
    }
}

/// Layer counts from the grouped rows the store reads.
pub fn layer_counts_from_rows(rows: &Vec<(String, i64)>) -> (counts: LayerCounts)
    ensures
        (counts.lml, counts.sml) == counts_from_rows(
            rows@.map_values(|r: (String, i64)| (r.0@, r.1)),
        ),
{
    let ghost view = rows@.map_values(|r: (String, i64)| (r.0@, r.1));
    let mut counts = LayerCounts { lml: 0, sml: 0 };
    let mut i: usize = 0;
    while i < rows.len()
        invariant
            view == rows@.map_values(|r: (String, i64)| (r.0@, r.1)),
            0 <= i <= rows@.len(),
            (counts.lml, counts.sml) == counts_from_rows(view.take(i as int)),
        decreases rows.len() - i,
    {
        assert(view.take(i + 1).drop_last() =~= view.take(i as int));
        assert(view.take(i + 1).last() == view[i as int]);
        let (layer, count) = &rows[i];
        let c: usize = if *count < 0 {
            0
        } else {
            *count as usize
        };
        match parse_memory_layer(layer.as_str()) {
            MemoryLayer::LML => {
                counts.lml = c;
            },
            MemoryLayer::SML => {
                counts.sml = c;
            },
        }
        i = i + 1;
    }
    assert(view.take(rows@.len() as int) =~= view);
    counts
}

/// Counts of one decay cycle.
#[derive(Debug, Clone)]
pub struct DecayCycleResult {
    pub updated: usize,
    pub promoted: usize,
    pub demoted: usize,
    pub pruned: usize,
}

/// Counts of a user-triggered memory compression run.
#[derive(Debug, Clone)]
pub struct CompressionResult {
    pub scanned_events: usize,
    pub merged_groups: usize,
    pub replaced_events: usize,
    pub created_events: usize,
}

// ---------------------------------------------------------------------------
// Laws
// ---------------------------------------------------------------------------

/// Reading the stored name of a layer gives the layer back.
pub proof fn lemma_layer_round_trip(l: MemoryLayer)
    ensures
        layer_from_text(layer_name(l)) == l,
{
    reveal_strlit("LML");
    reveal_strlit("SML");
    if l == MemoryLayer::SML {
        assert(crate::text::ascii_lower("SML"@)[0] != crate::text::ascii_lower("LML"@)[0]);
    }
}

/// Parsing the name of a scope gives the scope back.
pub proof fn lemma_scope_round_trip(s: MemoryScope)
    ensures
        scope_from_text(scope_name(s)) == Some(s),
{
    reveal_strlit("CHAR");
    reveal_strlit("PROF");
    if s == MemoryScope::Char {
        assert(crate::text::ascii_lower("CHAR"@)[0] != crate::text::ascii_lower("PROF"@)[0]);
    }
}

/// Names outside the two scope names are rejected.
pub proof fn lemma_scope_rejects_unknown(t: Seq<char>)
    requires
        !eq_ignore_ascii_case(t, "CHAR"@),
        !eq_ignore_ascii_case(t, "PROF"@),
    ensures
        scope_from_text(t) is None,
{
}

/// Parsing the name of an edge kind gives the edge kind back.
pub proof fn lemma_edge_type_round_trip(t: MemoryEdgeType)
    ensures
        edge_type_from_text(edge_type_name(t)) == t,
{
    reveal_strlit("temporal_next");
    reveal_strlit("semantic_neighbor");
    reveal_strlit("compressed_from");
    if t == MemoryEdgeType::TemporalNext {
        assert("temporal_next"@.len() != "semantic_neighbor"@.len());
        assert("temporal_next"@[0] != "compressed_from"@[0]);
    }
    if t == MemoryEdgeType::CompressedFrom {
        assert("compressed_from"@.len() != "semantic_neighbor"@.len());
    }
}

/// Parsing the name of a status gives the status back.
pub proof fn lemma_status_round_trip(s: CompactionStatus)
    ensures
        status_from_text(status_name(s)) == Some(s),
{
    reveal_strlit("queued");
    reveal_strlit("running");
    reveal_strlit("done");
    reveal_strlit("failed");
    assert("queued"@[0] != "running"@[0]);
    assert("queued"@[0] != "done"@[0]);
    assert("running"@[0] != "done"@[0]);
    assert("done"@[0] != "failed"@[0]);
    assert("running"@[0] != "failed"@[0]);
    assert("queued"@[0] != "failed"@[0]);
}

/// Parsing the name of a role gives the role back.
pub proof fn lemma_role_round_trip(r: SourceRole)
    ensures
        role_from_text(role_name(r)) == r,
{
    reveal_strlit("user");
    reveal_strlit("assistant");
    reveal_strlit("tool");
    reveal_strlit("system");
    assert("user"@[0] != "assistant"@[0]);
    assert("user"@[0] != "tool"@[0]);
    assert("user"@[0] != "system"@[0]);
    assert("tool"@[0] != "assistant"@[0]);
    assert("system"@[0] != "assistant"@[0]);
    assert("system"@[0] != "tool"@[0]);
}

} // verus!
