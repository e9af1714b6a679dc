//! Turning a conversation turn into memory events, and the bookkeeping of
//! the decay cycle: which anchor a memory decays from and how layer changes
//! are counted.

use vstd::prelude::*;

use crate::json::{config_bool, config_bool_of, config_u64, config_u64_of, JsonValue};
use crate::graph::node::{join_strings, joined, string_views};
use crate::memory::types::{DecayCycleResult, MemoryLayer, MemoryScope};
use crate::sentence::{sentences, split_sentences};
use crate::text::{push_signed_decimal, push_str, signed_decimal, to_owned_string, trim, trim_str};

verus! {

broadcast use vstd::string::group_string_axioms;

// ---------------------------------------------------------------------------
// Settings
// ---------------------------------------------------------------------------

/// The integer settings of the memory service.
#[derive(Debug, Clone, Copy, PartialEq, Eq, Structural)]
pub struct MemorySettings {
    /// `em_llm.enabled`, on unless set to `false`.
    pub enabled: bool,
    /// `em_llm.retrieval_limit`, 5 when missing, kept within `1..=20`.
    pub retrieval_limit: usize,
}

/// The settings a configuration gives.
pub open spec fn memory_settings_of(config: JsonValue) -> MemorySettings {
    MemorySettings {
        enabled: match config_bool_of(config, "em_llm"@, "enabled"@) {
            Some(b) => b,
            None => true,
        },
        retrieval_limit: match config_u64_of(config, "em_llm"@, "retrieval_limit"@) {
            Some(n) => if n < 1 {
                1usize
            } else if n > 20 {
                20usize
            } else {
                n as usize
            },
            None => 5usize,
        },
    }
}

/// Reads the memory service's settings from a configuration.
pub fn memory_settings(config: &JsonValue) -> (s: MemorySettings)
    ensures
        s == memory_settings_of(*config),
{
    let enabled = match config_bool(config, "em_llm", "enabled") {
        Some(b) => b,
        None => true,
    };
    let retrieval_limit: usize = match config_u64(config, "em_llm", "retrieval_limit") {
        Some(n) => if n < 1 {
            1
        } else if n > 20 {
            20
        } else {
            n as usize
        },
        None => 5,
    };
    MemorySettings { enabled, retrieval_limit }
}

// ---------------------------------------------------------------------------
// Ingesting a turn
// ---------------------------------------------------------------------------

/// `"User: <user>\nAssistant: <assistant>"`, both trimmed.
pub open spec fn memory_text(user: Seq<char>, assistant: Seq<char>) -> Seq<char> {
    "User: "@ + trim(user) + "\nAssistant: "@ + trim(assistant)
}

/// The text stored for a conversation turn.
pub fn build_memory_text(user_input: &str, assistant_output: &str) -> (s: String)
    ensures
        s@ == memory_text(user_input@, assistant_output@),
{
    let mut s = to_owned_string("User: ");
    let u = trim_str(user_input);
    push_str(&mut s, u.as_str());
    push_str(&mut s, "\nAssistant: ");
    let a = trim_str(assistant_output);
    push_str(&mut s, a.as_str());
    s
}

/// The text of a turn worth remembering: none when both sides are blank.
pub fn interaction_content(user_input: &str, assistant_output: &str) -> (r: Option<String>)
    ensures
        (trim(user_input@).len() == 0 && trim(assistant_output@).len() == 0) ==> r is None,
        !(trim(user_input@).len() == 0 && trim(assistant_output@).len() == 0) ==> (r matches Some(
            s,
        ) && s@ == memory_text(user_input@, assistant_output@)),
{
    let u = trim_str(user_input);
    let a = trim_str(assistant_output);
    if u.unicode_len() == 0 && a.unicode_len() == 0 {
        return None;
    }
    Some(build_memory_text(user_input, assistant_output))
}

/// The sentences a turn is segmented into: its sentences of at least eight
/// tokens, or the whole text when it has none.
pub open spec fn turn_sentences(content: Seq<char>) -> Seq<Seq<char>> {
    if sentences(content, 8).len() == 0 {
        seq![content]
    } else {
        sentences(content, 8)
    }
}

/// The sentences a turn is segmented into.
pub fn memory_sentences(content: &str) -> (out: Vec<String>)
    ensures
        out@.map_values(|s: String| s@) == turn_sentences(content@),
{
    let out = split_sentences(content, 8);
    if out.len() == 0 {
        let mut single: Vec<String> = Vec::new();
        single.push(to_owned_string(content));
        assert(single@.map_values(|s: String| s@) =~= seq![content@]);
        return single;
    }
    out
}

/// `"<session>-<timestamp>"`: the turn a memory event came from.
pub fn source_turn_id(session_id: &str, timestamp: i64) -> (s: String)
    ensures
        s@ == session_id@ + "-"@ + signed_decimal(timestamp as int),
{
    let mut s = to_owned_string(session_id);
    push_str(&mut s, "-");
    push_signed_decimal(&mut s, timestamp);
    s
}

/// Links each event of an episode to the next one, in order.
pub fn temporal_links(event_ids: &Vec<String>) -> (links: Vec<(String, String)>)
    ensures
        links@.len() == if event_ids@.len() == 0 {
            0
        } else {
            event_ids@.len() - 1
        },
        forall|i: int|
            0 <= i < links@.len() ==> (#[trigger] links@[i]).0@ == event_ids@[i]@ && links@[i].1@
                == event_ids@[i + 1]@,
{
    let mut links: Vec<(String, String)> = Vec::new();
    if event_ids.len() == 0 {
        return links;
    }
    let mut i: usize = 1;
    while i < event_ids.len()
        invariant
            1 <= i <= event_ids@.len(),
            links@.len() == i - 1,
            forall|k: int|
                0 <= k < links@.len() ==> (#[trigger] links@[k]).0@ == event_ids@[k]@ && links@[k].1@
                    == event_ids@[k + 1]@,
        decreases event_ids.len() - i,
    {
        links.push((event_ids[i - 1].clone(), event_ids[i].clone()));
        i = i + 1;
    }
    links
}

/// How a finished turn is stored.
#[derive(Debug, Clone, Copy, PartialEq, Eq, Structural)]
pub enum IngestRoute {
    /// Memory is off: nothing is stored.
    Skip,
    /// The older service stores the turn itself.
    Legacy,
    /// The turn is segmented here into events of one new episode.
    Segmented,
}

/// The route of a turn: nothing when memory is off, else the older service
/// when it is selected, else segmentation.
pub fn ingest_route(enabled: bool, legacy_enabled: bool) -> (r: IngestRoute)
    ensures
        !enabled ==> r == IngestRoute::Skip,
        enabled && legacy_enabled ==> r == IngestRoute::Legacy,
        enabled && !legacy_enabled ==> r == IngestRoute::Segmented,
{
    if !enabled {
        IngestRoute::Skip
    } else if legacy_enabled {
        IngestRoute::Legacy
    } else {
        IngestRoute::Segmented
    }
}

/// The plain fields of a stored memory event; its embedding, surprise
/// statistics, importance and strength are set by the caller.
#[derive(Debug, Clone)]
pub struct EventRecord {
    pub id: String,
    pub session_id: String,
    pub scope: MemoryScope,
    pub episode_id: String,
    /// Position of the event in its episode.
    pub event_seq: u32,
    pub source_turn_id: String,
    /// The event's tokens joined by single spaces.
    pub content: String,
    pub layer: MemoryLayer,
    pub access_count: u32,
}

/// Record `i` of an episode is the `i`-th segmented event: its id, its
/// tokens joined by spaces, numbered `i` (the position cut to 32 bits),
/// in character scope and the short-term layer, never accessed.
pub open spec fn is_event_record(
    r: EventRecord,
    i: int,
    session_id: Seq<char>,
    episode_id: Seq<char>,
    source_turn: Seq<char>,
    event: (Seq<char>, Seq<Seq<char>>),
) -> bool {
    &&& r.id@ == event.0
    &&& r.session_id@ == session_id
    &&& r.scope == MemoryScope::Char
    &&& r.episode_id@ == episode_id
    &&& r.event_seq == i as u32
    &&& r.source_turn_id@ == source_turn
    &&& r.content@ == joined(event.1, " "@)
    &&& r.layer == MemoryLayer::SML
    &&& r.access_count == 0
}

/// The records of the segmented events of one turn, in order; `events`
/// holds each event's id and tokens.
pub fn event_records(
    session_id: &str,
    episode_id: &str,
    source_turn: &str,
    events: &Vec<(String, Vec<String>)>,
) -> (out: Vec<EventRecord>)
    ensures
        out@.len() == events@.len(),
        forall|i: int|
            0 <= i < out@.len() ==> is_event_record(
                #[trigger] out@[i],
                i,
                session_id@,
                episode_id@,
                source_turn@,
                (events@[i].0@, string_views(events@[i].1@)),
            ),
{
    let mut out: Vec<EventRecord> = Vec::new();
    let mut i: usize = 0;
    while i < events.len()
        invariant
            0 <= i <= events@.len(),
            out@.len() == i,
            forall|k: int|
                0 <= k < i ==> is_event_record(
                    #[trigger] out@[k],
                    k,
                    session_id@,
                    episode_id@,
                    source_turn@,
                    (events@[k].0@, string_views(events@[k].1@)),
                ),
        decreases events.len() - i,
    {
        let content = join_strings(&events[i].1, " ");
        let seq: u32 = i as u32;
        out.push(
            EventRecord {
                id: events[i].0.clone(),
                session_id: to_owned_string(session_id),
                scope: MemoryScope::Char,
                episode_id: to_owned_string(episode_id),
                event_seq: seq,
                source_turn_id: to_owned_string(source_turn),
                content,
                layer: MemoryLayer::SML,
                access_count: 0,
            },
        );
        i = i + 1;
    }
    out
}

/// `"em://<session>/evt/<event>"`: where a recalled memory came from.
pub fn memory_source_uri(session_id: &str, event_id: &str) -> (s: String)
    ensures
        s@ == "em://"@ + session_id@ + "/evt/"@ + event_id@,
{
    let mut s = to_owned_string("em://");
    push_str(&mut s, session_id);
    push_str(&mut s, "/evt/");
    push_str(&mut s, event_id);
    s
}

// ---------------------------------------------------------------------------
// Decay bookkeeping
// ---------------------------------------------------------------------------

/// The instant a memory decays from: its last access when that is later
/// than its decay anchor, else the anchor.  Instants are counts of a fixed
/// unit since the epoch.
pub fn decay_reference(anchor: i64, last_accessed: Option<i64>) -> (r: i64)
    ensures
        r == match last_accessed {
            Some(a) => if a > anchor {
                a
            } else {
                anchor
            },
            None => anchor,
        },
{
    match last_accessed {
        Some(a) => if a > anchor {
            a
        } else {
            anchor
        },
        None => anchor,
    }
}

/// Counts an applied layer change: a move from the short-term to the
/// long-term layer is a promotion, the reverse a demotion.
pub fn count_layer_change(result: &mut DecayCycleResult, old_layer: MemoryLayer, new_layer: MemoryLayer)
    requires
        old(result).promoted < usize::MAX,
        old(result).demoted < usize::MAX,
    ensures
        final(result).updated == old(result).updated,
        final(result).pruned == old(result).pruned,
        final(result).promoted == old(result).promoted + if old_layer == MemoryLayer::SML && new_layer
            == MemoryLayer::LML {
            1int
        } else {
            0int
        },
        final(result).demoted == old(result).demoted + if old_layer == MemoryLayer::LML && new_layer
            == MemoryLayer::SML {
            1int
        } else {
            0int
        },
{
    match (old_layer, new_layer) {
        (MemoryLayer::SML, MemoryLayer::LML) => {
            result.promoted = result.promoted + 1;
        },
        (MemoryLayer::LML, MemoryLayer::SML) => {
            result.demoted = result.demoted + 1;
        },
        _ => {},
    }
}

// ---------------------------------------------------------------------------
// Anchors given as text
// ---------------------------------------------------------------------------

/// The instant an RFC 3339 timestamp denotes, as seconds and nanoseconds
/// since the epoch in UTC, or `None` when the text is not RFC 3339.
pub uninterp spec fn rfc3339_instant(text: Seq<char>) -> Option<(i64, u32)>;

/// `DateTime::parse_from_rfc3339`, taken to UTC seconds and nanoseconds.
///
/// chrono parses the text alone; the result is named `rfc3339_instant`.
#[verifier::external_body]
fn parse_rfc3339_utc(text: &str) -> (r: Option<(i64, u32)>)
    ensures
        r == rfc3339_instant(text@),
{
    match chrono::DateTime::parse_from_rfc3339(text) {
        Ok(dt) => {
            let utc = dt.with_timezone(&chrono::Utc);
            Some((utc.timestamp(), utc.timestamp_subsec_nanos()))
        },
        Err(_) => None,
    }
}

/// Instant `a` is not earlier than instant `b`.
pub open spec fn not_before(a: (i64, u32), b: (i64, u32)) -> bool {
    a.0 > b.0 || (a.0 == b.0 && a.1 >= b.1)
}

/// One of two anchors, or neither.
pub enum Pick {
    Neither,
    Left,
    Right,
}

/// Which of two anchors is later, given their parsed instants: both
/// present and parsed, the later one (the right one on a tie); one parsed,
/// that one; neither parsed, the right one; one present, that one.
pub open spec fn later_choice(
    left: bool,
    right: bool,
    left_at: Option<(i64, u32)>,
    right_at: Option<(i64, u32)>,
) -> Pick {
    if left && right {
        match (left_at, right_at) {
            (Some(l), Some(r)) => if not_before(r, l) {
                Pick::Right
            } else {
                Pick::Left
            },
            (Some(_), None) => Pick::Left,
            _ => Pick::Right,
        }
    } else if left {
        Pick::Left
    } else if right {
        Pick::Right
    } else {
        Pick::Neither
    }
}

/// The later of two anchors from their parsed instants.
pub fn pick_later<'a>(
    left: Option<&'a str>,
    right: Option<&'a str>,
    left_at: Option<(i64, u32)>,
    right_at: Option<(i64, u32)>,
) -> (r: Option<&'a str>)
    ensures
        r == match later_choice(left is Some, right is Some, left_at, right_at) {
            Pick::Left => left,
            Pick::Right => right,
            Pick::Neither => None::<&str>,
        },
{
    match (left, right) {
        (Some(l), Some(r)) => match (left_at, right_at) {
            (Some(la), Some(ra)) => if ra.0 > la.0 || (ra.0 == la.0 && ra.1 >= la.1) {
                Some(r)
            } else {
                Some(l)
            },
            (Some(_), None) => Some(l),
            _ => Some(r),
        },
        (Some(l), None) => Some(l),
        (None, Some(r)) => Some(r),
        (None, None) => None,
    }
}

/// The later of two anchors given as RFC 3339 text.
pub fn latest_timestamp<'a>(left: Option<&'a str>, right: Option<&'a str>) -> (r: Option<&'a str>)
    ensures
        r == match later_choice(
            left is Some,
            right is Some,
            match left {
                Some(l) => rfc3339_instant(l@),
                None => None,
            },
            match right {
                Some(x) => rfc3339_instant(x@),
                None => None,
            },
        ) {
            Pick::Left => left,
            Pick::Right => right,
            Pick::Neither => None::<&str>,
        },
{
    let left_at = match left {
        Some(l) => parse_rfc3339_utc(l),
        None => None,
    };
    let right_at = match right {
        Some(x) => parse_rfc3339_utc(x),
        None => None,
    };
    pick_later(left, right, left_at, right_at)
}

} // verus!
