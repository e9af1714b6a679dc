//! Talking to the local model server: chat messages, the server-sent event
//! framing of streamed completions, and the text a completion carries.

use vstd::prelude::*;

use crate::json::{
    bool_of, field_of, first_item_of, i64_of, json_as_bool, json_as_i64, json_as_u64,
    json_first_item, json_get, json_is_object, json_str_field, parse_json, parsed_json,
    str_field_of, u64_of, JsonValue,
};
use crate::text::{
    chars_of, decimal, find_char, lemma_find_char_bounds, lemma_find_char_exact, push_decimal,
    push_signed_decimal, push_str, signed_decimal, starts_with, str_eq, string_of_range,
    to_owned_string, trim, trim_bounds, trim_str,
};

verus! {

broadcast use vstd::string::group_string_axioms;

/// One message of a chat request.
#[derive(Debug, Clone)]
pub struct ChatMessage {
    pub role: String,
    pub content: String,
}

impl ChatMessage {
    /// A message with this role and text.
    pub fn new_text(role: &str, content: String) -> (m: ChatMessage)
        ensures
            m.role@ == role@,
            m.content == content,
    {
        ChatMessage { role: to_owned_string(role), content }
    }
}

// ---------------------------------------------------------------------------
// Conversation shaping
// ---------------------------------------------------------------------------

/// The conversation ends with the user's current input already.
pub open spec fn ends_with_input(messages: Seq<ChatMessage>, input: Seq<char>) -> bool {
    messages.len() > 0 && messages.last().role@ == "user"@ && trim(messages.last().content@) == trim(
        input,
    )
}

/// Drops the last message when it is the user's current input, which the
/// caller appends again in its own form.
pub fn drop_repeated_input(messages: &mut Vec<ChatMessage>, input: &str)
    ensures
        final(messages)@ == if ends_with_input(old(messages)@, input@) {
            old(messages)@.drop_last()
        } else {
            old(messages)@
        },
{
    let n = messages.len();
    if n == 0 {
        return;
    }
    let repeated = {
        let last = &messages[n - 1];
        str_eq(last.role.as_str(), "user") && {
            let a = trim_str(last.content.as_str());
            let b = trim_str(input);
            str_eq(a.as_str(), b.as_str())
        }
    };
    if repeated {
        messages.pop();
    }
}

/// The system message that hands the thinking node's reasoning to the
/// chat answer.
pub fn reasoning_message(thought: &str) -> (m: ChatMessage)
    ensures
        m.role@ == "system"@,
        m.content@ == "Your reasoning process (use this to inform your response):\n"@ + thought@,
{
    let mut content = to_owned_string("Your reasoning process (use this to inform your response):\n");
    push_str(&mut content, thought);
    ChatMessage::new_text("system", content)
}

/// The instruction the synthesizer adds before the user's request.
pub open spec fn synthesis_rule() -> Seq<char> {
    "Use only summarized artifacts, stable memory, and local context to produce the final user-facing answer. Do not rely on raw tool output or scratchpad text."@
}

/// Ends the synthesizer's conversation: its instruction, then the request.
pub fn push_synthesis_request(messages: &mut Vec<ChatMessage>, input: &str)
    ensures
        final(messages)@.len() == old(messages)@.len() + 2,
        final(messages)@.take(old(messages)@.len() as int) == old(messages)@,
        final(messages)@[old(messages)@.len() as int].role@ == "system"@,
        final(messages)@[old(messages)@.len() as int].content@ == synthesis_rule(),
        final(messages)@.last().role@ == "user"@,
        final(messages)@.last().content@ == input@,
{
    let ghost before = messages@;
    messages.push(
        ChatMessage::new_text(
            "system",
            to_owned_string(
                "Use only summarized artifacts, stable memory, and local context to produce the final user-facing answer. Do not rely on raw tool output or scratchpad text.",
            ),
        ),
    );
    messages.push(ChatMessage::new_text("user", to_owned_string(input)));
    assert(messages@.take(before.len() as int) =~= before);
}

/// The name a synthesized answer is shown under: the selected agent, or
/// `"Assistant"`.
pub fn answer_agent_name(selected_agent_id: Option<&str>) -> (s: String)
    ensures
        s@ == match selected_agent_id {
            Some(id) => id@,
            None => "Assistant"@,
        },
{
    match selected_agent_id {
        Some(id) => to_owned_string(id),
        None => to_owned_string("Assistant"),
    }
}

/// The model id to use: the resolved one, or `"default"`.
pub fn model_id_or_default(resolved: Option<String>) -> (s: String)
    ensures
        s@ == match resolved {
            Some(m) => m@,
            None => "default"@,
        },
{
    match resolved {
        Some(m) => m,
        None => to_owned_string("default"),
    }
}

// ---------------------------------------------------------------------------
// Streamed answers
// ---------------------------------------------------------------------------

/// What to forward for one streamed chunk.
#[derive(Debug, Clone, Copy, PartialEq, Eq)]
pub struct ChunkForwarding {
    /// The model's reasoning is forwarded as a thought.
    pub thought: bool,
    /// The visible text is forwarded as an answer chunk.
    pub text: bool,
}

/// Takes one streamed chunk: visible text is added to the answer, and each
/// non-empty part is forwarded.
pub fn accept_stream_chunk(answer: &mut String, thinking: &str, visible: &str) -> (f: ChunkForwarding)
    ensures
        final(answer)@ == old(answer)@ + visible@,
        f.thought == (thinking@.len() > 0),
        f.text == (visible@.len() > 0),
{
    let thought = thinking.unicode_len() > 0;
    let text = visible.unicode_len() > 0;
    push_str(answer, visible);
    ChunkForwarding { thought, text }
}

/// A line of the event stream.
#[derive(Debug, Clone, PartialEq, Eq)]
pub enum StreamEvent {
    /// A `data:` payload.
    Data(String),
    /// The `[DONE]` marker that ends the stream.
    Done,
}

/// The complete lines of `s` (those ended by `'\n'`) and the text after the
/// last of them.
pub open spec fn split_complete(s: Seq<char>) -> (Seq<Seq<char>>, Seq<char>)
    decreases s.len(),
{
    let k = find_char(s, '\n');
    proof {
        lemma_find_char_bounds(s, '\n');
    }
    if k < s.len() {
        let (ls, rest) = split_complete(s.skip(k + 1));
        (seq![s.take(k)] + ls, rest)
    } else {
        (seq![], s)
    }
}

/// The event a line carries: none for a blank line or one without the
/// `data:` prefix; `Some(None)` for `[DONE]`; else the trimmed payload.
pub open spec fn line_event(l: Seq<char>) -> Option<Option<Seq<char>>> {
    let t = trim(l);
    if t.len() > 0 && starts_with(t, "data:"@) {
        let d = trim(t.skip(5));
        if d == "[DONE]"@ {
            Some(None)
        } else {
            Some(Some(d))
        }
    } else {
        None
    }
}

/// The events of a sequence of lines.
pub open spec fn line_events(ls: Seq<Seq<char>>) -> Seq<Option<Seq<char>>>
    decreases ls.len(),
{
    if ls.len() == 0 {
        seq![]
    } else {
        match line_event(ls[0]) {
            Some(e) => seq![e] + line_events(ls.drop_first()),
            None => line_events(ls.drop_first()),
        }
    }
}

/// An event as the specification sees it.
pub open spec fn event_view(e: StreamEvent) -> Option<Seq<char>> {
    match e {
        StreamEvent::Data(d) => Some(d@),
        StreamEvent::Done => None,
    }
}

/// Splits a server-sent event stream, which arrives in arbitrary pieces,
/// into its events.
pub struct StreamDecoder {
    buffer: String,
}

impl StreamDecoder {
    /// The text received after the last complete line.
    pub closed spec fn pending(&self) -> Seq<char> {
        self.buffer@
    }

    /// A decoder that has received nothing.
    pub fn new() -> (d: StreamDecoder)
        ensures
            d.pending() == Seq::<char>::empty(),
    {
        StreamDecoder { buffer: String::new() }
    }

    /// Takes the next piece of the stream and returns the events of the
    /// lines it completes.
    pub fn push(&mut self, piece: &str) -> (events: Vec<StreamEvent>)
        ensures
            ({
                let (ls, rest) = split_complete(old(self).pending() + piece@);
                &&& final(self).pending() == rest
                &&& events@.map_values(|e: StreamEvent| event_view(e)) == line_events(ls)
            }),
    {
        let mut all = chars_of(self.buffer.as_str());
        let p = chars_of(piece);
        let ghost start_all = all@;
        let mut j: usize = 0;
        while j < p.len()
            invariant
                0 <= j <= p@.len(),
                all@ == start_all + p@.take(j as int),
            decreases p.len() - j,
        {
            all.push(p[j]);
            assert(start_all + p@.take(j + 1) =~= (start_all + p@.take(j as int)).push(p@[j as int]));
            j = j + 1;
        }
        assert(p@.take(p@.len() as int) =~= p@);
        let ghost s = all@;
        assert(s == old(self).pending() + piece@);
        let n = all.len();
        let mut events: Vec<StreamEvent> = Vec::new();
        let mut start: usize = 0;
        let mut i: usize = 0;
        let ghost mut done_lines: Seq<Seq<char>> = seq![];
        assert(s.skip(0) =~= s);
        while i < n
            invariant
                n == all@.len(),
                s == all@,
                0 <= start <= i <= n,
                forall|k: int| start <= k < i ==> s[k] != '\n',
                split_complete(s) == (
                    done_lines + split_complete(s.skip(start as int)).0,
                    split_complete(s.skip(start as int)).1,
                ),
                events@.map_values(|e: StreamEvent| event_view(e)) == line_events(done_lines),
            decreases n - i,
        {
            if all[i] == '\n' {
                let ghost x = s.skip(start as int);
                proof {
                    assert forall|k: int| 0 <= k < i - start implies x[k] != '\n' by {
                        assert(x[k] == s[start + k]);
                    }
                    assert(x[i - start] == s[i as int]);
                    lemma_find_char_exact(x, '\n', i - start);
                    assert(x.skip(i - start + 1) =~= s.skip(i + 1));
                    assert(x.take(i - start) =~= s.subrange(start as int, i as int));
                }
                let ghost line = s.subrange(start as int, i as int);
                let ghost before = events@.map_values(|e: StreamEvent| event_view(e));
                let (a, b) = trim_bounds(&all, start, i);
                let t = string_of_range(&all, a, b);
                proof {
                    lemma_line_events_push(done_lines, line);
                }
                proof {
                    reveal_strlit("data:");
                }
                if t.unicode_len() > 0 && str_starts_with_data(t.as_str()) {
                    let payload = string_of_range(&all, a + 5, b);
                    let d = trim_str(payload.as_str());
                    proof {
                        assert(payload@ =~= t@.skip(5));
                    }
                    if str_eq(d.as_str(), "[DONE]") {
                        events.push(StreamEvent::Done);
                    } else {
                        events.push(StreamEvent::Data(d));
                    }
                    proof {
                        assert(events@.map_values(|e: StreamEvent| event_view(e)) =~= before.push(
                            line_event(line).unwrap(),
                        ));
                    }
                }
                proof {
                    done_lines = done_lines.push(line);
                    assert(done_lines.drop_last() =~= done_lines.drop_last());
                    assert(seq![line] + split_complete(s.skip(i + 1)).0 == split_complete(
                        s.skip(start as int),
                    ).0);
                    assert(done_lines + split_complete(s.skip(i + 1)).0 =~= done_lines.drop_last()
                        + (seq![line] + split_complete(s.skip(i + 1)).0));
                }
                start = i + 1;
            }
            i = i + 1;
        }
        proof {
            let x = s.skip(start as int);
            assert forall|k: int| 0 <= k < x.len() implies x[k] != '\n' by {
                assert(x[k] == s[start + k]);
            }
            lemma_find_char_exact(x, '\n', x.len() as int);
            assert(done_lines + Seq::<Seq<char>>::empty() =~= done_lines);
        }
        self.buffer = string_of_range(&all, start, n);
        proof {
            assert(self.buffer@ =~= s.skip(start as int));
        }
        events
    }
}

/// `s` begins with `data:`.
fn str_starts_with_data(s: &str) -> (r: bool)
    ensures
        r == starts_with(s@, "data:"@),
{
    crate::text::str_starts_with(s, "data:")
}

/// The events of `ls` with one more line.
proof fn lemma_line_events_push(ls: Seq<Seq<char>>, l: Seq<char>)
    ensures
        line_events(ls.push(l)) == match line_event(l) {
            Some(e) => line_events(ls).push(e),
            None => line_events(ls),
        },
    decreases ls.len(),
{
    let tail = ls.push(l).drop_first();
    let none: Seq<Option<Seq<char>>> = seq![];
    if ls.len() == 0 {
        assert(tail =~= Seq::<Seq<char>>::empty());
        assert(line_events(tail) == none);
        assert(line_events(ls) == none);
        assert(ls.push(l)[0] == l);
        match line_event(l) {
            Some(e) => {
                assert(seq![e] + Seq::<Option<Seq<char>>>::empty() =~= Seq::<Option<Seq<char>>>::empty().push(e));
            },
            None => {},
        }
    } else {
        assert(tail =~= ls.drop_first().push(l));
        assert(ls.push(l)[0] == ls[0]);
        lemma_line_events_push(ls.drop_first(), l);
        assert(line_events(ls.push(l)) == match line_event(ls[0]) {
            Some(e0) => seq![e0] + line_events(tail),
            None => line_events(tail),
        });
        match line_event(ls[0]) {
            Some(e0) => {
                match line_event(l) {
                    Some(e) => {
                        assert(seq![e0] + line_events(ls.drop_first()).push(e) =~= (seq![e0]
                            + line_events(ls.drop_first())).push(e));
                    },
                    None => {},
                }
            },
            None => {},
        }
    }
}

/// Splitting `x + b`: the complete lines of `x`, then those of the text
/// pending after `x` followed by `b`.
proof fn lemma_split_complete_append(x: Seq<char>, b: Seq<char>)
    ensures
        ({
            let (ls1, r1) = split_complete(x);
            let (ls2, r2) = split_complete(r1 + b);
            split_complete(x + b) == (ls1 + ls2, r2)
        }),
    decreases x.len(),
{
    lemma_find_char_bounds(x, '\n');
    let k = find_char(x, '\n');
    if k < x.len() {
        let xb = x + b;
        assert forall|j: int| 0 <= j < k implies xb[j] != '\n' by {
            assert(xb[j] == x[j]);
        }
        assert(xb[k] == x[k]);
        lemma_find_char_exact(xb, '\n', k);
        assert(xb.skip(k + 1) =~= x.skip(k + 1) + b);
        assert(xb.take(k) =~= x.take(k));
        lemma_split_complete_append(x.skip(k + 1), b);
        let (ls1, r1) = split_complete(x);
        let (ls2, r2) = split_complete(r1 + b);
        let (lt, rt) = split_complete(x.skip(k + 1));
        assert(ls1 == seq![x.take(k)] + lt);
        assert(r1 == rt);
        assert(split_complete(xb) == (seq![x.take(k)] + (lt + ls2), r2));
        assert(seq![x.take(k)] + (lt + ls2) =~= ls1 + ls2);
    } else {
        let (ls2, r2) = split_complete(x + b);
        assert(Seq::<Seq<char>>::empty() + ls2 =~= ls2);
    }
}

/// The events of lines read one after the other.
proof fn lemma_line_events_append(ls1: Seq<Seq<char>>, ls2: Seq<Seq<char>>)
    ensures
        line_events(ls1 + ls2) == line_events(ls1) + line_events(ls2),
    decreases ls2.len(),
{
    if ls2.len() == 0 {
        assert(ls1 + ls2 =~= ls1);
        assert(line_events(ls2) =~= Seq::<Option<Seq<char>>>::empty());
        assert(line_events(ls1) + line_events(ls2) =~= line_events(ls1));
    } else {
        let init = ls2.drop_last();
        let l = ls2.last();
        lemma_line_events_append(ls1, init);
        assert(ls1 + ls2 =~= (ls1 + init).push(l));
        assert(ls2 =~= init.push(l));
        lemma_line_events_push(ls1 + init, l);
        lemma_line_events_push(init, l);
        match line_event(l) {
            Some(e) => {
                assert((line_events(ls1) + line_events(init)).push(e) =~= line_events(ls1) + line_events(
                    init,
                ).push(e));
            },
            None => {},
        }
    }
}

/// However a stream is cut into pieces, the decoder reads the same events:
/// pushing `a` and then `b` gives the events that pushing `a + b` gives, and
/// leaves the same text pending.
pub proof fn lemma_pieces_do_not_matter(pending: Seq<char>, a: Seq<char>, b: Seq<char>)
    ensures
        ({
            let (ls1, r1) = split_complete(pending + a);
            let (ls2, r2) = split_complete(r1 + b);
            let (ls, r) = split_complete(pending + (a + b));
            &&& r == r2
            &&& line_events(ls) == line_events(ls1) + line_events(ls2)
        }),
{
    assert(pending + (a + b) =~= (pending + a) + b);
    lemma_split_complete_append(pending + a, b);
    let (ls1, r1) = split_complete(pending + a);
    let (ls2, r2) = split_complete(r1 + b);
    lemma_line_events_append(ls1, ls2);
}

// ---------------------------------------------------------------------------
// Completion payloads
// ---------------------------------------------------------------------------

/// The first choice of a completion payload.
pub open spec fn first_choice(payload: JsonValue) -> Option<JsonValue> {
    match field_of(payload, "choices"@) {
        Some(choices) => first_item_of(choices),
        None => None,
    }
}

/// The text at `value[outer][inner]`, if it is a string.
pub open spec fn nested_str(value: JsonValue, outer: Seq<char>, inner: Seq<char>) -> Option<Seq<char>> {
    match field_of(value, outer) {
        Some(o) => str_field_of(o, inner),
        None => None,
    }
}

/// The text of a streamed payload: the first choice's `delta.content`, else
/// its `message.content`, else its `text`.
pub open spec fn delta_of(payload: JsonValue) -> Option<Seq<char>> {
    match first_choice(payload) {
        None => None,
        Some(c) => match nested_str(c, "delta"@, "content"@) {
            Some(t) => Some(t),
            None => match nested_str(c, "message"@, "content"@) {
                Some(t) => Some(t),
                None => str_field_of(c, "text"@),
            },
        },
    }
}

/// The text of a streamed payload when it is not empty.
pub open spec fn nonempty_delta_of(payload: JsonValue) -> Option<Seq<char>> {
    match delta_of(payload) {
        Some(t) => if t.len() > 0 {
            Some(t)
        } else {
            None
        },
        None => None,
    }
}

/// The answer of a complete payload: the first choice's `message.content`,
/// else its `text`, else empty.
pub open spec fn completion_text(payload: JsonValue) -> Seq<char> {
    match first_choice(payload) {
        None => Seq::<char>::empty(),
        Some(c) => match nested_str(c, "message"@, "content"@) {
            Some(t) => t,
            None => match str_field_of(c, "text"@) {
                Some(t) => t,
                None => Seq::<char>::empty(),
            },
        },
    }
}

fn first_choice_of(payload: &JsonValue) -> (r: Option<&JsonValue>)
    ensures
        match first_choice(*payload) {
            Some(x) => r matches Some(y) && *y == x,
            None => r is None,
        },
{
    match json_get(payload, "choices") {
        Some(choices) => json_first_item(choices),
        None => None,
    }
}

fn nested_str_of<'a>(value: &'a JsonValue, outer: &str, inner: &str) -> (r: Option<&'a str>)
    ensures
        match nested_str(*value, outer@, inner@) {
            Some(s) => r matches Some(t) && t@ == s,
            None => r is None,
        },
{
    match json_get(value, outer) {
        Some(o) => json_str_field(o, inner),
        None => None,
    }
}

/// The text of one streamed completion payload: the first choice's
/// `delta.content`, else its `message.content`, else its `text`.
pub fn extract_delta(payload: &JsonValue) -> (r: Option<String>)
    ensures
        match delta_of(*payload) {
            Some(t) => r matches Some(s) && s@ == t,
            None => r is None,
        },
{
    let choice = match first_choice_of(payload) {
        Some(c) => c,
        None => {
            return None;
        },
    };
    if let Some(content) = nested_str_of(choice, "delta", "content") {
        return Some(to_owned_string(content));
    }
    if let Some(content) = nested_str_of(choice, "message", "content") {
        return Some(to_owned_string(content));
    }
    match json_str_field(choice, "text") {
        Some(text) => Some(to_owned_string(text)),
        None => None,
    }
}

/// The text a parsed payload adds to the answer: its delta when that is
/// not empty.
pub fn nonempty_delta(payload: &JsonValue) -> (r: Option<String>)
    ensures
        match nonempty_delta_of(*payload) {
            Some(t) => r matches Some(s) && s@ == t,
            None => r is None,
        },
{
    match extract_delta(payload) {
        Some(delta) => if delta.unicode_len() > 0 {
            Some(delta)
        } else {
            None
        },
        None => None,
    }
}

/// The text a `data:` payload adds to the answer: the non-empty delta of
/// the document it parses to.
pub fn stream_delta(data: &str) -> (r: Option<String>)
    ensures
        match parsed_json(data@) {
            Some(p) => match nonempty_delta_of(p) {
                Some(t) => r matches Some(s) && s@ == t,
                None => r is None,
            },
            None => r is None,
        },
{
    match parse_json(data) {
        Some(payload) => nonempty_delta(&payload),
        None => None,
    }
}

/// The answer of a complete (non-streamed) completion: the first choice's
/// `message.content`, else its `text`, else empty.
pub fn completion_content(payload: &JsonValue) -> (r: String)
    ensures
        r@ == completion_text(*payload),
{
    if let Some(c) = first_choice_of(payload) {
        if let Some(content) = nested_str_of(c, "message", "content") {
            return to_owned_string(content);
        }
        if let Some(text) = json_str_field(c, "text") {
            return to_owned_string(text);
        }
    }
    String::new()
}

// ---------------------------------------------------------------------------
// Model runtime settings
// ---------------------------------------------------------------------------

/// Which model a runtime serves.
#[derive(Debug, Clone, Copy, PartialEq, Eq, Structural)]
pub enum ModelRole {
    Text,
    Embedding,
}

/// How a model server is started: which configured model, where its file
/// is, and its integer settings.  The sampling temperatures are read beside
/// it by the caller.
#[derive(Debug, Clone)]
pub struct ModelRuntimeConfig {
    /// `"text_model"` or `"embedding_model"`.
    pub model_key: String,
    /// The member of `models_gguf` the settings were read from; the caller
    /// reads the sampling settings from the same member.
    pub entry: String,
    pub model_path: String,
    /// The configured port, `0` to pick a free one.
    pub port: u16,
    pub n_ctx: i32,
    pub n_gpu_layers: i32,
    pub top_k: Option<i64>,
    pub logprobs: Option<bool>,
    pub enable_embedding: bool,
}

/// The `models_gguf` section when it is an object.
pub open spec fn models_section(config: JsonValue) -> Option<JsonValue> {
    match field_of(config, "models_gguf"@) {
        Some(m) => if m is Object {
            Some(m)
        } else {
            None
        },
        None => None,
    }
}

/// The member of `models_gguf` that serves a role: `text_model`, else
/// `character_model`, for text; `embedding_model` for embeddings.
pub open spec fn model_entry_name(models: JsonValue, role: ModelRole) -> Seq<char> {
    match role {
        ModelRole::Text => if field_of(models, "text_model"@) is Some {
            "text_model"@
        } else {
            "character_model"@
        },
        ModelRole::Embedding => "embedding_model"@,
    }
}

/// The entry of a role.
pub open spec fn model_entry(models: JsonValue, role: ModelRole) -> Option<JsonValue> {
    field_of(models, model_entry_name(models, role))
}

/// Why a configuration gives no runtime settings for a role, if it gives
/// none.
pub open spec fn model_config_error(config: JsonValue, role: ModelRole) -> Option<Seq<char>> {
    match models_section(config) {
        None => Some("models_gguf not found in config"@),
        Some(models) => match model_entry(models, role) {
            None => Some(
                match role {
                    ModelRole::Text => "text_model not configured"@,
                    ModelRole::Embedding => "embedding_model not configured"@,
                },
            ),
            Some(entry) => match str_field_of(entry, "path"@) {
                None => Some("Model path missing"@),
                Some(_) => None,
            },
        },
    }
}

/// The integer at `entry[key]`, if it is one that fits in an `i64`.
pub open spec fn i64_field_of(entry: JsonValue, key: Seq<char>) -> Option<i64> {
    match field_of(entry, key) {
        Some(v) => i64_of(v),
        None => None,
    }
}

/// `c` holds the settings of `entry` for `role`: the port and sizes are
/// truncated to their widths, with `0`, `8192` and `-1` when missing.
pub open spec fn runtime_config_from(c: ModelRuntimeConfig, entry: JsonValue, role: ModelRole) -> bool {
    &&& c.model_key@ == match role {
        ModelRole::Text => "text_model"@,
        ModelRole::Embedding => "embedding_model"@,
    }
    &&& str_field_of(entry, "path"@) == Some(c.model_path@)
    &&& c.port == match field_of(entry, "port"@) {
        Some(v) => match u64_of(v) {
            Some(n) => n as u16,
            None => 0u16,
        },
        None => 0u16,
    }
    &&& c.n_ctx == match i64_field_of(entry, "n_ctx"@) {
        Some(n) => n as i32,
        None => 8192i32,
    }
    &&& c.n_gpu_layers == match i64_field_of(entry, "n_gpu_layers"@) {
        Some(n) => n as i32,
        None => -1i32,
    }
    &&& c.top_k == i64_field_of(entry, "top_k"@)
    &&& c.logprobs == match field_of(entry, "logprobs"@) {
        Some(v) => bool_of(v),
        None => None,
    }
    &&& c.enable_embedding == (role == ModelRole::Embedding)
}

fn i64_field(entry: &JsonValue, key: &str) -> (r: Option<i64>)
    ensures
        r == i64_field_of(*entry, key@),
{
    match json_get(entry, key) {
        Some(v) => json_as_i64(v),
        None => None,
    }
}

impl ModelRuntimeConfig {
    /// The settings of the text model.
    pub fn for_chat(config: &JsonValue) -> (r: Result<ModelRuntimeConfig, String>)
        ensures
            match model_config_error(*config, ModelRole::Text) {
                Some(m) => r matches Err(e) && e@ == m,
                None => r matches Ok(c) && runtime_config_from(
                    c,
                    model_entry(models_section(*config)->0, ModelRole::Text)->0,
                    ModelRole::Text,
                ) && c.entry@ == model_entry_name(models_section(*config)->0, ModelRole::Text),
            },
    {
        Self::from_role(config, ModelRole::Text)
    }

    /// The settings of the embedding model.
    pub fn for_embedding(config: &JsonValue) -> (r: Result<ModelRuntimeConfig, String>)
        ensures
            match model_config_error(*config, ModelRole::Embedding) {
                Some(m) => r matches Err(e) && e@ == m,
                None => r matches Ok(c) && runtime_config_from(
                    c,
                    model_entry(models_section(*config)->0, ModelRole::Embedding)->0,
                    ModelRole::Embedding,
                ) && c.entry@ == model_entry_name(models_section(*config)->0, ModelRole::Embedding),
            },
    {
        Self::from_role(config, ModelRole::Embedding)
    }

    fn from_role(config: &JsonValue, role: ModelRole) -> (r: Result<ModelRuntimeConfig, String>)
        ensures
            match model_config_error(*config, role) {
                Some(m) => r matches Err(e) && e@ == m,
                None => r matches Ok(c) && runtime_config_from(
                    c,
                    model_entry(models_section(*config)->0, role)->0,
                    role,
                ) && c.entry@ == model_entry_name(models_section(*config)->0, role),
            },
    {
        let models = match json_get(config, "models_gguf") {
            Some(m) => if json_is_object(m) {
                m
            } else {
                return Err(to_owned_string("models_gguf not found in config"));
            },
            None => {
                return Err(to_owned_string("models_gguf not found in config"));
            },
        };
        let (model_key, entry_name, entry) = match role {
            ModelRole::Text => match json_get(models, "text_model") {
                Some(v) => ("text_model", "text_model", v),
                None => match json_get(models, "character_model") {
                    Some(v) => ("text_model", "character_model", v),
                    None => {
                        return Err(to_owned_string("text_model not configured"));
                    },
                },
            },
            ModelRole::Embedding => match json_get(models, "embedding_model") {
                Some(v) => ("embedding_model", "embedding_model", v),
                None => {
                    return Err(to_owned_string("embedding_model not configured"));
                },
            },
        };
        let model_path = match json_str_field(entry, "path") {
            Some(p) => to_owned_string(p),
            None => {
                return Err(to_owned_string("Model path missing"));
            },
        };
        let port: u16 = match json_get(entry, "port") {
            Some(v) => match json_as_u64(v) {
                Some(n) => n as u16,
                None => 0,
            },
            None => 0,
        };
        let n_ctx: i32 = match i64_field(entry, "n_ctx") {
            Some(n) => n as i32,
            None => 8192,
        };
        let n_gpu_layers: i32 = match i64_field(entry, "n_gpu_layers") {
            Some(n) => n as i32,
            None => -1,
        };
        let top_k = i64_field(entry, "top_k");
        let logprobs = match json_get(entry, "logprobs") {
            Some(v) => json_as_bool(v),
            None => None,
        };
        let enable_embedding = match role {
            ModelRole::Embedding => true,
            ModelRole::Text => false,
        };
        Ok(ModelRuntimeConfig {
            model_key: to_owned_string(model_key),
            entry: to_owned_string(entry_name),
            model_path,
            port,
            n_ctx,
            n_gpu_layers,
            top_k,
            logprobs,
            enable_embedding,
        })
    }
}

/// The arguments a model server is started with: the model file, the port,
/// the context size and the GPU layers, and `--embedding` for an embedding
/// model.
pub open spec fn server_args_of(c: ModelRuntimeConfig, port: u16) -> Seq<Seq<char>> {
    let base = seq![
        "-m"@,
        c.model_path@,
        "--port"@,
        decimal(port as nat),
        "-c"@,
        signed_decimal(c.n_ctx as int),
        "--n-gpu-layers"@,
        signed_decimal(c.n_gpu_layers as int),
    ];
    if c.enable_embedding {
        base.push("--embedding"@)
    } else {
        base
    }
}

fn decimal_text(n: usize) -> (s: String)
    ensures
        s@ == decimal(n as nat),
{
    let mut s = String::new();
    push_decimal(&mut s, n);
    assert(s@ =~= decimal(n as nat));
    s
}

fn signed_text(n: i32) -> (s: String)
    ensures
        s@ == signed_decimal(n as int),
{
    let mut s = String::new();
    push_signed_decimal(&mut s, n as i64);
    assert(s@ =~= signed_decimal(n as int));
    s
}

/// The arguments a model server is started with on `port`.
pub fn server_args(config: &ModelRuntimeConfig, port: u16) -> (args: Vec<String>)
    ensures
        args@.map_values(|a: String| a@) == server_args_of(*config, port),
{
    let mut args: Vec<String> = Vec::new();
    args.push(to_owned_string("-m"));
    args.push(config.model_path.clone());
    args.push(to_owned_string("--port"));
    args.push(decimal_text(port as usize));
    args.push(to_owned_string("-c"));
    args.push(signed_text(config.n_ctx));
    args.push(to_owned_string("--n-gpu-layers"));
    args.push(signed_text(config.n_gpu_layers));
    if config.enable_embedding {
        args.push(to_owned_string("--embedding"));
    }
    proof {
        assert(args@.map_values(|a: String| a@) =~= server_args_of(*config, port));
    }
    args
}

/// A character of a model key as it may stand in a file name: ASCII letters,
/// digits, `_` and `-` stay, anything else becomes `_`.
pub open spec fn file_safe_char(c: char) -> char {
    if ('a' <= c && c <= 'z') || ('A' <= c && c <= 'Z') || ('0' <= c && c <= '9') || c == '_' || c
        == '-' {
        c
    } else {
        '_'
    }
}

/// The log file name of a model server started at `timestamp` (seconds
/// since the epoch).
pub open spec fn server_log_name_of(model_key: Seq<char>, timestamp: i64) -> Seq<char> {
    "llama_server_"@ + model_key.map_values(|c: char| file_safe_char(c)) + "_"@ + signed_decimal(
        timestamp as int,
    ) + ".log"@
}

/// The log file name of a model server started at `timestamp`.
pub fn server_log_name(model_key: &str, timestamp: i64) -> (s: String)
    ensures
        s@ == server_log_name_of(model_key@, timestamp),
{
    let v = chars_of(model_key);
    let mut s = to_owned_string("llama_server_");
    let ghost start = s@;
    let mut i: usize = 0;
    while i < v.len()
        invariant
            v@ == model_key@,
            0 <= i <= v@.len(),
            start == "llama_server_"@,
            s@ == start + v@.take(i as int).map_values(|c: char| file_safe_char(c)),
        decreases v.len() - i,
    {
        let c = v[i];
        let keep = ('a' <= c && c <= 'z') || ('A' <= c && c <= 'Z') || ('0' <= c && c <= '9') || c
            == '_' || c == '-';
        let ghost before = s@;
        if keep {
            crate::text::string_push(&mut s, c);
        } else {
            crate::text::string_push(&mut s, '_');
        }
        proof {
            assert(v@.take(i + 1).map_values(|c: char| file_safe_char(c)) =~= v@.take(
                i as int,
            ).map_values(|c: char| file_safe_char(c)).push(file_safe_char(c)));
        }
        i = i + 1;
    }
    proof {
        assert(v@.take(v@.len() as int) =~= v@);
    }
    push_str(&mut s, "_");
    push_signed_decimal(&mut s, timestamp);
    push_str(&mut s, ".log");
    s
}

/// A health answer says the server is ready: its `status` is `"ok"`.
pub open spec fn health_ok_of(payload: JsonValue) -> bool {
    str_field_of(payload, "status"@) == Some("ok"@)
}

/// Whether a health answer says the server is ready.
pub fn health_ok(payload: &JsonValue) -> (r: bool)
    ensures
        r == health_ok_of(*payload),
{
    match json_str_field(payload, "status") {
        Some(s) => str_eq(s, "ok"),
        None => false,
    }
}

} // verus!
