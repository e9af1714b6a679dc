//! The rules of the knowledge store: what an ingest request must carry,
//! which pre-chunked pieces are stored, the ids of new chunks, and how a
//! context text is assembled within its length budget.

use vstd::prelude::*;

use crate::text::{
    char_count, decimal, first_chars, push_decimal, push_str, take_chars, to_owned_string, trim,
    trim_str,
};

verus! {

broadcast use vstd::string::group_string_axioms;

/// Errors of the knowledge and memory ports.
#[derive(Debug, Clone, PartialEq, Eq)]
pub enum DomainError {
    /// The request is malformed.
    InvalidInput(String),
    /// The operation is not available here.
    NotSupported(String),
    /// The store failed.
    Storage(String),
}

/// The error's kind and message.
pub open spec fn error_parts(e: DomainError) -> (nat, Seq<char>) {
    match e {
        DomainError::InvalidInput(m) => (0, m@),
        DomainError::NotSupported(m) => (1, m@),
        DomainError::Storage(m) => (2, m@),
    }
}

/// The session id of an ingest request, trimmed; it must not be blank.
pub fn required_session(session_id: &str) -> (r: Result<String, DomainError>)
    ensures
        trim(session_id@).len() > 0 ==> (r matches Ok(s) && s@ == trim(session_id@)),
        trim(session_id@).len() == 0 ==> (r matches Err(e) && error_parts(e) == (
            0nat,
            "session_id is required"@,
        )),
{
    let t = trim_str(session_id);
    if t.unicode_len() == 0 {
        return Err(DomainError::InvalidInput(to_owned_string("session_id is required")));
    }
    Ok(t)
}

/// A text to ingest must have content and a source; the source is trimmed.
pub fn check_text_source(content: &str, source: &str) -> (r: Result<String, DomainError>)
    ensures
        trim(content@).len() == 0 ==> (r matches Err(e) && error_parts(e) == (
            0nat,
            "knowledge text content is empty"@,
        )),
        trim(content@).len() > 0 && trim(source@).len() == 0 ==> (r matches Err(e) && error_parts(e)
            == (0nat, "knowledge source is empty"@)),
        trim(content@).len() > 0 && trim(source@).len() > 0 ==> (r matches Ok(s) && s@ == trim(
            source@,
        )),
{
    if trim_str(content).unicode_len() == 0 {
        return Err(DomainError::InvalidInput(to_owned_string("knowledge text content is empty")));
    }
    let s = trim_str(source);
    if s.unicode_len() == 0 {
        return Err(DomainError::InvalidInput(to_owned_string("knowledge source is empty")));
    }
    Ok(s)
}

/// A URL to ingest, trimmed; it must not be blank.
pub fn check_url(url: &str) -> (r: Result<String, DomainError>)
    ensures
        trim(url@).len() > 0 ==> (r matches Ok(s) && s@ == trim(url@)),
        trim(url@).len() == 0 ==> (r matches Err(e) && error_parts(e) == (
            0nat,
            "knowledge URL is empty"@,
        )),
{
    let t = trim_str(url);
    if t.unicode_len() == 0 {
        return Err(DomainError::InvalidInput(to_owned_string("knowledge URL is empty")));
    }
    Ok(t)
}

/// Every chunk must have received one embedding.
pub fn check_embedding_count(embeddings: usize, chunks: usize) -> (r: Result<(), DomainError>)
    ensures
        embeddings == chunks ==> r is Ok,
        embeddings != chunks ==> (r matches Err(e) && error_parts(e) == (
            2nat,
            "embedding/chunk size mismatch: "@ + decimal(embeddings as nat) + " != "@ + decimal(
                chunks as nat,
            ),
        )),
{
    if embeddings == chunks {
        return Ok(());
    }
    let mut m = to_owned_string("embedding/chunk size mismatch: ");
    push_decimal(&mut m, embeddings);
    push_str(&mut m, " != ");
    push_decimal(&mut m, chunks);
    Err(DomainError::Storage(m))
}

/// A pre-chunked piece of an ingest request, without its vector.
#[derive(Debug, Clone)]
pub struct PendingChunk {
    pub content: String,
    pub chunk_id: Option<String>,
    pub source: String,
    /// The length of its embedding.
    pub embedding_len: usize,
}

/// The pieces that are stored: those with non-blank content, by index.
pub open spec fn kept_chunks(chunks: Seq<PendingChunk>) -> Seq<nat>
    decreases chunks.len(),
{
    if chunks.len() == 0 {
        seq![]
    } else {
        let rest = kept_chunks(chunks.drop_last());
        if trim(chunks.last().content@).len() > 0 {
            rest.push((chunks.len() - 1) as nat)
        } else {
            rest
        }
    }
}

/// Some stored piece has no embedding.
pub open spec fn missing_embedding(chunks: Seq<PendingChunk>) -> bool {
    exists|i: int|
        0 <= i < chunks.len() && trim(chunks[i].content@).len() > 0 && #[trigger] chunks[i].embedding_len
            == 0
}

/// The pieces of a pre-chunked request that are stored, by index; blank
/// pieces are skipped, and a stored piece without an embedding refuses the
/// request.
pub fn select_chunks(chunks: &Vec<PendingChunk>) -> (r: Result<Vec<usize>, DomainError>)
    ensures
        missing_embedding(chunks@) ==> (r matches Err(e) && error_parts(e) == (
            0nat,
            "chunk embedding is required for pre-chunked ingest"@,
        )),
        !missing_embedding(chunks@) ==> (r matches Ok(v) && v@.map_values(|i: usize| i as nat)
            == kept_chunks(chunks@)),
{
    let mut kept: Vec<usize> = Vec::new();
    let mut i: usize = 0;
    while i < chunks.len()
        invariant
            0 <= i <= chunks@.len(),
            kept@.map_values(|k: usize| k as nat) == kept_chunks(chunks@.take(i as int)),
            forall|j: int|
                0 <= j < i && trim(chunks@[j].content@).len() > 0 ==> #[trigger] chunks@[j].embedding_len
                    != 0,
        decreases chunks.len() - i,
    {
        proof {
            assert(chunks@.take(i + 1).drop_last() =~= chunks@.take(i as int));
            assert(chunks@.take(i + 1).last() == chunks@[i as int]);
        }
        let chunk = &chunks[i];
        if trim_str(chunk.content.as_str()).unicode_len() > 0 {
            if chunk.embedding_len == 0 {
                return Err(
                    DomainError::InvalidInput(
                        to_owned_string("chunk embedding is required for pre-chunked ingest"),
                    ),
                );
            }
            let ghost before = kept@;
            kept.push(i);
            proof {
                assert(kept@.map_values(|k: usize| k as nat) =~= before.map_values(
                    |k: usize| k as nat,
                ).push(i as nat));
            }
        }
        i = i + 1;
    }
    proof {
        assert(chunks@.take(chunks@.len() as int) =~= chunks@);
    }
    Ok(kept)
}

/// A version 4 UUID in its hyphenated form: 36 characters, hyphens after
/// the 8th, 12th, 16th and 20th hex digit, and `4` as the version digit.
pub open spec fn is_uuid_v4_text(u: Seq<char>) -> bool {
    &&& u.len() == 36
    &&& u[8] == '-' && u[13] == '-' && u[18] == '-' && u[23] == '-'
    &&& u[14] == '4'
}

/// `Uuid::new_v4().to_string()`.
///
/// The digits are random; what holds of every outcome is the hyphenated
/// layout `uuid` writes (`Hyphenated::LENGTH` is 36) and the version digit.
#[verifier::external_body]
fn random_uuid() -> (u: String)
    ensures
        is_uuid_v4_text(u@),
{
    uuid::Uuid::new_v4().to_string()
}

/// The id of a stored chunk: the given one, or `"rag-"` and a fresh UUID.
pub fn chunk_id_or_new(given: Option<String>) -> (id: String)
    ensures
        match given {
            Some(g) => id == g,
            None => exists|u: Seq<char>| id@ == "rag-"@ + u && is_uuid_v4_text(u),
        },
{
    match given {
        Some(g) => g,
        None => {
            let u = random_uuid();
            let mut id = to_owned_string("rag-");
            push_str(&mut id, u.as_str());
            assert(id@ == "rag-"@ + u@);
            id
        },
    }
}

/// A chunk as it is stored: its id, text, source, the trimmed session it
/// belongs to, and its position in the request (whose embedding and
/// metadata go with it).
#[derive(Debug, Clone)]
pub struct ChunkRecord {
    pub position: usize,
    pub chunk_id: String,
    pub content: String,
    pub source: String,
    pub session_id: String,
}

/// Record `i` stores the `i`-th kept piece, at `position`, under `session`,
/// with the given id or `"rag-"` and a fresh UUID.
pub open spec fn is_chunk_record(r: ChunkRecord, position: nat, piece: PendingChunk, session: Seq<char>) -> bool {
    &&& r.position == position
    &&& r.content@ == piece.content@
    &&& r.source@ == piece.source@
    &&& r.session_id@ == session
    &&& match piece.chunk_id {
        Some(g) => r.chunk_id@ == g@,
        None => exists|u: Seq<char>| r.chunk_id@ == "rag-"@ + u && is_uuid_v4_text(u),
    }
}

/// The records of a pre-chunked ingest, in request order: the session must
/// not be blank, blank pieces are skipped, a kept piece without an
/// embedding refuses the request, and every record is stored under the
/// trimmed session.  The ingest's result is the records' ids, in order.
pub fn chunk_records(session_id: &str, chunks: &Vec<PendingChunk>) -> (r: Result<
    Vec<ChunkRecord>,
    DomainError,
>)
    ensures
        trim(session_id@).len() == 0 ==> (r matches Err(e) && error_parts(e) == (
            0nat,
            "session_id is required"@,
        )),
        trim(session_id@).len() > 0 && missing_embedding(chunks@) ==> (r matches Err(e)
            && error_parts(e) == (0nat, "chunk embedding is required for pre-chunked ingest"@)),
        trim(session_id@).len() > 0 && !missing_embedding(chunks@) ==> (r matches Ok(recs) && {
            let kept = kept_chunks(chunks@);
            &&& recs@.len() == kept.len()
            &&& forall|i: int|
                0 <= i < recs@.len() ==> is_chunk_record(
                    #[trigger] recs@[i],
                    kept[i],
                    chunks@[kept[i] as int],
                    trim(session_id@),
                )
        }),
{
    let session = match required_session(session_id) {
        Ok(s) => s,
        Err(e) => return Err(e),
    };
    let kept = match select_chunks(chunks) {
        Ok(v) => v,
        Err(e) => return Err(e),
    };
    let ghost ks = kept@.map_values(|k: usize| k as nat);
    proof {
        lemma_kept_in_range(chunks@);
    }
    let mut recs: Vec<ChunkRecord> = Vec::new();
    let mut i: usize = 0;
    while i < kept.len()
        invariant
            ks == kept@.map_values(|k: usize| k as nat),
            ks == kept_chunks(chunks@),
            forall|j: int| 0 <= j < ks.len() ==> #[trigger] ks[j] < chunks@.len(),
            session@ == trim(session_id@),
            0 <= i <= kept@.len(),
            recs@.len() == i,
            forall|j: int|
                0 <= j < i ==> is_chunk_record(
                    #[trigger] recs@[j],
                    ks[j],
                    chunks@[ks[j] as int],
                    session@,
                ),
        decreases kept.len() - i,
    {
        let k = kept[i];
        assert(ks[i as int] == k as nat);
        let piece = &chunks[k];
        let chunk_id = match &piece.chunk_id {
            Some(g) => chunk_id_or_new(Some(g.clone())),
            None => chunk_id_or_new(None),
        };
        recs.push(
            ChunkRecord {
                position: k,
                chunk_id,
                content: piece.content.clone(),
                source: piece.source.clone(),
                session_id: session.clone(),
            },
        );
        i = i + 1;
    }
    Ok(recs)
}

/// Every kept position is a position of the request.
proof fn lemma_kept_in_range(chunks: Seq<PendingChunk>)
    ensures
        forall|j: int| 0 <= j < kept_chunks(chunks).len() ==> #[trigger] kept_chunks(chunks)[j] < chunks.len(),
    decreases chunks.len(),
{
    if chunks.len() > 0 {
        let rest = kept_chunks(chunks.drop_last());
        lemma_kept_in_range(chunks.drop_last());
        assert forall|j: int| 0 <= j < kept_chunks(chunks).len() implies #[trigger] kept_chunks(
            chunks,
        )[j] < chunks.len() by {
            if j < rest.len() {
                assert(kept_chunks(chunks)[j] == rest[j]);
            }
        }
    }
}

/// The ids an ingest returns: those of its records, in order.
pub fn record_ids(recs: &Vec<ChunkRecord>) -> (ids: Vec<String>)
    ensures
        ids@.len() == recs@.len(),
        forall|i: int| 0 <= i < ids@.len() ==> (#[trigger] ids@[i])@ == recs@[i].chunk_id@,
{
    let mut ids: Vec<String> = Vec::new();
    let mut i: usize = 0;
    while i < recs.len()
        invariant
            0 <= i <= recs@.len(),
            ids@.len() == i,
            forall|j: int| 0 <= j < i ==> (#[trigger] ids@[j])@ == recs@[j].chunk_id@,
        decreases recs.len() - i,
    {
        ids.push(recs[i].chunk_id.clone());
        i = i + 1;
    }
    ids
}

// ---------------------------------------------------------------------------
// Context assembly
// ---------------------------------------------------------------------------

/// The context's heading for a question: `"Question: <q>\n\n"` when the
/// trimmed question is not empty.
pub open spec fn question_heading(query: Seq<char>) -> Seq<char> {
    if trim(query).len() > 0 {
        "Question: "@ + trim(query) + "\n\n"@
    } else {
        Seq::<char>::empty()
    }
}

/// The context after offering each section in turn: a section is added when
/// the context stays within `max_len` characters.
pub open spec fn fit_sections(ctx: Seq<char>, sections: Seq<Seq<char>>, max_len: nat) -> (Seq<char>, bool)
    decreases sections.len(),
{
    if sections.len() == 0 {
        (ctx, false)
    } else {
        let (c, added) = fit_sections(ctx, sections.drop_last(), max_len);
        let s = sections.last();
        if c.len() + s.len() > max_len {
            (c, added)
        } else {
            (c + s, true)
        }
    }
}

/// The context text: the question heading, then the sections that fit
/// within the budget (at least 1 character); when none fits, the fallback
/// cut to the budget; all trimmed.  No sections give an empty context.
pub open spec fn context_text(query: Seq<char>, sections: Seq<Seq<char>>, fallback: Seq<char>, max_len: nat) -> Seq<char> {
    if sections.len() == 0 {
        Seq::<char>::empty()
    } else {
        let budget = if max_len == 0 {
            1
        } else {
            max_len
        };
        let (c, added) = fit_sections(question_heading(query), sections, budget);
        if added {
            trim(c)
        } else {
            trim(c + take_chars(fallback, budget))
        }
    }
}

/// Assembles the context text from rendered sections.
pub fn assemble_context(query: &str, sections: &Vec<String>, fallback: &str, max_len: usize) -> (out: String)
    ensures
        out@ == context_text(
            query@,
            sections@.map_values(|s: String| s@),
            fallback@,
            max_len as nat,
        ),
{
    let ghost secs = sections@.map_values(|s: String| s@);
    if sections.len() == 0 {
        return String::new();
    }
    let budget: usize = if max_len == 0 {
        1
    } else {
        max_len
    };
    let mut context = String::new();
    let q = trim_str(query);
    if q.unicode_len() > 0 {
        push_str(&mut context, "Question: ");
        push_str(&mut context, q.as_str());
        push_str(&mut context, "\n\n");
    }
    let mut used: usize = char_count(context.as_str());
    let mut added = false;
    let mut i: usize = 0;
    assert(context@ == question_heading(query@));
    assert(secs.take(0) =~= Seq::<Seq<char>>::empty());
    while i < sections.len()
        invariant
            secs == sections@.map_values(|s: String| s@),
            0 <= i <= sections@.len(),
            used == context@.len(),
            (context@, added) == fit_sections(question_heading(query@), secs.take(i as int), budget as nat),
        decreases sections.len() - i,
    {
        proof {
            assert(secs.take(i + 1).drop_last() =~= secs.take(i as int));
            assert(secs.take(i + 1).last() == sections@[i as int]@);
        }
        let n = char_count(sections[i].as_str());
        if used <= budget && n <= budget - used {
            push_str(&mut context, sections[i].as_str());
            used = used + n;
            added = true;
        }
        i = i + 1;
    }
    proof {
        assert(secs.take(sections@.len() as int) =~= secs);
    }
    if !added {
        let cut = first_chars(fallback, budget);
        push_str(&mut context, cut.as_str());
    }
    trim_str(context.as_str())
}

} // verus!
