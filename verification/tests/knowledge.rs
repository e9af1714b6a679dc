use tepora_core::knowledge::{
    assemble_context, check_embedding_count, check_text_source, check_url, chunk_id_or_new,
    required_session, select_chunks, DomainError, PendingChunk, chunk_records, record_ids,
};

#[test]
fn ingest_requests_are_validated() {
    assert_eq!(required_session("  s1 "), Ok("s1".to_string()));
    assert_eq!(
        required_session("  "),
        Err(DomainError::InvalidInput("session_id is required".to_string()))
    );
    assert_eq!(check_text_source("body", " src "), Ok("src".to_string()));
    assert_eq!(
        check_text_source(" ", "src"),
        Err(DomainError::InvalidInput("knowledge text content is empty".to_string()))
    );
    assert_eq!(
        check_text_source("body", ""),
        Err(DomainError::InvalidInput("knowledge source is empty".to_string()))
    );
    assert_eq!(check_url(" http://x "), Ok("http://x".to_string()));
    assert_eq!(
        check_url(""),
        Err(DomainError::InvalidInput("knowledge URL is empty".to_string()))
    );
    assert_eq!(check_embedding_count(2, 2), Ok(()));
    assert_eq!(
        check_embedding_count(1, 3),
        Err(DomainError::Storage("embedding/chunk size mismatch: 1 != 3".to_string()))
    );
}

fn pending(content: &str, len: usize) -> PendingChunk {
    PendingChunk { content: content.to_string(), chunk_id: None, source: "manual".to_string(), embedding_len: len }
}

#[test]
fn prechunked_ingest_skips_blank_and_requires_embeddings() {
    let chunks = vec![pending("a", 3), pending("  ", 0), pending("b", 3)];
    assert_eq!(select_chunks(&chunks), Ok(vec![0, 2]));
    let bad = vec![pending("a", 3), pending("b", 0)];
    assert_eq!(
        select_chunks(&bad),
        Err(DomainError::InvalidInput(
            "chunk embedding is required for pre-chunked ingest".to_string()
        ))
    );
}

#[test]
fn chunk_ids_are_kept_or_generated() {
    assert_eq!(chunk_id_or_new(Some("given".to_string())), "given");
    let id = chunk_id_or_new(None);
    assert!(id.starts_with("rag-"));
    assert_eq!(id.len(), 4 + 36);
}

#[test]
fn context_fits_sections_in_budget() {
    let sections = vec!["[1] aaa\n\n".to_string(), "[2] bbbbbbbbbbbb\n\n".to_string(), "[3] c\n\n".to_string()];
    let ctx = assemble_context("  q ", &sections, "fallback", 30);
    assert_eq!(ctx, "Question: q\n\n[1] aaa\n\n[3] c");
    let ctx = assemble_context("", &sections, "fallback text", 5);
    assert_eq!(ctx, "fallb");
    assert_eq!(assemble_context("q", &vec![], "f", 10), "");
    assert_eq!(assemble_context("", &vec!["x".to_string()], "f", 0), "x");
}

#[test]
fn fresh_chunk_ids_carry_a_v4_uuid() {
    let id = chunk_id_or_new(None);
    assert!(id.starts_with("rag-"));
    let u = &id[4..];
    assert_eq!(u.len(), 36);
    assert_eq!(u.as_bytes()[14], b'4');
    assert_eq!((u.as_bytes()[8], u.as_bytes()[13], u.as_bytes()[18], u.as_bytes()[23]), (b'-', b'-', b'-', b'-'));
    assert_ne!(chunk_id_or_new(None), id);
}

#[test]
fn ingest_search_build_context_and_clear_with_chunks() {
    let chunks = vec![
        PendingChunk {
            content: "Rust ownership prevents data races.".to_string(),
            chunk_id: Some("chunk-a".to_string()),
            source: "manual".to_string(),
            embedding_len: 2,
        },
        PendingChunk {
            content: "Tokio enables asynchronous I/O in Rust.".to_string(),
            chunk_id: Some("chunk-b".to_string()),
            source: "manual".to_string(),
            embedding_len: 2,
        },
    ];
    let records = chunk_records("session-1", &chunks).unwrap();
    assert_eq!(record_ids(&records), vec!["chunk-a".to_string(), "chunk-b".to_string()]);
    for (i, r) in records.iter().enumerate() {
        assert_eq!(r.position, i);
        assert_eq!(r.session_id, "session-1");
        assert_eq!(r.source, "manual");
        assert_eq!(r.content, chunks[i].content);
    }
}

#[test]
fn chunk_records_trim_session_skip_blank_and_refuse() {
    let chunks = vec![pending("a", 3), pending("  ", 0), pending("b", 3)];
    let records = chunk_records("  s1 ", &chunks).unwrap();
    assert_eq!(records.len(), 2);
    assert_eq!(records[0].position, 0);
    assert_eq!(records[1].position, 2);
    assert_eq!(records[1].session_id, "s1");
    assert!(records[0].chunk_id.starts_with("rag-"));
    assert_eq!(
        chunk_records("   ", &chunks).unwrap_err(),
        DomainError::InvalidInput("session_id is required".to_string())
    );
    assert_eq!(
        chunk_records("s1", &vec![pending("a", 0)]).unwrap_err(),
        DomainError::InvalidInput("chunk embedding is required for pre-chunked ingest".to_string())
    );
    assert!(chunk_records("s1", &Vec::new()).unwrap().is_empty());
}
