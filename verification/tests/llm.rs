use tepora_core::graph::search_flow::parse_json_payload;
use tepora_core::llm::{
    accept_stream_chunk, answer_agent_name, completion_content, drop_repeated_input,
    extract_delta, model_id_or_default, push_synthesis_request, stream_delta, ChatMessage,
    health_ok, reasoning_message, server_args, server_log_name, ModelRuntimeConfig, StreamDecoder, StreamEvent,
};
use tepora_core::json::JsonValue;

fn msg(role: &str, content: &str) -> ChatMessage {
    ChatMessage { role: role.to_string(), content: content.to_string() }
}

#[test]
fn repeated_input_is_dropped() {
    let mut messages = vec![msg("system", "s"), msg("user", "  hello ")];
    drop_repeated_input(&mut messages, "hello");
    assert_eq!(messages.len(), 1);
    let mut messages = vec![msg("assistant", "hello")];
    drop_repeated_input(&mut messages, "hello");
    assert_eq!(messages.len(), 1);
    let mut empty: Vec<ChatMessage> = vec![];
    drop_repeated_input(&mut empty, "x");
    assert!(empty.is_empty());
}

#[test]
fn synthesis_request_appends_two_messages() {
    let mut messages = vec![msg("system", "ctx")];
    push_synthesis_request(&mut messages, "question");
    assert_eq!(messages.len(), 3);
    assert_eq!(messages[1].role, "system");
    assert!(messages[1].content.starts_with("Use only summarized artifacts"));
    assert_eq!(messages[2].role, "user");
    assert_eq!(messages[2].content, "question");
    assert_eq!(answer_agent_name(None), "Assistant");
    assert_eq!(answer_agent_name(Some("coder")), "coder");
    assert_eq!(model_id_or_default(None), "default");
    assert_eq!(model_id_or_default(Some("m1".to_string())), "m1");
}

#[test]
fn stream_chunks_accumulate() {
    let mut answer = String::new();
    let f = accept_stream_chunk(&mut answer, "thinking...", "");
    assert!(f.thought && !f.text);
    let f = accept_stream_chunk(&mut answer, "", "Hel");
    assert!(!f.thought && f.text);
    accept_stream_chunk(&mut answer, "", "lo");
    assert_eq!(answer, "Hello");
}

#[test]
fn decoder_splits_events_across_pieces() {
    let mut decoder = StreamDecoder::new();
    let events = decoder.push("data: {\"a\":1}\n\nda");
    assert_eq!(events, vec![StreamEvent::Data("{\"a\":1}".to_string())]);
    let events = decoder.push("ta: second \r\n: comment\ndata: [DONE]\n");
    assert_eq!(
        events,
        vec![StreamEvent::Data("second".to_string()), StreamEvent::Done]
    );
    assert!(decoder.push("partial").is_empty());
    assert_eq!(decoder.push("\n"), vec![]);
}

#[test]
fn completion_payload_text() {
    let delta = parse_json_payload(r#"{"choices":[{"delta":{"content":"Hi"}}]}"#).unwrap();
    assert_eq!(extract_delta(&delta), Some("Hi".to_string()));
    let text = parse_json_payload(r#"{"choices":[{"text":"T"}]}"#).unwrap();
    assert_eq!(extract_delta(&text), Some("T".to_string()));
    let none = parse_json_payload(r#"{"choices":[]}"#).unwrap();
    assert_eq!(extract_delta(&none), None);
    assert_eq!(stream_delta(r#"{"choices":[{"delta":{"content":""}}]}"#), None);
    assert_eq!(stream_delta("not json"), None);
    assert_eq!(stream_delta(r#"{"choices":[{"message":{"content":"M"}}]}"#), Some("M".to_string()));
    let full = parse_json_payload(r#"{"choices":[{"message":{"content":"Answer"}}]}"#).unwrap();
    assert_eq!(completion_content(&full), "Answer");
    assert_eq!(completion_content(&JsonValue::Null), "");
}

#[test]
fn model_runtime_settings_from_config() {
    let config = parse_json_payload(
        r#"{"models_gguf": {
            "character_model": {"path": "/m/chat.gguf", "port": 65537, "n_ctx": 4096, "top_k": 40, "logprobs": true},
            "embedding_model": {"path": "/m/embed.gguf", "n_gpu_layers": 12}
        }}"#,
    )
    .unwrap();
    let chat = ModelRuntimeConfig::for_chat(&config).unwrap();
    assert_eq!(chat.model_key, "text_model");
    assert_eq!(chat.entry, "character_model");
    assert_eq!(chat.model_path, "/m/chat.gguf");
    assert_eq!(chat.port, 1);
    assert_eq!((chat.n_ctx, chat.n_gpu_layers), (4096, -1));
    assert_eq!((chat.top_k, chat.logprobs, chat.enable_embedding), (Some(40), Some(true), false));
    let embed = ModelRuntimeConfig::for_embedding(&config).unwrap();
    assert_eq!(embed.model_key, "embedding_model");
    assert_eq!(embed.entry, "embedding_model");
    assert_eq!((embed.port, embed.n_ctx, embed.n_gpu_layers), (0, 8192, 12));
    assert_eq!((embed.top_k, embed.logprobs, embed.enable_embedding), (None, None, true));
}

#[test]
fn model_runtime_settings_errors() {
    let err = |text: &str| ModelRuntimeConfig::for_chat(&parse_json_payload(text).unwrap()).unwrap_err();
    assert_eq!(err(r#"{}"#), "models_gguf not found in config");
    assert_eq!(err(r#"{"models_gguf": []}"#), "models_gguf not found in config");
    assert_eq!(err(r#"{"models_gguf": {}}"#), "text_model not configured");
    assert_eq!(err(r#"{"models_gguf": {"text_model": {"port": 1}}}"#), "Model path missing");
    let config = parse_json_payload(r#"{"models_gguf": {"text_model": {"path": "p"}}}"#).unwrap();
    assert_eq!(
        ModelRuntimeConfig::for_embedding(&config).unwrap_err(),
        "embedding_model not configured"
    );
}

#[test]
fn decoder_events_do_not_depend_on_how_the_stream_is_cut() {
    let stream = "data: {\"a\":1}\n\n: comment\ndata: two \r\ndata: [DONE]\nda";
    let mut whole = StreamDecoder::new();
    let all = whole.push(stream);
    for cut in 0..stream.len() {
        if !stream.is_char_boundary(cut) {
            continue;
        }
        let mut pieces = StreamDecoder::new();
        let mut events = pieces.push(&stream[..cut]);
        events.extend(pieces.push(&stream[cut..]));
        assert_eq!(events, all, "cut at {}", cut);
        let mut rest_a = pieces;
        let mut rest_b = StreamDecoder::new();
        rest_b.push(stream);
        assert_eq!(rest_a.push("ta: x\n"), rest_b.push("ta: x\n"));
    }
    assert_eq!(
        all,
        vec![
            StreamEvent::Data("{\"a\":1}".to_string()),
            StreamEvent::Data("two".to_string()),
            StreamEvent::Done
        ]
    );
}

#[test]
fn reasoning_is_handed_over_as_a_system_message() {
    let m = reasoning_message("step 1");
    assert_eq!(m.role, "system");
    assert_eq!(m.content, "Your reasoning process (use this to inform your response):\nstep 1");
}

#[test]
fn model_servers_start_with_their_settings() {
    let config = parse_json_payload(
        r#"{"models_gguf": {"text_model": {"path": "/m/chat.gguf"}, "embedding_model": {"path": "/m/e.gguf", "n_ctx": 512, "n_gpu_layers": 0}}}"#,
    )
    .unwrap();
    let chat = ModelRuntimeConfig::for_chat(&config).unwrap();
    assert_eq!(
        server_args(&chat, 8081),
        vec!["-m", "/m/chat.gguf", "--port", "8081", "-c", "8192", "--n-gpu-layers", "-1"]
    );
    let embed = ModelRuntimeConfig::for_embedding(&config).unwrap();
    assert_eq!(
        server_args(&embed, 65535),
        vec!["-m", "/m/e.gguf", "--port", "65535", "-c", "512", "--n-gpu-layers", "0", "--embedding"]
    );
}

#[test]
fn server_logs_are_named_by_model_and_time() {
    assert_eq!(server_log_name("text_model", 1_700_000_000), "llama_server_text_model_1700000000.log");
    assert_eq!(server_log_name("a/b c-ü.9", 7), "llama_server_a_b_c-__9_7.log");
    assert_eq!(server_log_name("", -5), "llama_server__-5.log");
}

#[test]
fn health_answers() {
    assert!(health_ok(&parse_json_payload(r#"{"status": "ok"}"#).unwrap()));
    assert!(!health_ok(&parse_json_payload(r#"{"status": "loading"}"#).unwrap()));
    assert!(!health_ok(&parse_json_payload(r#"{"status": 1}"#).unwrap()));
    assert!(!health_ok(&JsonValue::Null));
}
