use jarvis::stream::{
    event_payloads, stream_route, unstreamed_pieces, ChunkDelta, ChunkUsage, SseBuffer,
    StreamChunk, StreamState, ToolCallDelta,
};

fn feed(chunks: &[&str]) -> (Vec<String>, String) {
    let mut b = SseBuffer::new();
    let mut all = Vec::new();
    for c in chunks {
        all.extend(b.push_chunk(c));
    }
    (all, b.pending)
}

#[test]
fn sse_blocks_split_at_blank_lines() {
    let (blocks, rest) = feed(&["data: a\n\ndata: b\n\nda"]);
    assert_eq!(blocks, vec!["data: a".to_string(), "data: b".to_string()]);
    assert_eq!(rest, "da");
}

#[test]
fn sse_chunking_does_not_matter() {
    let text = "data: {\"x\":1}\n\n\n\ndata: [DONE]\n\ntail";
    let whole = feed(&[text]);
    let bytes: Vec<char> = text.chars().collect();
    for cut in 0..bytes.len() {
        let a: String = bytes[..cut].iter().collect();
        let b: String = bytes[cut..].iter().collect();
        assert_eq!(feed(&[&a, &b]), whole);
    }
    assert_eq!(whole.0, vec!["data: {\"x\":1}".to_string(), "".to_string(), "data: [DONE]".to_string()]);
    assert_eq!(whole.1, "tail");
}

#[test]
fn payloads_of_event_lines() {
    assert_eq!(event_payloads("event: x\ndata:  {\"a\":1} \r\ndata: [DONE]\ndata:nospace"), vec!["{\"a\":1}".to_string()]);
    assert!(event_payloads("").is_empty());
    assert_eq!(event_payloads("data: last\r"), vec!["last".to_string()]);
}

fn content(text: &str) -> StreamChunk {
    StreamChunk {
        delta: Some(ChunkDelta { content: Some(text.to_string()), reasoning_content: None, tool_calls: vec![] }),
        finish_reason: None,
        usage: None,
        model: None,
    }
}

#[test]
fn stream_state_collects_text_and_calls() {
    let mut st = StreamState::start("m0".to_string());
    assert_eq!(st.apply(&content("Hel")), vec!["Hel".to_string()]);
    assert_eq!(st.apply(&content("lo")), vec!["lo".to_string()]);
    let ev = StreamChunk {
        delta: Some(ChunkDelta {
            content: None,
            reasoning_content: Some("thinking".to_string()),
            tool_calls: vec![
                ToolCallDelta { index: Some(1), id: Some("c2".to_string()), name: Some("get_tasks".to_string()), arguments: Some("{\"a\"".to_string()) },
                ToolCallDelta { index: Some(1), id: Some("".to_string()), name: None, arguments: Some(":1}".to_string()) },
            ],
        }),
        finish_reason: Some("tool_calls".to_string()),
        usage: Some(ChunkUsage { prompt_tokens: Some(12), completion_tokens: None }),
        model: Some("m1".to_string()),
    };
    // Reasoning text is only used while the text is blank.
    assert!(st.apply(&ev).is_empty());
    assert_eq!(st.calls.len(), 2);
    assert_eq!(st.calls[0].function.name, "");
    assert_eq!(st.calls[1].id, "c2");
    assert_eq!(st.calls[1].function.arguments, "{\"a\":1}");
    let resp = st.finish().unwrap();
    assert_eq!(resp.text, "Hello");
    assert_eq!(resp.tool_calls.len(), 1);
    assert_eq!(resp.tool_calls[0].function.name, "get_tasks");
    assert_eq!(resp.finish_reason, "tool_calls");
    assert_eq!(resp.tokens_in, 12);
    assert_eq!(resp.tokens_out, 0);
    assert_eq!(resp.model, "m1");
}

#[test]
fn stream_reasoning_fallback_and_empty_error() {
    let mut st = StreamState::start("m".to_string());
    let ev = StreamChunk {
        delta: Some(ChunkDelta { content: Some("  ".to_string()), reasoning_content: Some("r".to_string()), tool_calls: vec![] }),
        finish_reason: Some("".to_string()),
        usage: None,
        model: None,
    };
    assert_eq!(st.apply(&ev), vec!["  ".to_string(), "r".to_string()]);
    let resp = st.finish().unwrap();
    assert_eq!(resp.text, "  r");
    assert_eq!(resp.finish_reason, "stop");
    assert_eq!(resp.model, "m");
    let empty = StreamState::start("m".to_string());
    assert_eq!(empty.finish().unwrap_err(), "LLM 流式响应既无内容也无 tool_calls");
}

#[test]
fn stream_route_by_protocol() {
    assert_eq!(stream_route("k", "u", "chat"), Ok(true));
    assert_eq!(stream_route("k", "u", "responses"), Ok(false));
    assert_eq!(stream_route("k", "u", "anthropic"), Ok(false));
    assert_eq!(stream_route("k", "", "chat"), Err("LLM baseUrl 未配置".to_string()));
    assert!(stream_route("", "u", "chat").unwrap_err().starts_with("LLM apiKey 未配置"));
    assert_eq!(unstreamed_pieces("all"), vec!["all".to_string()]);
    assert!(unstreamed_pieces("").is_empty());
}

#[test]
fn shown_pieces_join_to_final_text() {
    let mut st = StreamState::start("m".to_string());
    let mut shown: Vec<String> = Vec::new();
    for ev in [content(""), content(" "), content("你好"), content(", world")] {
        shown.extend(st.apply(&ev));
    }
    let reasoning = StreamChunk {
        delta: Some(ChunkDelta { content: None, reasoning_content: Some("late".to_string()), tool_calls: vec![] }),
        finish_reason: None,
        usage: None,
        model: None,
    };
    shown.extend(st.apply(&reasoning));
    let resp = st.finish().unwrap();
    assert_eq!(shown.concat(), resp.text);
    assert_eq!(resp.text, " 你好, world");
}

#[test]
fn apply_all_shows_what_the_text_grows_by() {
    let mut st = StreamState::start("m".to_string());
    let shown = st.apply_all(&vec![content("a"), content(""), content("bc")]);
    assert_eq!(shown, vec!["a".to_string(), "bc".to_string()]);
    let more = st.apply_all(&vec![content("d")]);
    assert_eq!(more, vec!["d".to_string()]);
    assert_eq!(st.text, "abcd");
}
