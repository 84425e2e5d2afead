use jarvis::llm::{
    build_anthropic_url, build_endpoint_url, messages_to_anthropic, parse_anthropic_output,
    retry_after_failure, should_retry_llm_error, tool_choice_to_anthropic, AnthropicBlock,
    AnthropicContent, AnthropicReply, AnthropicToolChoice, ChatMessage, ReplyBlock, Role, ToolCall,
    ToolCallFunction, ToolChoice,
};

fn msg(role: Role, content: &str) -> ChatMessage {
    ChatMessage { role, content: content.to_string(), tool_calls: None, tool_call_id: None, name: None }
}

fn call(id: &str, name: &str, arguments: &str) -> ToolCall {
    ToolCall {
        id: id.to_string(),
        kind: "function".to_string(),
        function: ToolCallFunction { name: name.to_string(), arguments: arguments.to_string() },
    }
}

fn tool_msg(content: &str, id: Option<&str>, name: Option<&str>) -> ChatMessage {
    ChatMessage {
        role: Role::Tool,
        content: content.to_string(),
        tool_calls: None,
        tool_call_id: id.map(|s| s.to_string()),
        name: name.map(|s| s.to_string()),
    }
}

fn blocks(c: &AnthropicContent) -> &Vec<AnthropicBlock> {
    match c {
        AnthropicContent::Blocks(b) => b,
        AnthropicContent::Text(_) => panic!("expected blocks"),
    }
}

#[test]
fn build_endpoint_url_bare_host() {
    assert_eq!(
        build_endpoint_url("https://api.deepseek.com", "chat/completions"),
        "https://api.deepseek.com/v1/chat/completions"
    );
    assert_eq!(
        build_endpoint_url("https://api.deepseek.com/", "responses"),
        "https://api.deepseek.com/v1/responses"
    );
}

#[test]
fn build_endpoint_url_with_v1() {
    assert_eq!(
        build_endpoint_url("https://api.openai.com/v1", "chat/completions"),
        "https://api.openai.com/v1/chat/completions"
    );
}

#[test]
fn build_endpoint_url_custom_prefix() {
    assert_eq!(
        build_endpoint_url("http://www.example.com:19504/codex", "chat/completions"),
        "http://www.example.com:19504/codex/chat/completions"
    );
    assert_eq!(
        build_endpoint_url("http://host/openai/v1", "responses"),
        "http://host/openai/v1/responses"
    );
}

#[test]
fn anthropic_url_bare_and_v1() {
    assert_eq!(build_anthropic_url("https://api.anthropic.com"), "https://api.anthropic.com/v1/messages");
    assert_eq!(build_anthropic_url("https://api.anthropic.com/"), "https://api.anthropic.com/v1/messages");
    assert_eq!(build_anthropic_url("https://relay.example.com/v1"), "https://relay.example.com/v1/messages");
    assert_eq!(build_anthropic_url("https://relay.example.com/v1/"), "https://relay.example.com/v1/messages");
}

#[test]
fn retry_only_transient_errors() {
    assert!(should_retry_llm_error("LLM HTTP 429: slow down"));
    assert!(should_retry_llm_error("LLM 请求超时（60000ms）"));
    assert!(!should_retry_llm_error("LLM HTTP 401: bad key"));
    assert!(retry_after_failure(1, "LLM HTTP 503: busy"));
    assert!(!retry_after_failure(2, "LLM HTTP 503: busy"));
}

#[test]
fn anthropic_messages_extracts_system_and_keeps_alternation() {
    let msgs = vec![msg(Role::System, "你是助手"), msg(Role::System, "请用中文"), msg(Role::User, "你好")];
    let (system, out) = messages_to_anthropic(&msgs).unwrap();
    assert_eq!(system, "你是助手\n\n请用中文");
    assert_eq!(out.len(), 1);
    assert_eq!(out[0].role, Role::User);
    match &out[0].content {
        AnthropicContent::Text(t) => assert_eq!(t, "你好"),
        AnthropicContent::Blocks(_) => panic!("expected text"),
    }
}

#[test]
fn anthropic_assistant_tool_calls_become_blocks_with_parsed_input() {
    let mut m = msg(Role::Assistant, "我来查一下");
    m.tool_calls = Some(vec![call("toolu_1", "search", r#"{"q":"禅道"}"#)]);
    let (_system, out) = messages_to_anthropic(&vec![m]).unwrap();
    assert_eq!(out.len(), 1);
    assert_eq!(out[0].role, Role::Assistant);
    let bs = blocks(&out[0].content);
    match &bs[0] {
        AnthropicBlock::Text(t) => assert_eq!(t, "我来查一下"),
        _ => panic!("expected text block"),
    }
    match &bs[1] {
        AnthropicBlock::ToolUse { id, name, input } => {
            assert_eq!(id, "toolu_1");
            assert_eq!(name, "search");
            let v: serde_json::Value = serde_json::from_str(input).unwrap();
            assert_eq!(v["q"], "禅道");
        }
        _ => panic!("expected tool_use block"),
    }
}

#[test]
fn anthropic_consecutive_tool_results_collapse_into_one_user_message() {
    let mut a = msg(Role::Assistant, "");
    a.tool_calls = Some(vec![call("toolu_a", "f1", "{}"), call("toolu_b", "f2", "{}")]);
    let msgs = vec![
        a,
        tool_msg("结果A", Some("toolu_a"), Some("f1")),
        tool_msg("结果B", Some("toolu_b"), Some("f2")),
    ];
    let (_system, out) = messages_to_anthropic(&msgs).unwrap();
    assert_eq!(out.len(), 2);
    assert_eq!(out[0].role, Role::Assistant);
    assert_eq!(out[1].role, Role::User);
    let results = blocks(&out[1].content);
    assert_eq!(results.len(), 2);
    match (&results[0], &results[1]) {
        (
            AnthropicBlock::ToolResult { tool_use_id: a_id, content: a_c },
            AnthropicBlock::ToolResult { tool_use_id: b_id, content: b_c },
        ) => {
            assert_eq!(a_id, "toolu_a");
            assert_eq!(a_c, "结果A");
            assert_eq!(b_id, "toolu_b");
            assert_eq!(b_c, "结果B");
        }
        _ => panic!("expected tool results"),
    }
}

#[test]
fn anthropic_invalid_arguments_become_empty_object() {
    let mut m = msg(Role::Assistant, "  ");
    m.tool_calls = Some(vec![call("t", "f", "not json")]);
    let (_s, out) = messages_to_anthropic(&vec![m]).unwrap();
    let bs = blocks(&out[0].content);
    assert_eq!(bs.len(), 1);
    match &bs[0] {
        AnthropicBlock::ToolUse { input, .. } => assert_eq!(input, "{}"),
        _ => panic!("expected tool_use block"),
    }
}

#[test]
fn anthropic_tool_choice_mapping() {
    assert!(matches!(tool_choice_to_anthropic(None), AnthropicToolChoice::Auto));
    assert!(matches!(tool_choice_to_anthropic(Some(&ToolChoice::Disabled)), AnthropicToolChoice::Auto));
    match tool_choice_to_anthropic(Some(&ToolChoice::Function("search".into()))) {
        AnthropicToolChoice::Tool(n) => assert_eq!(n, "search"),
        AnthropicToolChoice::Auto => panic!("expected tool"),
    }
}

fn reply(blocks: Vec<ReplyBlock>, stop: Option<&str>, tokens: Option<(u64, u64)>) -> AnthropicReply {
    AnthropicReply {
        blocks,
        stop_reason: stop.map(|s| s.to_string()),
        input_tokens: tokens.map(|t| t.0),
        output_tokens: tokens.map(|t| t.1),
        model: Some("model-x".to_string()),
        snippet: "{}".to_string(),
    }
}

fn text_block(t: &str) -> ReplyBlock {
    ReplyBlock { kind: "text".into(), text: Some(t.into()), id: None, name: None, input: None }
}

#[test]
fn anthropic_parse_text_and_tool_use() {
    let data = reply(
        vec![
            text_block("好的"),
            ReplyBlock {
                kind: "tool_use".into(),
                text: None,
                id: Some("toolu_9".into()),
                name: Some("search".into()),
                input: Some(r#"{"q":"x"}"#.into()),
            },
        ],
        Some("tool_use"),
        Some((11, 22)),
    );
    let resp = parse_anthropic_output(&data, "fallback").unwrap();
    assert_eq!(resp.text, "好的");
    assert_eq!(resp.tool_calls.len(), 1);
    assert_eq!(resp.tool_calls[0].id, "toolu_9");
    assert_eq!(resp.tool_calls[0].function.name, "search");
    let parsed: serde_json::Value = serde_json::from_str(&resp.tool_calls[0].function.arguments).unwrap();
    assert_eq!(parsed["q"], "x");
    assert_eq!(resp.finish_reason, "tool_calls");
    assert_eq!(resp.tokens_in, 11);
    assert_eq!(resp.tokens_out, 22);
    assert_eq!(resp.model, "model-x");
}

#[test]
fn anthropic_parse_max_tokens_maps_to_length() {
    let data = reply(vec![text_block("截断了")], Some("max_tokens"), Some((1, 2)));
    let resp = parse_anthropic_output(&data, "fallback").unwrap();
    assert_eq!(resp.finish_reason, "length");
}

#[test]
fn anthropic_parse_empty_is_err() {
    let data = reply(Vec::new(), Some("end_turn"), None);
    assert!(parse_anthropic_output(&data, "fallback").is_err());
}

#[test]
fn anthropic_tool_result_after_assistant_opens_new_user_not_fold_into_assistant() {
    let mut a = msg(Role::Assistant, "");
    a.tool_calls = Some(vec![call("toolu_a", "f1", "{}")]);
    let msgs = vec![a, tool_msg("结果A", Some("toolu_a"), Some("f1"))];
    let (_system, out) = messages_to_anthropic(&msgs).unwrap();
    assert_eq!(out.len(), 2);
    assert_eq!(out[0].role, Role::Assistant);
    let asst = blocks(&out[0].content);
    assert_eq!(asst.len(), 1);
    assert!(matches!(asst[0], AnthropicBlock::ToolUse { .. }));
    assert_eq!(out[1].role, Role::User);
    assert!(matches!(blocks(&out[1].content)[0], AnthropicBlock::ToolResult { .. }));
}

#[test]
fn anthropic_tool_result_after_string_user_does_not_corrupt_that_user_turn() {
    let msgs = vec![msg(Role::User, "普通提问"), tool_msg("孤儿结果", Some("toolu_x"), None)];
    let (_system, out) = messages_to_anthropic(&msgs).unwrap();
    assert_eq!(out.len(), 2);
    assert_eq!(out[0].role, Role::User);
    match &out[0].content {
        AnthropicContent::Text(t) => assert_eq!(t, "普通提问"),
        AnthropicContent::Blocks(_) => panic!("expected text"),
    }
    assert_eq!(out[1].role, Role::User);
    match &blocks(&out[1].content)[0] {
        AnthropicBlock::ToolResult { tool_use_id, .. } => assert_eq!(tool_use_id, "toolu_x"),
        _ => panic!("expected tool result"),
    }
}

#[test]
fn anthropic_tool_message_without_tool_call_id_is_err() {
    let msgs = vec![tool_msg("无 id 的结果", None, None)];
    assert!(messages_to_anthropic(&msgs).is_err());
}
