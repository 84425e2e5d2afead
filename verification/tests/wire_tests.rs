use jarvis::completions::{
    http_error, parse_chat_completion, parse_tool_calls_from_message, CompletionMessage,
    CompletionReply, CompletionToolCall,
};
use jarvis::llm::{ChatMessage, Role, ToolCall, ToolCallFunction};
use jarvis::responses::{
    messages_to_responses_input, parse_responses_output, ResponseContent, ResponseItem,
    ResponsePart, ResponsesInput, ResponsesReply,
};
use jarvis::tool_schema::{
    build_tool_definitions, tool_schema, tools_to_anthropic_format, ToolDefinition,
    ToolDefinitionFunction,
};

fn msg(role: Role, content: &str) -> ChatMessage {
    ChatMessage { role, content: content.to_string(), tool_calls: None, tool_call_id: None, name: None }
}

fn call(id: &str, name: &str, args: &str) -> ToolCall {
    ToolCall {
        id: id.to_string(),
        kind: "function".to_string(),
        function: ToolCallFunction { name: name.to_string(), arguments: args.to_string() },
    }
}

#[test]
fn responses_input_items() {
    let mut asst = msg(Role::Assistant, "  ");
    asst.tool_calls = Some(vec![call("c1", "get_tasks", "{}"), call("c2", "get_efforts", "{\"range\":\"today\"}")]);
    let mut tool = msg(Role::Tool, "[]");
    tool.tool_call_id = Some("c1".to_string());
    let items = messages_to_responses_input(&vec![msg(Role::System, "s"), msg(Role::User, "u"), asst, tool]).unwrap();
    assert_eq!(items.len(), 5);
    assert!(matches!(&items[0], ResponsesInput::Message { role, content } if role == "system" && content == "s"));
    assert!(matches!(&items[2], ResponsesInput::FunctionCall { call_id, name, .. } if call_id == "c1" && name == "get_tasks"));
    assert!(matches!(&items[4], ResponsesInput::FunctionCallOutput { call_id, output } if call_id == "c1" && output == "[]"));
    let mut talk = msg(Role::Assistant, "checking");
    talk.tool_calls = Some(vec![call("c3", "x", "{}")]);
    let items = messages_to_responses_input(&vec![talk, msg(Role::Assistant, "plain")]).unwrap();
    assert_eq!(items.len(), 3);
    assert!(matches!(&items[0], ResponsesInput::Message { role, content } if role == "assistant" && content == "checking"));
    let err = messages_to_responses_input(&vec![msg(Role::Tool, "x")]).unwrap_err();
    assert_eq!(err, "tool 消息缺少 tool_call_id，Responses API 无法定位调用");
}

fn reply(items: Option<Vec<ResponseItem>>) -> ResponsesReply {
    ResponsesReply {
        items,
        output_text: None,
        status: None,
        input_tokens: Some(3),
        output_tokens: None,
        model: None,
        snippet: "{...}".to_string(),
    }
}

fn item(kind: &str) -> ResponseItem {
    ResponseItem { kind: Some(kind.to_string()), content: ResponseContent::Other, name: None, call_id: None, id: None, arguments: None }
}

#[test]
fn responses_output_text_and_calls() {
    let mut m = item("message");
    m.content = ResponseContent::Parts(vec![
        ResponsePart { plain: None, kind: Some("output_text".to_string()), text: Some("Hi ".to_string()) },
        ResponsePart { plain: Some("there".to_string()), kind: None, text: None },
        ResponsePart { plain: None, kind: Some("refusal".to_string()), text: Some("no".to_string()) },
    ]);
    let mut f = item("function_call");
    f.name = Some("get_tasks".to_string());
    f.id = Some("fc_1".to_string());
    let mut g = item("function_call");
    g.name = Some("x".to_string());
    g.call_id = Some(None);
    g.id = Some("ignored".to_string());
    let r = parse_responses_output(&reply(Some(vec![m, item("reasoning"), f, g])), "fallback").unwrap();
    assert_eq!(r.text, "Hi there");
    assert_eq!(r.tool_calls.len(), 1);
    assert_eq!(r.tool_calls[0].id, "fc_1");
    assert_eq!(r.tool_calls[0].function.arguments, "{}");
    assert_eq!(r.finish_reason, "tool_calls");
    assert_eq!(r.tokens_in, 3);
    assert_eq!(r.tokens_out, 0);
    assert_eq!(r.model, "fallback");
}

#[test]
fn responses_output_fallbacks_and_error() {
    let mut d = reply(None);
    d.output_text = Some("done".to_string());
    d.status = Some("incomplete".to_string());
    d.model = Some("gpt".to_string());
    let r = parse_responses_output(&d, "f").unwrap();
    assert_eq!(r.text, "done");
    assert_eq!(r.finish_reason, "length");
    assert_eq!(r.model, "gpt");
    let e = parse_responses_output(&reply(Some(vec![])), "f").unwrap_err();
    assert_eq!(e, "Responses 响应既无文本也无 tool_calls: {...}");
}

fn entry(kind: Option<&str>, name: Option<&str>) -> CompletionToolCall {
    CompletionToolCall {
        kind: kind.map(|s| s.to_string()),
        has_function: true,
        name: name.map(|s| s.to_string()),
        arguments: None,
        id: Some("id1".to_string()),
    }
}

#[test]
fn completion_tool_calls_filtering() {
    let m = CompletionMessage {
        content: None,
        reasoning_content: None,
        tool_calls: Some(vec![entry(Some("function"), Some("a")), entry(Some("other"), Some("b")), entry(None, Some("c")), entry(Some("function"), None), entry(Some("function"), Some(""))]),
    };
    let calls = parse_tool_calls_from_message(&m);
    assert_eq!(calls.len(), 2);
    assert_eq!(calls[0].function.name, "a");
    assert_eq!(calls[0].function.arguments, "{}");
    assert_eq!(calls[1].function.name, "");
}

#[test]
fn completion_reply_reading() {
    let ok = CompletionReply {
        message: Some(CompletionMessage { content: Some(" ".to_string()), reasoning_content: Some("because".to_string()), tool_calls: None }),
        finish_reason: None,
        prompt_tokens: Some(5),
        completion_tokens: Some(6),
        model: None,
    };
    let r = parse_chat_completion(&Some(ok), "body", "m").unwrap();
    assert_eq!(r.text, "because");
    assert_eq!(r.finish_reason, "stop");
    assert_eq!((r.tokens_in, r.tokens_out), (5, 6));
    assert_eq!(r.model, "m");
    assert_eq!(parse_chat_completion(&None, "<html>", "m").unwrap_err(), "LLM 返回非 JSON: <html>");
    let no_msg = CompletionReply { message: None, finish_reason: None, prompt_tokens: None, completion_tokens: None, model: None };
    assert_eq!(parse_chat_completion(&Some(no_msg), "{}", "m").unwrap_err(), "LLM 响应缺 choices[0].message: {}");
    let empty = CompletionReply {
        message: Some(CompletionMessage { content: Some("".to_string()), reasoning_content: None, tool_calls: Some(vec![]) }),
        finish_reason: Some("stop".to_string()),
        prompt_tokens: None,
        completion_tokens: None,
        model: Some("x".to_string()),
    };
    assert_eq!(parse_chat_completion(&Some(empty), "{..}", "m").unwrap_err(), "LLM 响应既无 content 也无 tool_calls: {..}");
    assert_eq!(http_error(502, "bad gateway"), "LLM HTTP 502: bad gateway");
}

#[test]
fn tool_schemas_known_and_unknown() {
    let (desc, schema) = tool_schema("get_task_detail").unwrap();
    assert_eq!(desc, "获取单个任务的详细信息");
    let v: serde_json::Value = serde_json::from_str(&schema).unwrap();
    assert_eq!(v["required"][0], "id");
    assert!(tool_schema("nope").is_none());
    for name in ["get_tasks", "get_today_tasks", "get_task_commits", "analyze_risk", "get_daily_review", "get_efforts", "get_effort_report", "prepare-log-task-effort", "log-task-effort", "cost_report_preview", "cost_report"] {
        let (_, s) = tool_schema(name).unwrap();
        let v: serde_json::Value = serde_json::from_str(&s).unwrap();
        assert_eq!(v["type"], "object");
        assert_eq!(v["additionalProperties"], false);
    }
    let defs = build_tool_definitions(&vec!["get_tasks".to_string(), "unknown".to_string(), "cost_report".to_string()]);
    assert_eq!(defs.len(), 2);
    assert_eq!(defs[1].function.name, "cost_report");
    assert_eq!(defs[0].kind, "function");
}

#[test]
fn anthropic_tools_use_input_schema_field() {
    let tools = vec![ToolDefinition {
        kind: "function".into(),
        function: ToolDefinitionFunction {
            name: "search".into(),
            description: "搜索".into(),
            parameters: "{\"type\":\"object\",\"properties\":{}}".into(),
        },
    }];
    let arr = tools_to_anthropic_format(&tools);
    assert_eq!(arr[0].name, "search");
    assert_eq!(arr[0].description, "搜索");
    let schema: serde_json::Value = serde_json::from_str(&arr[0].input_schema).unwrap();
    assert_eq!(schema["type"], "object");
}
