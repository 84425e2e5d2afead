use jarvis::agent::{
    default_agent_tools_list, default_system_prompt, tool_gate, tool_preview,
    truncate_for_context, AgentLoop, AgentNext, ToolGate,
};
use jarvis::llm::{ChatMessage, ChatResponse, Role, ToolCall, ToolCallFunction};

fn user(text: &str) -> ChatMessage {
    ChatMessage { role: Role::User, content: text.to_string(), tool_calls: None, tool_call_id: None, name: None }
}

fn tool_msg(id: &str, name: &str, content: &str) -> ChatMessage {
    ChatMessage {
        role: Role::Tool,
        content: content.to_string(),
        tool_calls: None,
        tool_call_id: Some(id.to_string()),
        name: Some(name.to_string()),
    }
}

fn reply(text: &str, calls: Vec<ToolCall>, tin: u64, tout: u64) -> ChatResponse {
    ChatResponse {
        text: text.to_string(),
        tool_calls: calls,
        finish_reason: "stop".to_string(),
        tokens_in: tin,
        tokens_out: tout,
        model: "m".to_string(),
    }
}

fn call(id: &str, name: &str) -> ToolCall {
    ToolCall {
        id: id.to_string(),
        kind: "function".to_string(),
        function: ToolCallFunction { name: name.to_string(), arguments: "{}".to_string() },
    }
}

#[test]
fn agent_start_puts_system_prompt_first() {
    let l = AgentLoop::start(vec![user("hi")], Some("sys".to_string()), 0);
    assert_eq!(l.max_iterations, 1);
    assert_eq!(l.iteration, 0);
    assert_eq!(l.messages.len(), 2);
    assert_eq!(l.messages[0].role, Role::System);
    assert_eq!(l.messages[0].content, "sys");
    assert_eq!(l.messages[1].content, "hi");
    let l2 = AgentLoop::start(vec![user("hi")], None, 5);
    assert_eq!(l2.max_iterations, 5);
    assert_eq!(l2.messages.len(), 1);
}

#[test]
fn agent_plain_reply_ends_run() {
    let l = AgentLoop::start(vec![user("hi")], None, 3);
    match l.on_model_reply(reply("hello", vec![], 10, 4)) {
        AgentNext::Done(out) => {
            assert!(!out.truncated);
            assert_eq!(out.tokens_in, 10);
            assert_eq!(out.tokens_out, 4);
            assert_eq!(out.new_messages.len(), 1);
            assert_eq!(out.new_messages[0].content, "hello");
            assert!(out.new_messages[0].tool_calls.is_none());
            assert_eq!(out.steps.len(), 1);
            assert!(out.steps[0].tool_results.is_empty());
        }
        _ => panic!("expected the run to end"),
    }
}

#[test]
fn agent_tool_round_then_answer() {
    let l = AgentLoop::start(vec![user("tasks?")], None, 3);
    let (l, calls) = match l.on_model_reply(reply("", vec![call("c1", "get_tasks")], 5, 1)) {
        AgentNext::RunTools(l, calls) => (l, calls),
        _ => panic!("expected tool calls"),
    };
    assert_eq!(calls.len(), 1);
    assert_eq!(calls[0].function.name, "get_tasks");
    assert_eq!(l.messages.len(), 2);
    let l = match l.on_tool_results(vec![tool_msg("c1", "get_tasks", "[]")]) {
        AgentNext::CallModel(l) => l,
        _ => panic!("expected another model call"),
    };
    assert_eq!(l.iteration, 1);
    assert_eq!(l.messages.len(), 3);
    assert_eq!(l.new_messages.len(), 2);
    assert_eq!(l.steps.len(), 1);
    assert_eq!(l.steps[0].tool_results[0].content, "[]");
    match l.on_model_reply(reply("no tasks", vec![], 7, 2)) {
        AgentNext::Done(out) => {
            assert_eq!(out.tokens_in, 12);
            assert_eq!(out.tokens_out, 3);
            assert_eq!(out.new_messages.len(), 3);
            assert_eq!(out.new_messages[2].content, "no tasks");
            assert_eq!(out.steps.len(), 2);
        }
        _ => panic!("expected the run to end"),
    }
}

#[test]
fn agent_stops_at_iteration_limit() {
    let l = AgentLoop::start(vec![user("loop")], None, 1);
    let l = match l.on_model_reply(reply("", vec![call("c1", "get_tasks")], 0, 0)) {
        AgentNext::RunTools(l, _) => l,
        _ => panic!("expected tool calls"),
    };
    match l.on_tool_results(vec![tool_msg("c1", "get_tasks", "x")]) {
        AgentNext::Done(out) => {
            assert!(out.truncated);
            let last = out.new_messages.last().unwrap();
            assert_eq!(last.role, Role::Assistant);
            assert_eq!(
                last.content,
                "（达到最大工具调用轮数 1，强制停止。可能任务过于复杂，或工具结果反复无法收敛。）"
            );
        }
        _ => panic!("expected the run to stop"),
    }
}

#[test]
fn agent_model_error_messages() {
    let l = AgentLoop::start(vec![user("x")], None, 2);
    let out = l.on_model_error("boom");
    assert!(!out.truncated);
    assert_eq!(out.new_messages.len(), 1);
    assert_eq!(out.new_messages[0].content, "LLM 调用失败：boom");
    let l = AgentLoop::start(vec![user("x")], None, 2);
    let out = l.on_model_error("LLM HTTP 502: bad gateway");
    assert!(out.new_messages[0].content.starts_with("模型服务现在返回 502"));
}

#[test]
fn tool_gate_refuses_direct_write_and_unknown_tools() {
    let allowed = default_agent_tools_list();
    assert!(matches!(tool_gate(&"get_tasks".to_string(), &allowed), ToolGate::Run));
    match tool_gate(&"log-task-effort".to_string(), &allowed) {
        ToolGate::Refused(m) => assert_eq!(
            m,
            "工具 log-task-effort 是写操作，agent 不允许直接调用；请改用 prepare-log-task-effort 生成待确认建议。"
        ),
        ToolGate::Run => panic!("write tool must be refused"),
    }
    let with_write = vec!["log-task-effort".to_string()];
    assert!(matches!(tool_gate(&"log-task-effort".to_string(), &with_write), ToolGate::Refused(_)));
    match tool_gate(&"rm_rf".to_string(), &allowed) {
        ToolGate::Refused(m) => assert_eq!(m, "工具 rm_rf 不在允许列表中"),
        ToolGate::Run => panic!("unknown tool must be refused"),
    }
}

#[test]
fn default_tools_list_contents() {
    let t = default_agent_tools_list();
    assert_eq!(t.len(), 11);
    assert_eq!(t[0], "get_tasks");
    assert!(t.contains(&"prepare-log-task-effort".to_string()));
    assert!(!t.contains(&"log-task-effort".to_string()));
}

#[test]
fn system_prompt_names_assistant_and_user() {
    let p = default_system_prompt("小贾", "老板");
    assert!(p.starts_with("你是 小贾，老板的个人任务助手。在对话里称呼用户为「老板」。"));
    assert!(p.ends_with("禁止跳过预览直接查成本。"));
}

#[test]
fn truncate_for_context_counts_chars() {
    assert_eq!(truncate_for_context("abc", 3), "abc");
    assert_eq!(truncate_for_context("你好世界", 2), "你好\n…（结果过长，已截断到 2 字符）");
}

#[test]
fn tool_preview_first_80_chars_one_line() {
    assert_eq!(tool_preview("a\nb"), "a b");
    let long: String = std::iter::repeat('x').take(100).collect();
    assert_eq!(tool_preview(&long).chars().count(), 80);
}
