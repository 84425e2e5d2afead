use jarvis::chat::{
    base_prompt, extract_last_exchange, last_user_text, memory_prompt, role_from_name,
    summary_request, system_prompt_for, to_chat_message, turn_tools, ChatSendMessage,
};
use jarvis::conversations::{meta_from_fields, sort_recent_first, validate_id, ConversationMeta};
use jarvis::llm::{ChatMessage, Role, ToolCall, ToolCallFunction};

fn send(role: &str, content: &str) -> ChatSendMessage {
    ChatSendMessage { role: role.to_string(), content: content.to_string(), tool_call_id: None, name: None }
}

fn msg(role: Role, content: &str) -> ChatMessage {
    ChatMessage { role, content: content.to_string(), tool_calls: None, tool_call_id: None, name: None }
}

#[test]
fn role_names_map_to_roles() {
    assert_eq!(role_from_name("system"), Role::System);
    assert_eq!(role_from_name("assistant"), Role::Assistant);
    assert_eq!(role_from_name("tool"), Role::Tool);
    assert_eq!(role_from_name("user"), Role::User);
    assert_eq!(role_from_name("Bot"), Role::User);
    let m = to_chat_message(
        &ChatSendMessage { role: "tool".to_string(), content: "x".to_string(), tool_call_id: Some("c1".to_string()), name: Some("n".to_string()) },
        None,
    );
    assert_eq!(m.role, Role::Tool);
    assert_eq!(m.tool_call_id.as_deref(), Some("c1"));
    assert_eq!(m.name.as_deref(), Some("n"));
}

#[test]
fn turn_tools_default_when_missing_or_empty() {
    assert_eq!(turn_tools(Some(vec!["a".to_string()])), vec!["a".to_string()]);
    assert_eq!(turn_tools(Some(vec![])).len(), 11);
    assert_eq!(turn_tools(None)[0], "get_tasks");
}

#[test]
fn base_prompt_defaults_and_system_first() {
    assert_eq!(base_prompt(&vec![send("system", "s"), send("user", "u")], None, None), "");
    let p = base_prompt(&vec![send("user", "u")], None, None);
    assert!(p.starts_with("你是 Jarvis，主人的个人任务助手。"));
    let p = base_prompt(&vec![], Some("小贾"), Some("老板"));
    assert!(p.starts_with("你是 小贾，老板的个人任务助手。在对话里称呼用户为「老板」"));
}

#[test]
fn memory_and_system_prompt_joining() {
    assert_eq!(memory_prompt("core", "long"), "core\nlong");
    assert_eq!(memory_prompt("", "long"), "long");
    assert_eq!(memory_prompt("core", ""), "core");
    assert_eq!(system_prompt_for("base", "mem"), Some("base\n\nmem".to_string()));
    assert_eq!(system_prompt_for("base", ""), Some("base".to_string()));
    assert_eq!(system_prompt_for("", "mem"), Some("mem".to_string()));
    assert_eq!(system_prompt_for("", ""), None);
}

#[test]
fn last_user_text_picks_latest() {
    let ms = vec![msg(Role::User, "first"), msg(Role::Assistant, "a"), msg(Role::User, "second"), msg(Role::Tool, "t")];
    assert_eq!(last_user_text(&ms), "second");
    assert_eq!(last_user_text(&vec![msg(Role::Assistant, "a")]), "");
}

#[test]
fn exchange_takes_last_user_and_first_answer() {
    let input = vec![send("user", "q1"), send("assistant", "a0"), send("user", "q2")];
    let mut with_calls = msg(Role::Assistant, "calling");
    with_calls.tool_calls = Some(vec![ToolCall {
        id: "c".to_string(),
        kind: "function".to_string(),
        function: ToolCallFunction { name: "get_tasks".to_string(), arguments: "{}".to_string() },
    }]);
    let out = vec![with_calls, msg(Role::Tool, "[]"), msg(Role::Assistant, ""), msg(Role::Assistant, "answer"), msg(Role::Assistant, "later")];
    assert_eq!(extract_last_exchange(&input, &out), Some(("q2".to_string(), "answer".to_string())));
    assert_eq!(extract_last_exchange(&vec![send("Bot", "x")], &out), None);
    assert_eq!(extract_last_exchange(&vec![send("user", "")], &out), None);
    assert_eq!(extract_last_exchange(&input, &vec![msg(Role::Tool, "x")]), None);
}

#[test]
fn summary_request_trims_and_refuses_blank() {
    let (sys, user) = summary_request("  fix login  ").unwrap();
    assert!(sys.starts_with("你是一个工时记录精简助手，只输出"));
    assert!(user.ends_with("原始记录：\nfix login"));
    assert_eq!(summary_request(" \n ").unwrap_err(), "工作内容为空，无需精简");
}

#[test]
fn conversation_ids() {
    assert!(validate_id("20260510-abc_1.json").is_ok());
    assert_eq!(validate_id("").unwrap_err(), "会话 id 长度非法");
    assert_eq!(validate_id(&"a".repeat(81)).unwrap_err(), "会话 id 长度非法");
    assert!(validate_id(&"a".repeat(80)).is_ok());
    assert_eq!(validate_id("a/b").unwrap_err(), "会话 id 含非法字符");
    assert_eq!(validate_id("会话").unwrap_err(), "会话 id 含非法字符");
    // 27 three-byte characters exceed 80 bytes.
    assert_eq!(validate_id(&"会".repeat(27)).unwrap_err(), "会话 id 长度非法");
    assert_eq!(validate_id(".hidden").unwrap_err(), "会话 id 不能以点开头或含 '..'");
    assert_eq!(validate_id("a..b").unwrap_err(), "会话 id 不能以点开头或含 '..'");
}

fn meta(id: &str, updated: i64) -> ConversationMeta {
    ConversationMeta { id: id.to_string(), title: "t".to_string(), created_at: 0, updated_at: updated, message_count: 0 }
}

#[test]
fn conversation_meta_defaults() {
    assert!(meta_from_fields(None, None, None, None, None).is_none());
    assert!(meta_from_fields(Some(String::new()), None, None, None, None).is_none());
    let m = meta_from_fields(Some("c1".to_string()), None, Some(5), None, None).unwrap();
    assert_eq!(m.title, "未命名");
    assert_eq!(m.created_at, 5);
    assert_eq!(m.updated_at, 5);
    assert_eq!(m.message_count, 0);
    let m = meta_from_fields(Some("c2".to_string()), Some("x".to_string()), None, Some(9), Some(3)).unwrap();
    assert_eq!((m.title.as_str(), m.created_at, m.updated_at, m.message_count), ("x", 0, 9, 3));
}

#[test]
fn conversations_most_recent_first_stable() {
    let ms = vec![meta("a", 1), meta("b", 3), meta("c", 1), meta("d", 2), meta("e", 3)];
    let sorted = sort_recent_first(&ms);
    let ids: Vec<&str> = sorted.iter().map(|m| m.id.as_str()).collect();
    assert_eq!(ids, vec!["b", "e", "d", "a", "c"]);
}

#[test]
fn chat_needs_messages() {
    assert_eq!(jarvis::chat::check_chat_input(&vec![]).unwrap_err(), "messages 不能为空");
    let m = jarvis::chat::ChatSendMessage { role: "user".into(), content: "hi".into(), tool_call_id: None, name: None };
    assert!(jarvis::chat::check_chat_input(&vec![m]).is_ok());
}

#[test]
fn daemon_health_address() {
    let info = jarvis::daemon::DaemonInfo { pid: 1, port: 8765, token: "t".into(), started_at: "".into(), version: "1".into() };
    assert_eq!(jarvis::daemon::health_url(&info), "http://127.0.0.1:8765/health");
}
