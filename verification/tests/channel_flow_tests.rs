use jarvis::channel_flow::{
    trim_work_edges,
    append_exchange, cleanup_effort_work, confirmation_of, last_assistant_text, pending_file_name,
    pending_reply_text, session_messages,
    pending_tool_for, plain_chat_messages,
};
use jarvis::config_json::Json;

fn obj(fields: Vec<(&str, Json)>) -> Json {
    Json::Object(fields.into_iter().map(|(k, v)| (k.to_string(), v)).collect())
}

fn s(t: &str) -> Json {
    Json::Str(t.to_string())
}

#[test]
fn confirmation_words() {
    assert_eq!(confirmation_of(" 确认 "), Some(true));
    assert_eq!(confirmation_of("confirm"), Some(true));
    assert_eq!(confirmation_of("取消"), Some(false));
    assert_eq!(confirmation_of("cancel"), Some(false));
    assert_eq!(confirmation_of("确认一下"), None);
    assert_eq!(pending_tool_for("log-task-effort").as_deref(), Ok("log-task-effort"));
    assert_eq!(pending_tool_for("mcp-deploy").as_deref(), Ok("confirm-deploy"));
    assert_eq!(pending_tool_for("x").unwrap_err(), "未知待确认操作: x");
    assert_eq!(pending_file_name("qqbot-c2c:u1"), "qqbot_c2c_u1.json");
}

#[test]
fn plain_chat_keeps_text_messages() {
    let history = vec![
        obj(vec![("role", s("user")), ("content", s("  你好 "))]),
        obj(vec![("role", s("assistant")), ("content", s("")), ("tool_calls", Json::Array(vec![]))]),
        obj(vec![("role", s("tool")), ("content", s("result"))]),
        obj(vec![("role", s("assistant")), ("content", s("在的"))]),
    ];
    let msgs = plain_chat_messages(&history, "Jarvis", "主人");
    assert_eq!(msgs.len(), 3);
    assert_eq!(msgs[0].0, "system");
    assert!(msgs[0].1.starts_with("你是 Jarvis，正在通过 QQ/Telegram 和主人聊天。"));
    assert_eq!(msgs[1], ("user".to_string(), "你好".to_string()));
    assert_eq!(msgs[2], ("assistant".to_string(), "在的".to_string()));
    assert_eq!(last_assistant_text(&history).as_deref(), Some("在的"));
    let blank_last = vec![
        obj(vec![("role", s("assistant")), ("content", s("earlier"))]),
        obj(vec![("role", s("assistant")), ("content", s("  "))]),
    ];
    assert_eq!(last_assistant_text(&blank_last), None);
    assert_eq!(last_assistant_text(&vec![]), None);
}

#[test]
fn effort_work_is_cleaned() {
    assert_eq!(cleanup_effort_work("帮我写入禅道任务 1234 工时 2.5h：修复登录页", "1234"), "修复登录页");
    assert_eq!(cleanup_effort_work("3 hours on report export.", ""), "s on report export");
    assert_eq!(
        pending_reply_text("好的", "任务: 1"),
        "好的\n\n我准备写入禅道：\n任务: 1\n\n回复\u{201c}确认\u{201d}后我再执行；回复\u{201c}取消\u{201d}则放弃。"
    );
}

fn role_of(m: &Json) -> String {
    match m {
        Json::Object(fs) => match fs.iter().find(|(k, _)| k == "role") {
            Some((_, Json::Str(r))) => r.clone(),
            _ => String::new(),
        },
        _ => String::new(),
    }
}

#[test]
fn session_keeps_the_last_twenty_entries() {
    let history: Vec<Json> = (0..19).map(|i| obj(vec![("role", s("user")), ("content", s(&i.to_string()))])).collect();
    let out = append_exchange(history, "问题", "回答", None);
    assert_eq!(out.len(), 20);
    assert_eq!(role_of(&out[19]), "assistant");
    assert_eq!(role_of(&out[18]), "user");
    assert_eq!(last_assistant_text(&out).as_deref(), Some("回答"));
    let agent = vec![
        obj(vec![("role", s("assistant")), ("content", s("")), ("tool_calls", Json::Array(vec![]))]),
        obj(vec![("role", s("tool")), ("content", s("{}"))]),
        obj(vec![("role", s("assistant")), ("content", s("完成"))]),
    ];
    let out2 = append_exchange(vec![], "查一下", "完成", Some(&agent));
    assert_eq!(out2.len(), 3);
    assert_eq!(role_of(&out2[0]), "user");
    let stored = obj(vec![("messages", Json::Array(out2))]);
    assert_eq!(session_messages(&stored).len(), 3);
    assert!(session_messages(&s("x")).is_empty());
}

#[test]
fn work_edges_trimmed() {
    assert_eq!(trim_work_edges(" ，修复登录。 "), "修复登录");
    assert_eq!(trim_work_edges("--/"), "");
}
