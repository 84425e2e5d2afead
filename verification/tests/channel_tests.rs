use jarvis::channels::{
    base_url, enabled_names, is_allowed, normalize_api_base, session_id, should_auto_start,
    split_message, trim_history, ChannelMessage, ChannelServiceStatus, ChannelsConfig, QqBotConfig,
};
use jarvis::reminders::{
    add_reminder, delete_reminder, list_reminder, maybe_handle_reminder_command,
    try_parse_delete_reminder, ScheduledReminder,
};
use jarvis::router::{allowed_channel_tools, effort_tool_for_range};

fn reminder(cron: &str, message: &str, enabled: bool) -> ScheduledReminder {
    ScheduledReminder {
        id: "r1".to_string(),
        cron: cron.to_string(),
        message: message.to_string(),
        enabled,
        created_at: 1,
    }
}

#[test]
fn delete_command_parsing() {
    assert_eq!(try_parse_delete_reminder("删除定时 2"), Some(1));
    assert_eq!(try_parse_delete_reminder("取消提醒  3 "), Some(2));
    assert_eq!(try_parse_delete_reminder("删除定时 0"), None);
    assert_eq!(try_parse_delete_reminder("删除定时 x"), None);
    assert_eq!(try_parse_delete_reminder("删除定时2"), None);
}

#[test]
fn list_and_delete_reminders() {
    let mut rs = vec![reminder("30 17 * * *", "写日报", true), reminder("0 9 * * 1-5", "晨会", false)];
    assert_eq!(
        list_reminder(&rs).text,
        "📋 定时提醒列表：\n1. ✅ 30 17 * * * — 写日报\n2. ⏸ 0 9 * * 1-5 — 晨会\n\n发送「删除定时 N」删除指定提醒"
    );
    assert_eq!(delete_reminder(&mut rs, 5).text, "没有第 6 个提醒，当前共 2 个。");
    assert_eq!(rs.len(), 2);
    assert_eq!(delete_reminder(&mut rs, 0).text, "已删除定时提醒：30 17 * * * — 写日报");
    assert_eq!(rs.len(), 1);
    assert_eq!(rs[0].message, "晨会");
    let empty: Vec<ScheduledReminder> = Vec::new();
    assert_eq!(list_reminder(&empty).text, "当前没有定时提醒。发送「定时 17:30 写日报」来添加。");
}

#[test]
fn add_reminder_commands() {
    let mut rs: Vec<ScheduledReminder> = Vec::new();
    let reply = add_reminder(&mut rs, "定时 17:30 写日报", 1700000000000);
    assert_eq!(
        reply.text,
        "已添加定时提醒：\nCron: 30 17 * * *\n内容: 写日报\n\n用「定时列表」查看所有提醒，「删除定时 N」删除。"
    );
    assert_eq!(rs.len(), 1);
    assert_eq!(rs[0].id, "r1700000000000");
    assert_eq!(rs[0].cron, "30 17 * * *");
    assert!(rs[0].enabled);
    let bad = add_reminder(&mut rs, "定时 明天", 5);
    assert!(bad.text.starts_with("格式不对"));
    assert_eq!(rs.len(), 1);
}

#[test]
fn reminder_command_dispatch() {
    let mut rs: Vec<ScheduledReminder> = Vec::new();
    assert!(maybe_handle_reminder_command(&mut rs, "你好", 1).is_none());
    assert!(maybe_handle_reminder_command(&mut rs, " 添加定时 30 8 * * 1-5 晨会 ", 2).is_some());
    assert_eq!(rs.len(), 1);
    assert_eq!(rs[0].cron, "30 8 * * 1-5");
    assert_eq!(rs[0].message, "晨会");
    let listed = maybe_handle_reminder_command(&mut rs, "定时列表", 3).unwrap();
    assert!(listed.text.contains("晨会"));
    let removed = maybe_handle_reminder_command(&mut rs, "删除定时 1", 4).unwrap();
    assert!(removed.text.starts_with("已删除定时提醒"));
    assert!(rs.is_empty());
}

#[test]
fn session_ids_are_file_safe() {
    let m = ChannelMessage {
        channel: "qqbot".to_string(),
        chat_id: "group:AB-12/x".to_string(),
        sender_id: "u".to_string(),
        sender_name: None,
        text: "hi".to_string(),
        timestamp: 0,
    };
    assert_eq!(session_id(&m), "qqbot_group_AB_12_x");
}

#[test]
fn history_keeps_last_twenty() {
    let mut h: Vec<u32> = (0..25).collect();
    trim_history(&mut h);
    assert_eq!(h, (5..25).collect::<Vec<u32>>());
    let mut short: Vec<u32> = (0..3).collect();
    trim_history(&mut short);
    assert_eq!(short, vec![0, 1, 2]);
}

#[test]
fn split_message_pieces() {
    assert_eq!(split_message("abc", 5), vec!["abc".to_string()]);
    assert_eq!(split_message("abcdefg", 3), vec!["abc".to_string(), "def".to_string(), "g".to_string()]);
    assert_eq!(split_message("你好世界", 2), vec!["你好".to_string(), "世界".to_string()]);
    assert_eq!(split_message("ab", 0), vec!["".to_string(), "a".to_string(), "b".to_string()]);
    let joined: String = split_message("0123456789", 4).concat();
    assert_eq!(joined, "0123456789");
}

#[test]
fn allow_list_rules() {
    assert!(is_allowed(&Vec::new(), "123"));
    assert!(is_allowed(&vec![" 123 ".to_string()], "123"));
    assert!(!is_allowed(&vec!["456".to_string()], "123"));
}

#[test]
fn api_base_and_qq_host() {
    assert_eq!(normalize_api_base("  https://api.telegram.org// "), "https://api.telegram.org");
    let mut q = QqBotConfig::default();
    assert_eq!(base_url(&q), "https://api.sgroup.qq.com");
    q.sandbox = true;
    assert_eq!(base_url(&q), "https://sandbox.api.sgroup.qq.com");
}

#[test]
fn enabled_channels_and_autostart() {
    let mut cfg = ChannelsConfig::default();
    assert!(enabled_names(&cfg).is_empty());
    cfg.qqbot.enabled = true;
    assert_eq!(enabled_names(&cfg), vec!["QQ Bot"]);
    cfg.telegram.enabled = true;
    assert_eq!(enabled_names(&cfg), vec!["Telegram", "QQ Bot"]);
    cfg.auto_start = true;
    assert!(should_auto_start(&cfg));
    let mut st = ChannelServiceStatus::initial();
    assert!(!st.running);
    st.set_status(true, "运行中");
    assert!(st.running);
    assert_eq!(st.message, "运行中");
}

#[test]
fn channel_tools_are_read_only() {
    let tools = allowed_channel_tools();
    assert_eq!(tools.len(), 8);
    assert!(!tools.contains(&"log-task-effort"));
    assert_eq!(effort_tool_for_range("thisMonth"), "get_effort_report");
    assert_eq!(effort_tool_for_range("thisWeek"), "get_efforts");
}
