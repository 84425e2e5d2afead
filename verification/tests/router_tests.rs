use jarvis::channels::{notification_targets, ChannelsConfig};
use jarvis::router::{reminder_from_groups, effort_query_range, is_effort_query, parse_reminder_input, should_use_agent_tools};

fn prefer_explicit_config() -> ChannelsConfig {
    let mut cfg = ChannelsConfig::default();
    cfg.telegram.enabled = true;
    cfg.telegram.allow_chat_ids = vec!["allow-tg".to_string()];
    cfg.telegram.notify_chat_ids = vec!["notify-tg".to_string()];
    cfg.qqbot.enabled = true;
    cfg.qqbot.allow_user_ids = vec!["allow-user".to_string()];
    cfg.qqbot.allow_group_ids = vec!["allow-group".to_string()];
    cfg.qqbot.notify_user_ids = vec!["notify-user".to_string()];
    cfg.qqbot.notify_group_ids = vec!["notify-group".to_string()];
    cfg
}

fn old_config() -> ChannelsConfig {
    let mut cfg = ChannelsConfig::default();
    cfg.telegram.enabled = true;
    cfg.telegram.allow_chat_ids = vec!["allow-tg".to_string()];
    cfg.qqbot.enabled = true;
    cfg.qqbot.allow_user_ids = vec!["allow-user".to_string()];
    cfg.qqbot.allow_group_ids = vec!["allow-group".to_string()];
    cfg
}

fn target_pairs(cfg: &ChannelsConfig) -> Vec<(String, String)> {
    notification_targets(cfg)
        .iter()
        .map(|t| (t.channel.clone(), t.chat_id.clone()))
        .collect()
}

fn pairs(v: &[(&str, &str)]) -> Vec<(String, String)> {
    v.iter().map(|(a, b)| (a.to_string(), b.to_string())).collect()
}

#[test]
fn router_notification_targets_prefer_explicit_notify_ids() {
    assert_eq!(
        target_pairs(&prefer_explicit_config()),
        pairs(&[("telegram", "notify-tg"), ("qqbot", "c2c:notify-user"), ("qqbot", "group:notify-group")])
    );
}

#[test]
fn router_notification_targets_fallback_to_allow_ids_for_old_configs() {
    assert_eq!(
        target_pairs(&old_config()),
        pairs(&[("telegram", "allow-tg"), ("qqbot", "c2c:allow-user"), ("qqbot", "group:allow-group")])
    );
}

#[test]
fn tests_notification_targets_prefer_explicit_notify_ids() {
    assert_eq!(
        target_pairs(&prefer_explicit_config()),
        pairs(&[("telegram", "notify-tg"), ("qqbot", "c2c:notify-user"), ("qqbot", "group:notify-group")])
    );
}

#[test]
fn tests_notification_targets_fallback_to_allow_ids_for_old_configs() {
    assert_eq!(
        target_pairs(&old_config()),
        pairs(&[("telegram", "allow-tg"), ("qqbot", "c2c:allow-user"), ("qqbot", "group:allow-group")])
    );
}

#[test]
fn should_use_agent_tools_matches_keywords() {
    assert!(should_use_agent_tools("看看禅道上有什么任务"));
    assert!(should_use_agent_tools("今天工时写了吗"));
    assert!(should_use_agent_tools("这个 BUG 怎么修"));
    assert!(should_use_agent_tools("commit 信息看一下"));
}

#[test]
fn should_use_agent_tools_rejects_plain_chat() {
    assert!(!should_use_agent_tools("你好呀"));
    assert!(!should_use_agent_tools("哈哈哈哈哈"));
    assert!(!should_use_agent_tools("晚上吃什么"));
}

#[test]
fn is_effort_query_detects_query_not_write() {
    assert!(is_effort_query("查看本周工时"));
    assert!(is_effort_query("工时统计"));
    assert!(is_effort_query("今天耗时明细"));
    assert!(is_effort_query("上周工时"));
}

#[test]
fn is_effort_query_rejects_write_intent() {
    assert!(!is_effort_query("写入工时"));
    assert!(!is_effort_query("记录耗时"));
    assert!(!is_effort_query("补填小时"));
}

#[test]
fn is_effort_query_rejects_no_effort_word() {
    assert!(!is_effort_query("查看任务"));
}

#[test]
fn effort_query_range_defaults_to_week() {
    let (range, label) = effort_query_range("查看工时");
    assert_eq!(range, "thisWeek");
    assert_eq!(label, "本周");
}

#[test]
fn effort_query_range_detects_yesterday() {
    let (range, _) = effort_query_range("昨天工时");
    assert_eq!(range, "yesterday");
}

#[test]
fn effort_query_range_detects_today() {
    let (range, _) = effort_query_range("今日工时明细");
    assert_eq!(range, "today");
}

#[test]
fn effort_query_range_detects_month() {
    let (range, _) = effort_query_range("本月工时汇总");
    assert_eq!(range, "thisMonth");
}

#[test]
fn effort_query_range_detects_quarter() {
    let (range, _) = effort_query_range("本季度工时汇总");
    assert_eq!(range, "thisQuarter");
}

#[test]
fn effort_query_range_detects_half_year() {
    let (range, _) = effort_query_range("近半年工时统计");
    assert_eq!(range, "last6Months");
}

#[test]
fn effort_query_range_detects_year() {
    let (range, _) = effort_query_range("今年工时统计");
    assert_eq!(range, "thisYear");
}

#[test]
fn effort_query_range_detects_last_week() {
    let (range, label) = effort_query_range("上周工时");
    assert_eq!(range, "lastWeek");
    assert_eq!(label, "上周");
}

#[test]
fn effort_query_range_detects_last_week_alt() {
    let (range, _) = effort_query_range("查看上一周耗时");
    assert_eq!(range, "lastWeek");
}

#[test]
fn parse_reminder_cron_format() {
    let (cron, msg) = parse_reminder_input("0 9 * * * 开会");
    assert_eq!(cron, "0 9 * * *");
    assert_eq!(msg, "开会");
}

#[test]
fn parse_reminder_hhmm_format() {
    let (cron, msg) = parse_reminder_input("9:30 喝水");
    assert_eq!(cron, "30 9 * * *");
    assert_eq!(msg, "喝水");
}

#[test]
fn parse_reminder_invalid_returns_empty() {
    let (cron, msg) = parse_reminder_input("随便说句话");
    assert_eq!(cron, "");
    assert_eq!(msg, "");
}

#[test]
fn parse_reminder_rejects_invalid_time() {
    let (cron, msg) = parse_reminder_input("25:00 测试");
    assert_eq!(cron, "");
    assert_eq!(msg, "");
}

#[test]
fn effort_query_range_earlier_keyword_wins() {
    let (range, label) = effort_query_range("昨天和今天的工时");
    assert_eq!(range, "yesterday");
    assert_eq!(label, "昨天");
    let (range, _) = effort_query_range("今年这个季度");
    assert_eq!(range, "thisQuarter");
}

#[test]
fn parse_reminder_more_forms() {
    assert_eq!(
        parse_reminder_input("30   8 * *  1-5   晨会 "),
        ("30 8 * * 1-5".to_string(), "晨会".to_string())
    );
    assert_eq!(parse_reminder_input("17:30 写日报"), ("30 17 * * *".to_string(), "写日报".to_string()));
    assert_eq!(parse_reminder_input("07:05\t吃药"), ("5 7 * * *".to_string(), "吃药".to_string()));
    assert_eq!(parse_reminder_input("9:60 x"), (String::new(), String::new()));
    assert_eq!(parse_reminder_input("a b c d e 消息"), (String::new(), String::new()));
    assert_eq!(parse_reminder_input("17:30"), (String::new(), String::new()));
}

fn groups(v: &[Option<&str>]) -> Option<Vec<Option<String>>> {
    Some(v.iter().map(|g| g.map(|x| x.to_string())).collect())
}

#[test]
fn reminder_from_captured_groups() {
    let cron = groups(&[Some("x"), Some("0"), Some("9"), Some("*"), Some("*"), Some("1-5"), Some(" 开会 ")]);
    assert_eq!(reminder_from_groups(&cron, &None), ("0 9 * * 1-5".to_string(), "开会".to_string()));
    let bad = groups(&[Some("x"), Some("a"), Some("9"), Some("*"), Some("*"), Some("*"), Some("m")]);
    let time = groups(&[Some("x"), Some("07"), Some("05"), Some("吃药")]);
    assert_eq!(reminder_from_groups(&bad, &time), ("5 7 * * *".to_string(), "吃药".to_string()));
    let late = groups(&[Some("x"), Some("24"), Some("00"), Some("m")]);
    assert_eq!(reminder_from_groups(&None, &late), (String::new(), String::new()));
    assert_eq!(reminder_from_groups(&None, &None), (String::new(), String::new()));
}
