use chrono::Datelike;
use jarvis::tasks::{
    alert_ready, my_task_refs, task_alert_parsed, proactive_reminders, reminder_ready, task_alert, task_alerts, TaskRecord,
    TeamEntry,
};

fn day(y: i32, m: u32, d: u32) -> i64 {
    i64::from(chrono::NaiveDate::from_ymd_opt(y, m, d).unwrap().num_days_from_ce())
}

fn task(id: &str, status: &str, deadline: &str, assignee: &str) -> TaskRecord {
    TaskRecord {
        id: id.to_string(),
        title: format!("任务{}", id),
        status: status.to_string(),
        deadline: deadline.to_string(),
        assignee: assignee.to_string(),
        priority: "2".to_string(),
        team: Vec::new(),
    }
}

#[test]
fn alert_kinds_by_days_left() {
    let today = day(2026, 5, 10);
    let me = "alice".to_string();
    let a = task_alert(&task("1", "doing", "2026-05-08 00:00:00", "alice"), &me, today).unwrap();
    assert_eq!(a.alert_type, "overdue");
    assert_eq!(a.days_until_due, -2);
    assert_eq!(a.deadline, "2026-05-08");
    let a = task_alert(&task("2", "wait", "2026-05-10", "alice"), &me, today).unwrap();
    assert_eq!(a.alert_type, "today");
    assert_eq!(a.days_until_due, 0);
    let a = task_alert(&task("3", "doing", "2026-05-13", "alice"), &me, today).unwrap();
    assert_eq!(a.alert_type, "soon");
    let a = task_alert(&task("4", "doing", "2026-05-17", "alice"), &me, today).unwrap();
    assert_eq!(a.alert_type, "upcoming");
    assert_eq!(a.days_until_due, 7);
    assert!(task_alert(&task("5", "doing", "2026-05-18", "alice"), &me, today).is_none());
}

#[test]
fn alert_skips_closed_foreign_and_placeholder() {
    let today = day(2026, 5, 10);
    let me = "alice".to_string();
    assert!(task_alert(&task("1", "done", "2026-05-08", "alice"), &me, today).is_none());
    assert!(task_alert(&task("2", "closed", "2026-05-08", "alice"), &me, today).is_none());
    assert!(task_alert(&task("3", "doing", "2026-05-08", "bob"), &me, today).is_none());
    assert!(task_alert(&task("4", "doing", "2099-12-31", "alice"), &me, today).is_none());
    assert!(task_alert(&task("5", "doing", "0000-00-00", "alice"), &me, today).is_none());
    assert!(task_alert(&task("6", "doing", "", "alice"), &me, today).is_none());
    // An empty user name takes every task.
    let all = String::new();
    assert!(task_alert(&task("7", "doing", "2026-05-08", "bob"), &all, today).is_some());
}

#[test]
fn alert_uses_team_entry_status() {
    let today = day(2026, 5, 10);
    let me = "alice".to_string();
    let mut t = task("1", "doing", "2026-05-11", "bob");
    t.team = vec![
        TeamEntry { account: Some("carol".to_string()), status: Some("doing".to_string()) },
        TeamEntry { account: Some("alice".to_string()), status: Some("wait".to_string()) },
    ];
    let a = task_alert(&t, &me, today).unwrap();
    assert!(a.is_team);
    assert_eq!(a.team_entry, Some(1));
    assert_eq!(a.status, "wait");
    assert_eq!(a.alert_type, "soon");
    t.team[1].status = Some("done".to_string());
    assert!(task_alert(&t, &me, today).is_none());
}

#[test]
fn alerts_sorted_soonest_first_stable() {
    let today = day(2026, 5, 10);
    let me = "alice".to_string();
    let tasks = vec![
        task("a", "doing", "2026-05-15", "alice"),
        task("b", "doing", "2026-05-09", "alice"),
        task("c", "done", "2026-05-01", "alice"),
        task("d", "doing", "2026-05-15", "alice"),
        task("e", "doing", "2026-05-10", "alice"),
    ];
    let r = task_alerts(&tasks, &me, today);
    let ids: Vec<&str> = r.iter().map(|a| a.id.as_str()).collect();
    assert_eq!(ids, vec!["b", "e", "a", "d"]);
}

#[test]
fn my_task_refs_keeps_open_own_tasks() {
    let me = "alice".to_string();
    let mut shared = task("3", "doing", "2026-06-01", "bob");
    shared.team = vec![TeamEntry { account: Some("alice".to_string()), status: None }];
    let tasks = vec![
        task("1", "doing", "2026-06-01", "alice"),
        task("2", "done", "2026-06-01", "alice"),
        shared,
        task("4", "doing", "2026-06-01", "bob"),
        task("", "doing", "2026-06-01", "alice"),
    ];
    let r = my_task_refs(&tasks, &me);
    let ids: Vec<&str> = r.iter().map(|t| t.id.as_str()).collect();
    assert_eq!(ids, vec!["1", "3"]);
    assert_eq!(r[0].title, "任务1");
    assert_eq!(r[0].deadline, "2026-06-01");
}

#[test]
fn proactive_reminders_overdue_and_today() {
    let tasks = vec![
        task("1", "doing", "2026-05-09 18:00", "a"),
        task("2", "doing", "2026-05-10", "a"),
        task("3", "done", "2026-05-01", "a"),
    ];
    let r = proactive_reminders(&tasks, "2026-05-10");
    assert_eq!(r.len(), 2);
    assert_eq!(r[0].state, "warning");
    assert_eq!(r[0].emoji, "🔥");
    assert_eq!(r[1].state, "thinking");
    assert_eq!(r[1].text, "⏰ 今天有任务即将截止");
    let none = proactive_reminders(&vec![task("1", "doing", "2026-06-01", "a"), task("2", "doing", "short", "a")], "2026-05-10");
    assert!(none.is_empty());
    let closed_only = proactive_reminders(&vec![task("1", "cancel", "2026-05-01", "a")], "2026-05-10");
    assert!(closed_only.is_empty());
}

#[test]
fn deadline_readiness_checks() {
    // Byte 10 falls inside the two-byte `é`.
    let bad = task("1", "doing", "2026-05-1é0", "me");
    assert!(!alert_ready(&bad, &"me".to_string()));
    assert!(alert_ready(&bad, &"someone-else".to_string()));
    assert!(!reminder_ready(&bad));
    let closed = task("2", "done", "2026-05-1é0", "me");
    assert!(alert_ready(&closed, &"me".to_string()));
    assert!(reminder_ready(&closed));
    let good = task("3", "doing", "2026-05-10 18:00", "me");
    assert!(alert_ready(&good, &"me".to_string()));
    assert!(reminder_ready(&good));
}

#[test]
fn team_entry_without_account_is_nobodys() {
    let today = day(2026, 5, 10);
    let mut t = task("9", "doing", "2026-05-11", "bob");
    t.team = vec![TeamEntry { account: None, status: Some("done".to_string()) }];
    let a = task_alert(&t, &String::new(), today).unwrap();
    assert!(!a.is_team);
    assert_eq!(a.team_entry, None);
    assert_eq!(a.status, "doing");
}

#[test]
fn alert_from_a_parsed_date() {
    let today = day(2026, 5, 10);
    let me = "alice".to_string();
    let t = task("1", "doing", "2026-05-12 09:00:00", "alice");
    let a = task_alert_parsed(&t, &me, today, Some(today + 2)).unwrap();
    assert_eq!(a.alert_type, "soon");
    assert_eq!(a.days_until_due, 2);
    assert_eq!(a.deadline, "2026-05-12");
    assert!(task_alert_parsed(&t, &me, today, None).is_none());
    assert!(task_alert_parsed(&t, &me, today, Some(today + 8)).is_none());
    let closed = task("2", "done", "2026-05-12", "alice");
    assert!(task_alert_parsed(&closed, &me, today, Some(today)).is_none());
}
