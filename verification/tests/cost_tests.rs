use jarvis::cost::{
    cost_date_range, display_name_for, is_workday, team_members, user_status_for,
    workday_after_parse, EffortEntry,
};
use jarvis::deploy::kv_insert_exec;
use jarvis::fine_report::generate_cid;
use md5::Digest;

fn entry(project: &str, employee: &str) -> EffortEntry {
    EffortEntry { project_name: project.to_string(), employee: employee.to_string() }
}

#[test]
fn team_members_dedup_in_order() {
    let records = vec![
        entry("P1", " 张三 "),
        entry("P2", "王五"),
        entry("P1", "李四"),
        entry("P1", "张三"),
        entry("P1", "   "),
    ];
    let m = team_members(&records, "P1");
    let names: Vec<&str> = m.iter().map(|x| x.account.as_str()).collect();
    assert_eq!(names, vec!["张三", "李四"]);
    assert_eq!(m[0].realname, "张三");
    assert!(team_members(&records, "P3").is_empty());
}

#[test]
fn display_name_prefers_distinct_override() {
    let e = "zhangsan".to_string();
    assert_eq!(display_name_for(&e, Some(&"张三".to_string())), "张三");
    assert_eq!(display_name_for(&e, Some(&String::new())), "zhangsan");
    assert_eq!(display_name_for(&e, Some(&"zhangsan".to_string())), "zhangsan");
    assert_eq!(display_name_for(&e, None), "zhangsan");
}

#[test]
fn cost_date_range_defaults() {
    let (b, e) = cost_date_range(None, Some(""), "2026-05-01", "2026-05-10");
    assert_eq!(b, "2026-05-01");
    assert_eq!(e, "2026-05-10");
    let (b, e) = cost_date_range(Some("2026-01-01"), Some("2026-03-31"), "2026-05-01", "2026-05-10");
    assert_eq!(b, "2026-01-01");
    assert_eq!(e, "2026-03-31");
}

#[test]
fn user_status_filter() {
    assert_eq!(user_status_for(true), "");
    assert_eq!(user_status_for(false), "0");
}

#[test]
fn workday_by_holiday_table() {
    assert_eq!(is_workday("2026-10-01"), Some(false));
    assert_eq!(is_workday("2026-10-03"), Some(false));
    // A Sunday made a working day.
    assert_eq!(is_workday("2026-09-20"), Some(true));
    assert_eq!(is_workday("2026-09-28"), Some(true));
    // An ordinary Saturday.
    assert_eq!(is_workday("2026-09-19"), Some(false));
    // Unparsable dates count as working days.
    assert_eq!(is_workday("not a date"), Some(true));
    // Outside the table's years there is no answer.
    assert_eq!(is_workday("2030-01-01"), None);
    assert_eq!(is_workday("2003-12-31"), None);
    assert_eq!(workday_after_parse(None), Some(true));
    assert_eq!(workday_after_parse(Some(0)), None);
}

fn md5_hex(s: &str) -> String {
    hex::encode(md5::Md5::digest(s.as_bytes()))
}

#[test]
fn cid_shape_and_checksum() {
    let cid = generate_cid("sess-1", 1700000000123);
    let parts: Vec<&str> = cid.split('#').collect();
    assert_eq!(parts.len(), 3);
    assert_eq!(parts[0], md5_hex("sess-1_1700000000123"));
    assert_eq!(parts[1], "1700000000123");
    let full = md5_hex(&format!("{}#{}", parts[0], parts[1]));
    assert_eq!(parts[2], &full[24..]);
    assert_eq!(parts[2].len(), 8);
}

#[test]
fn kv_insert_then_get() {
    let mut pairs: Vec<(String, String)> = vec![("A".to_string(), "1".to_string())];
    kv_insert_exec(&mut pairs, "B".to_string(), "2".to_string());
    kv_insert_exec(&mut pairs, "A".to_string(), "3".to_string());
    assert_eq!(
        pairs,
        vec![("A".to_string(), "3".to_string()), ("B".to_string(), "2".to_string())]
    );
}
