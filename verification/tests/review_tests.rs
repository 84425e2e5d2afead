use jarvis::daily_review::NeedsStatusUpdate;
use jarvis::review_groups::{group_by_business_line, CommitKey};
use jarvis::review_text::{render_plain_text, ReportCommit, ReportLine, ReportOrphans, ReportTask};

fn key(line: &str, sha: &str, repo: &str) -> CommitKey {
    CommitKey { business_line: line.into(), sha: sha.into(), repo_path: repo.into() }
}

#[test]
fn commits_group_by_line_once_each() {
    let tasks = vec![
        ("101".to_string(), vec![key("物流", "a1", "/r/web"), key("计量", "b1", "/r/meter")]),
        ("102".to_string(), vec![key("物流", "a1", "/r/web"), key("物流", "a2", "/r/web")]),
        ("103".to_string(), vec![]),
    ];
    let orphans = vec![("物流".to_string(), vec![key("ignored", "a3", "/r/web"), key("ignored", "a1", "/r/web")])];
    let groups = group_by_business_line(&tasks, &orphans);
    assert_eq!(groups.len(), 2);
    assert_eq!(groups[0].business_line, "物流");
    // a1 once (first met under task 101), a2 under task 102, a3 from the orphans (list 3).
    assert_eq!(groups[0].commits, vec![(0, 0), (1, 1), (3, 0)]);
    assert_eq!(groups[0].task_ids, vec!["101".to_string(), "102".to_string()]);
    assert_eq!(groups[1].business_line, "计量");
    assert_eq!(groups[1].commits, vec![(0, 1)]);
    assert_eq!(groups[1].task_ids, vec!["101".to_string()]);
    // Same sha in another repository is another commit.
    let g2 = group_by_business_line(&vec![("1".to_string(), vec![key("x", "s", "/a"), key("x", "s", "/b")])], &vec![]);
    assert_eq!(g2[0].commits.len(), 2);
}

fn commit(title: &str, sha: &str) -> ReportCommit {
    ReportCommit { title: title.into(), repo_name: "web".into(), short_sha: sha.into() }
}

#[test]
fn report_text_layout() {
    assert_eq!(
        render_plain_text("2026-05-10", 0, 0, 0, &vec![], &vec![], &vec![], true),
        "工作日报 2026-05-10\n\n今天没有本地提交。如有未推送或外部协作，请手动补充。"
    );
    let lines = vec![ReportLine {
        business_line: "物流".into(),
        commits: vec![commit("feat: 登录页", "a1"), commit("feat: 登录页", "a2")],
        tasks: vec![ReportTask { task_id: "101".into(), task_name: "登录".into(), waiting: true }],
        hours: Some("8".into()),
        line_task_count: 1,
        task_hours: vec![("101".into(), "登录".into(), "8".into())],
    }];
    let needs = vec![NeedsStatusUpdate {
        task_id: "101".into(),
        task_name: "登录".into(),
        commit_count: 2,
        reason: "本地已有 2 个 commit，但禅道状态仍是\"未开始\"".into(),
    }];
    let orphans = vec![ReportOrphans { business_line: "计量".into(), commits: vec![commit("fix bug", "c1")], hours: Some("0.5".into()) }];
    let text = render_plain_text("2026-05-10", 3, 2, 1, &lines, &needs, &orphans, true);
    let expected = "工作日报 2026-05-10\n\n今天共提交 3 个 commit，覆盖 2 个业务线，推进 1 个任务。\n\n【完成内容】\n\n\
物流（1 个主题 / 共 2 次提交）\n  · 登录页  (web · a1)\n  推进任务：\n    - #101 登录（未开始）\n\n\
【建议工时分配】（最小粒度 0.5h，仅供禅道填报参考）\n  · 物流：8h（1/1 个主要任务）\n    - #101 登录：8h\n  注：commit 数少的次要任务未分配工时，主要任务工时合计为日总工时。\n\n\
【需要在禅道更新状态的任务】\n  · #101 登录：本地已有 2 个 commit，但禅道状态仍是\"未开始\"\n\n\
【未关联禅道任务的提交】（建议补任务号或在日报中说明）\n  · 计量（1 个主题，建议 ~0.5h）\n    - fix bug  (web · c1)";
    assert_eq!(text, expected);
    // Without hour estimates the hours section is left out.
    let no_hours = render_plain_text("d", 3, 2, 1, &lines, &vec![], &vec![], false);
    assert!(!no_hours.contains("建议工时分配"));
    assert!(no_hours.ends_with("    - #101 登录（未开始）"));
}
