use jarvis::commit_link::{
    answer_for_commit, apply_verdicts, count_items, count_pending, is_excluded_line, group_orphans, group_task_links, plan_links, ItemLink,
    LinkItem, LinkKind, RepoItems,
};
use jarvis::daily_review::{
    needs_status_update, primary_business_line, task_status, unique_titles,
    ReviewTaskInfo, TaskProgress,
};

fn item(sha: &str, date: &str, ids: &[&str]) -> LinkItem {
    LinkItem {
        sha: sha.to_string(),
        authored_date: date.to_string(),
        task_ids: ids.iter().map(|s| s.to_string()).collect(),
    }
}

fn repo(path: &str, line: &str, bound: &[&str], items: Vec<LinkItem>) -> RepoItems {
    RepoItems {
        repo_path: path.to_string(),
        business_line: line.to_string(),
        bound_task_ids: bound.iter().map(|s| s.to_string()).collect(),
        items,
    }
}

fn strings(v: &[&str]) -> Vec<String> {
    v.iter().map(|s| s.to_string()).collect()
}

#[test]
fn links_exact_bound_pending_and_orphans() {
    let repos = vec![
        repo("r1", "物流", &["100"], vec![
            item("a", "2026-05-01", &["200"]),
            item("b", "2026-05-02", &[]),
        ]),
        repo("r2", "销售", &["100", "200"], vec![item("c", "2026-05-03", &[])]),
        repo("r3", "物流", &[], vec![item("d", "2026-05-04", &["999"])]),
    ];
    let tasks = strings(&["100", "200"]);
    let mut links = plan_links(&repos, &tasks, true);
    assert!(matches!(&links[0][0], ItemLink::Exact(ids) if ids == &strings(&["200"])));
    assert!(matches!(&links[0][1], ItemLink::Bound(t) if t == "100"));
    assert!(matches!(links[1][0], ItemLink::Pending));
    assert!(matches!(links[2][0], ItemLink::Unassigned));
    assert_eq!(count_pending(&links[1]), 1);
    apply_verdicts(&mut links[1], &vec![Some("200".to_string())]);
    assert!(matches!(&links[1][0], ItemLink::Classified(t) if t == "200"));

    let groups = group_task_links(&repos, &links, &tasks);
    assert_eq!(groups.len(), 2);
    let g200 = groups.iter().find(|g| g.task_id == "200").unwrap();
    assert_eq!(g200.entries.len(), 2);
    // exact links first, then newest first
    assert_eq!(g200.entries[0].kind, LinkKind::Exact);
    assert_eq!((g200.entries[0].pos.repo, g200.entries[0].pos.item), (0, 0));
    assert_eq!(g200.entries[1].kind, LinkKind::Classified);
    let g100 = groups.iter().find(|g| g.task_id == "100").unwrap();
    assert_eq!(g100.entries.len(), 1);
    assert_eq!(g100.entries[0].kind, LinkKind::Bound);

    let orphans = group_orphans(&repos, &links);
    assert_eq!(orphans.len(), 1);
    assert_eq!(orphans[0].business_line, "物流");
    assert_eq!(orphans[0].members.len(), 1);
    assert_eq!((orphans[0].members[0].repo, orphans[0].members[0].item), (2, 0));
}

#[test]
fn several_bound_tasks_without_classifier_stay_unassigned() {
    let repos = vec![repo("r", "x", &["1", "2"], vec![item("a", "d", &[])])];
    let links = plan_links(&repos, &strings(&["1", "2"]), false);
    assert!(matches!(links[0][0], ItemLink::Unassigned));
}

#[test]
fn entries_sorted_newest_first_within_kind() {
    let repos = vec![repo("r", "x", &["7"], vec![
        item("a", "2026-01-01", &[]),
        item("b", "2026-03-01", &[]),
        item("c", "2026-02-01", &["7"]),
    ])];
    let tasks = strings(&["7"]);
    let links = plan_links(&repos, &tasks, false);
    let groups = group_task_links(&repos, &links, &tasks);
    let order: Vec<usize> = groups[0].entries.iter().map(|e| e.pos.item).collect();
    assert_eq!(order, vec![2, 1, 0]);
}

#[test]
fn allocate_slots() {
    let hours = |h: f64, n: usize| -> Vec<f64> {
        jarvis::daily_review::allocate_slots((h * 2.0).round() as i64, n)
            .iter()
            .map(|s| *s as f64 * 0.5)
            .collect()
    };
    assert_eq!(hours(3.0, 2), vec![1.5, 1.5]);
    assert_eq!(hours(1.0, 3), vec![0.5, 0.5, 0.0]);
    assert_eq!(hours(0.0, 3), vec![0.0, 0.0, 0.0]);
}

#[test]
fn slots_are_spread_evenly() {
    assert_eq!(jarvis::daily_review::allocate_slots(7, 3), vec![3, 2, 2]);
    assert_eq!(jarvis::daily_review::allocate_slots(-1, 2), vec![0, 0]);
    assert!(jarvis::daily_review::allocate_slots(5, 0).is_empty());
    let total: u64 = jarvis::daily_review::allocate_slots(17, 4).iter().sum();
    assert_eq!(total, 17);
}

#[test]
fn daily_review_helpers() {
    assert_eq!(primary_business_line(&strings(&["a", "b", "b"])), "b");
    assert_eq!(primary_business_line(&Vec::new()), "");
    let tasks = vec![
        ReviewTaskInfo { id: "1".into(), name: "x".into(), status: "doing".into() },
        ReviewTaskInfo { id: "1".into(), name: "x".into(), status: "wait".into() },
    ];
    assert_eq!(task_status(&tasks, &"1".to_string()), "wait");
    assert_eq!(task_status(&tasks, &"2".to_string()), "unknown");
    let flags = needs_status_update(&vec![
        TaskProgress { task_id: "1".into(), task_name: "登录".into(), status: "wait".into(), commit_count: 3 },
        TaskProgress { task_id: "2".into(), task_name: "支付".into(), status: "doing".into(), commit_count: 1 },
    ]);
    assert_eq!(flags.len(), 1);
    assert_eq!(flags[0].reason, "本地已有 3 个 commit，但禅道状态仍是\"未开始\"");
    let titles = unique_titles(&strings(&["feat: a", "✨ a", "", "fix: b"]));
    assert_eq!(titles, vec![(0, "a".to_string()), (3, "b".to_string())]);
}

#[test]
fn commit_count_and_excluded_lines() {
    let repos = vec![
        repo("r1", "物流", &[], vec![item("a", "2026-05-01", &[]), item("b", "2026-05-02", &[])]),
        repo("r2", "销售", &[], vec![]),
        repo("r3", "物流", &[], vec![item("d", "2026-05-04", &["999"])]),
    ];
    assert_eq!(count_items(&repos), 3);
    assert_eq!(count_items(&Vec::new()), 0);
    let excluded = strings(&["销售", "其他"]);
    assert!(is_excluded_line("销售", &excluded));
    assert!(!is_excluded_line("物流", &excluded));
    assert!(!is_excluded_line("销", &excluded));
}

#[test]
fn classifier_answer_by_short_or_full_sha() {
    let keys = strings(&["abc1234", "ffff999aaaa"]);
    assert_eq!(answer_for_commit(&keys, "abc1234deadbeef", "abc1234"), Some(0));
    assert_eq!(answer_for_commit(&keys, "ffff999aaaa", "ffff999"), Some(1));
    assert_eq!(answer_for_commit(&keys, "0000000111", "0000000"), None);
}
