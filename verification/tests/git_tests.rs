use jarvis::commit_link::{extract_business_line, extract_task_ids_from_message};
use jarvis::git::{
    shorten_title,
    clean_commit_title, commit_loc, is_generated_path, loc_fits_exec, CommitStat, CommitStatFile, LocalCommit,
    MatchDimension, RangePreset,
};

fn check_cc_prefix() {
    assert_eq!(clean_commit_title("feat: add login", 60), "add login");
    assert_eq!(clean_commit_title("feat(api): add login", 60), "add login");
    assert_eq!(clean_commit_title("FIX: bug", 60), "bug");
}

fn check_emoji() {
    assert_eq!(clean_commit_title("✨ feat: 新增登录页", 60), "新增登录页");
    assert_eq!(clean_commit_title("🐛 修复 bug", 60), "修复 bug");
}

fn check_lockfiles() {
    assert!(is_generated_path("package-lock.json"));
    assert!(is_generated_path("frontend/pnpm-lock.yaml"));
    assert!(is_generated_path("dist/bundle.js"));
    assert!(is_generated_path("a/node_modules/foo/index.js"));
    assert!(!is_generated_path("src/main.rs"));
}

#[test]
fn git_scan_clean_title_strips_cc_prefix() {
    check_cc_prefix();
}

#[test]
fn cleanup_clean_title_strips_cc_prefix() {
    check_cc_prefix();
}

#[test]
fn git_scan_clean_title_strips_emoji() {
    check_emoji();
}

#[test]
fn cleanup_clean_title_strips_emoji() {
    check_emoji();
}

#[test]
fn git_scan_generated_path_lockfiles() {
    check_lockfiles();
}

#[test]
fn cleanup_generated_path_lockfiles() {
    check_lockfiles();
}

#[test]
fn clean_title_truncates_with_ellipsis() {
    assert_eq!(clean_commit_title("refactor: abcdef ghij", 8), "abcdef…");
    assert_eq!(clean_commit_title("", 60), "");
    assert_eq!(clean_commit_title("feat(x)!:  chained", 60), "chained");
    assert_eq!(clean_commit_title("feature: not a prefix", 60), "feature: not a prefix");
    assert_eq!(clean_commit_title("✨ feat: 🐛 fix: 两层", 60), "两层");
}

#[test]
fn generated_path_more_cases() {
    assert!(is_generated_path("web\\dist\\app.js"));
    assert!(is_generated_path("static/app.min.js"));
    assert!(is_generated_path("static/app.css.map"));
    assert!(is_generated_path("Cargo.lock"));
    assert!(!is_generated_path("distribution/readme.md"));
}

#[test]
fn presets_and_dimensions_parse() {
    assert_eq!(MatchDimension::parse("committer"), MatchDimension::Committer);
    assert_eq!(MatchDimension::parse("any"), MatchDimension::Any);
    assert_eq!(MatchDimension::parse("other"), MatchDimension::Author);
    assert_eq!(RangePreset::parse("lastWeek"), RangePreset::LastWeek);
    assert_eq!(RangePreset::parse("last30days"), RangePreset::Last30Days);
    assert_eq!(RangePreset::parse("bogus"), RangePreset::Today);
}

#[test]
fn business_line_extraction() {
    let roots = vec!["D:/coding".to_string()];
    assert_eq!(extract_business_line("D:/coding/物流/logistics-web", &roots), "物流");
    assert_eq!(extract_business_line("D:/coding/deer-flow", &roots), "deer-flow");
    assert_eq!(
        extract_business_line("D:\\coding\\示例销售线\\example-sale-app", &roots),
        "示例销售线"
    );
}

#[test]
fn business_line_root_itself_and_outside() {
    let roots = vec!["D:/coding/".to_string()];
    assert_eq!(extract_business_line("D:/coding", &roots), "coding");
    assert_eq!(extract_business_line("E:/other/repo", &roots), "repo");
}

#[test]
fn task_id_extraction() {
    let c = LocalCommit {
        sha: "abc".into(),
        short_sha: "abc".into(),
        author_name: "".into(),
        author_email: "".into(),
        authored_date: "".into(),
        committer_name: "".into(),
        committer_email: "".into(),
        committed_date: "".into(),
        title: "fix #10238 login bug".into(),
        body: Some("see task-99999".into()),
        stat: None,
    };
    let ids = extract_task_ids_from_message(&c);
    assert!(ids.contains(&"10238".to_string()));
    assert!(ids.contains(&"99999".to_string()));
}

#[test]
fn task_ids_are_not_repeated() {
    let c = LocalCommit {
        sha: "abc".into(),
        short_sha: "abc".into(),
        author_name: "".into(),
        author_email: "".into(),
        authored_date: "".into(),
        committer_name: "".into(),
        committer_email: "".into(),
        committed_date: "".into(),
        title: "#1234 and #1234 again, Zentao-5678".into(),
        body: None,
        stat: None,
    };
    assert_eq!(extract_task_ids_from_message(&c), vec!["1234".to_string(), "5678".to_string()]);
}

fn stat_commit(stat: Option<CommitStat>) -> LocalCommit {
    LocalCommit {
        sha: "abc".into(),
        short_sha: "abc".into(),
        author_name: "".into(),
        author_email: "".into(),
        authored_date: "".into(),
        committer_name: "".into(),
        committer_email: "".into(),
        committed_date: "".into(),
        title: "".into(),
        body: None,
        stat,
    }
}

#[test]
fn commit_loc_counts_source_files_only() {
    assert_eq!(commit_loc(&stat_commit(None)), None);
    let file = |p: &str, i: usize, d: usize, b: Option<bool>| CommitStatFile { path: p.to_string(), insertions: i, deletions: d, binary: b };
    let st = CommitStat {
        files_changed: 4,
        insertions: 1000,
        deletions: 1000,
        files: vec![
            file("src/main.rs", 10, 5, None),
            file("package-lock.json", 500, 0, Some(false)),
            file("logo.png", 0, 0, Some(true)),
            file("web/app.ts", 3, 2, Some(false)),
        ],
    };
    assert_eq!(commit_loc(&stat_commit(Some(st))), Some(20));
    let totals = CommitStat { files_changed: 2, insertions: 7, deletions: 4, files: vec![] };
    assert_eq!(commit_loc(&stat_commit(Some(totals))), Some(11));
}

#[test]
fn loc_fits_rejects_overflowing_counts() {
    assert!(loc_fits_exec(&stat_commit(None)));
    let big = CommitStat {
        files_changed: 2,
        insertions: 0,
        deletions: 0,
        files: vec![
            CommitStatFile { path: "a.rs".into(), insertions: usize::MAX, deletions: 0, binary: None },
            CommitStatFile { path: "b.rs".into(), insertions: 1, deletions: 0, binary: None },
        ],
    };
    assert!(!loc_fits_exec(&stat_commit(Some(big))));
    let generated = CommitStat {
        files_changed: 2,
        insertions: 0,
        deletions: 0,
        files: vec![
            CommitStatFile { path: "a.rs".into(), insertions: usize::MAX, deletions: 0, binary: None },
            CommitStatFile { path: "package-lock.json".into(), insertions: 1, deletions: 0, binary: None },
        ],
    };
    assert!(loc_fits_exec(&stat_commit(Some(generated))));
    let totals = CommitStat { files_changed: 0, insertions: usize::MAX, deletions: 1, files: vec![] };
    assert!(!loc_fits_exec(&stat_commit(Some(totals))));
}

#[test]
fn shorten_title_after_stripping() {
    let v = |t: &str| t.chars().collect::<Vec<char>>();
    assert_eq!(shorten_title(&v("  abcdef "), 4), "abc…");
    assert_eq!(shorten_title(&v("ab  cd"), 4), "ab…");
    assert_eq!(shorten_title(&v(" ok "), 4), "ok");
    assert_eq!(shorten_title(&v("abc"), 0), "…");
    assert_eq!(clean_commit_title("", 0), "");
}
