use jarvis::git::{CommitStat, DateRange, LocalCommit, MatchDimension, RepoCommits};
use jarvis::git_log::{
    log_ids_ready, numstat_fits,
    authors_from_list, commit_diff_from, log_args, parse_git_log, parse_log_record, parse_numstat,
    repos_with_sorted_commits, retain_matching, root_dirs_error, scan_bounds, sort_newest_first,
    sort_repos_newest_first, split_char, total_commits, GetCommitsOpts,
};

const FS: &str = "\u{1f}";
const RS: &str = "\u{1e}";

fn record(sha: &str, name: &str, email: &str, date: &str, title: &str, body: Option<&str>) -> String {
    let mut f = vec![sha, name, email, date, "c", "c@x", date, title];
    if let Some(b) = body {
        f.push(b);
    }
    format!("{}{}", f.join(FS), RS)
}

#[test]
fn split_char_keeps_empty_pieces() {
    assert_eq!(split_char("a,,b,", ','), vec!["a", "", "b", ""]);
    assert_eq!(split_char("", ','), vec![""]);
}

#[test]
fn git_log_records_parse() {
    let out = format!(
        "{}\n{}\n{}",
        record(" 0123456789abcdef ", "张三", "z@x", "2026-05-10T10:00:00+08:00", "feat: a", Some(" body line \n")),
        record("fedcba9876", "李四", "l@x", "2026-05-09T10:00:00+08:00", "fix: b", Some("")),
        "short\u{1f}record"
    );
    let cs = parse_git_log(&out, true);
    assert_eq!(cs.len(), 2);
    assert_eq!(cs[0].sha, "0123456789abcdef");
    assert_eq!(cs[0].short_sha, "0123456");
    assert_eq!(cs[0].author_name, "张三");
    assert_eq!(cs[0].title, "feat: a");
    assert_eq!(cs[0].body.as_deref(), Some("body line"));
    assert_eq!(cs[1].body, None);
    assert!(cs.iter().all(|c| c.stat.is_none()));
    let no_body = parse_git_log(&out, false);
    assert_eq!(no_body[0].body, None);
    assert!(parse_git_log("", false).is_empty());
    let c = parse_log_record(&format!("abc{}a{}b{}c{}d{}e{}f{}title{}x{}y", FS, FS, FS, FS, FS, FS, FS, FS, FS), true).unwrap();
    assert_eq!(c.short_sha, "abc");
    assert_eq!(c.body.as_deref(), Some(&*format!("x{}y", FS)));
}

#[test]
fn numstat_counts() {
    let out = "10\t2\tsrc/a.rs\n-\t-\timg.png\n\n3\tx\tweird.txt\nbad line\n1\t1\t\n";
    let st = parse_numstat(out);
    assert_eq!(st.files_changed, 3);
    assert_eq!(st.files[0].path, "src/a.rs");
    assert_eq!((st.files[0].insertions, st.files[0].deletions), (10, 2));
    assert_eq!(st.files[1].binary, Some(true));
    assert_eq!(st.files[2].deletions, 0);
    assert_eq!(st.insertions, 13);
    assert_eq!(st.deletions, 2);
}

#[test]
fn log_args_by_match_mode() {
    let authors = vec!["me".to_string(), "".to_string(), "me@x".to_string()];
    let opts = GetCommitsOpts { authors: &authors, since: "2026-05-01", until: "2026-05-10", match_mode: MatchDimension::Author, include_body: true, include_stat: false };
    let args = log_args(&opts);
    assert_eq!(args[0], "log");
    assert_eq!(args[3], "--since=2026-05-01");
    assert_eq!(args[5], format!("--pretty=format:%H{f}%an{f}%ae{f}%aI{f}%cn{f}%ce{f}%cI{f}%s{f}%b{r}", f = FS, r = RS));
    assert_eq!(&args[6..], &["--author=me".to_string(), "--author=me@x".to_string()]);
    let any = GetCommitsOpts { match_mode: MatchDimension::Any, include_body: false, ..opts };
    let args = log_args(&any);
    assert_eq!(args.len(), 6);
    let committer = GetCommitsOpts { match_mode: MatchDimension::Committer, ..any };
    assert_eq!(log_args(&committer)[6], "--committer=me");
}

fn commit(name: &str, email: &str, date: &str) -> LocalCommit {
    LocalCommit {
        sha: date.to_string(),
        short_sha: "s".into(),
        author_name: name.into(),
        author_email: email.into(),
        authored_date: date.into(),
        committer_name: "".into(),
        committer_email: "".into(),
        committed_date: date.into(),
        title: "".into(),
        body: None,
        stat: None,
    }
}

#[test]
fn identity_filter_ignores_case() {
    let cs = vec![commit("Alice", "a@x", "1"), commit("Bob", "bob@x", "2"), commit("carol", "C@X", "3")];
    let kept = retain_matching(cs.clone(), &vec!["ALICE".to_string(), "c@x".to_string()]);
    let dates: Vec<&str> = kept.iter().map(|c| c.authored_date.as_str()).collect();
    assert_eq!(dates, vec!["1", "3"]);
    assert_eq!(retain_matching(cs, &vec![]).len(), 3);
}

#[test]
fn commits_and_repos_newest_first() {
    let cs = vec![commit("a", "", "2026-05-01"), commit("b", "", "2026-05-03"), commit("c", "", "2026-05-01"), commit("d", "", "2026-05-02")];
    let sorted = sort_newest_first(cs);
    let names: Vec<&str> = sorted.iter().map(|c| c.author_name.as_str()).collect();
    assert_eq!(names, vec!["b", "d", "a", "c"]);
    let repos = vec![
        RepoCommits { repo_path: "r1".into(), commits: vec![commit("x", "", "2026-04-01"), commit("y", "", "2026-04-05")] },
        RepoCommits { repo_path: "r2".into(), commits: vec![] },
        RepoCommits { repo_path: "r3".into(), commits: vec![commit("z", "", "2026-04-07")] },
    ];
    let kept = repos_with_sorted_commits(repos);
    assert_eq!(kept.len(), 2);
    assert_eq!(kept[0].commits[0].author_name, "y");
    let ordered = sort_repos_newest_first(kept);
    assert_eq!(ordered[0].repo_path, "r3");
    assert_eq!(total_commits(&ordered), 3);
}

#[test]
fn scan_inputs() {
    assert_eq!(authors_from_list(" a , ,b,"), vec!["a".to_string(), "b".to_string()]);
    assert_eq!(root_dirs_error(&[]).unwrap(), "缺少 rootDir。请在 settings 里配置代码根目录");
    assert!(root_dirs_error(&["/x".to_string()]).is_none());
    let preset = DateRange { since: "s0".into(), until: "u0".into(), label: "l".into() };
    assert_eq!(scan_bounds(Some("s1"), None, &preset), ("s1".to_string(), "u0".to_string()));
}

#[test]
fn commit_detail_from_show_output() {
    let stat = CommitStat { files_changed: 0, insertions: 0, deletions: 0, files: vec![] };
    let meta = format!(" abc {f}张三{f}z@x{f}2026-05-10{f}title{f} body {f} more \n\n", f = FS);
    let d = commit_diff_from(&meta, "asked", stat.clone(), "\n\ndiff --git a b\n", "snip").unwrap();
    assert_eq!(d.sha, "abc");
    assert_eq!(d.title, "title");
    assert_eq!(d.body, format!("body {} more", FS));
    assert_eq!(d.patch, "diff --git a b\n");
    let d = commit_diff_from(&format!("{f}n{f}e{f}d{f}t", f = FS), "asked", stat.clone(), "", "snip").unwrap();
    assert_eq!(d.sha, "asked");
    assert_eq!(d.body, "");
    let e = commit_diff_from("broken", "asked", stat, "", "broken").unwrap_err();
    assert_eq!(e, "git show meta 输出格式异常: broken");
}

#[test]
fn readiness_checks_before_parsing() {
    assert!(numstat_fits("10\t2\tsrc/a.rs\n"));
    let huge = format!("{}\t0\ta\n1\t0\tb\n", usize::MAX);
    assert!(!numstat_fits(&huge));
    let rec = format!("abcdef0123{}a{}b{}c{}d{}e{}f{}t", FS, FS, FS, FS, FS, FS, FS);
    assert!(log_ids_ready(&rec));
    let odd = format!("abcdef中{}a{}b{}c{}d{}e{}f{}t", FS, FS, FS, FS, FS, FS, FS);
    assert!(!log_ids_ready(&odd));
}
