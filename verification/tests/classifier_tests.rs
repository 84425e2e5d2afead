use jarvis::commit_classifier::{candidate_for_index, classify_prompt, json_array_text};
use jarvis::commit_link::TaskInput;
use jarvis::git::{CommitStat, CommitStatFile, LocalCommit};

fn commit(short: &str, title: &str, files: &[&str]) -> LocalCommit {
    LocalCommit {
        sha: format!("{}000", short),
        short_sha: short.into(),
        author_name: "".into(),
        author_email: "".into(),
        authored_date: "".into(),
        committer_name: "".into(),
        committer_email: "".into(),
        committed_date: "".into(),
        title: title.into(),
        body: None,
        stat: if files.is_empty() {
            None
        } else {
            Some(CommitStat {
                files_changed: files.len(),
                insertions: 1,
                deletions: 0,
                files: files
                    .iter()
                    .map(|p| CommitStatFile { path: p.to_string(), insertions: 1, deletions: 0, binary: None })
                    .collect(),
            })
        },
    }
}

#[test]
fn prompt_lists_candidates_and_commits() {
    let cands = vec![
        TaskInput { id: "101".into(), name: "登录页改版".into() },
        TaskInput { id: "102".into(), name: "x".repeat(90) },
    ];
    let commits = vec![
        commit("abc1234", "fix login", &["src/pages/login/index.tsx", "README.md", "a/b/c/d.rs", "e", "f/g", "h/i/j"]),
        commit("def5678", "docs", &[]),
    ];
    let p = classify_prompt(&commits, &cands);
    assert!(p.starts_with("候选任务（taskIndex 0 表示「不属于任何候选任务」）：\n[1] #101 登录页改版\n[2] #102 "));
    assert!(p.contains(&format!("[2] #102 {}\n", "x".repeat(80))));
    assert!(!p.contains(&"x".repeat(81)));
    assert!(p.contains("\n提交列表：\n- sha=abc1234 title=\"fix login\" files=[login/index.tsx,README.md,c/d.rs,e,f/g]\n- sha=def5678 title=\"docs\"\n"));
    assert!(p.ends_with("\"reason\":\"修改了任务 2 提到的登录页\"}]\n"));
}

#[test]
fn json_array_is_cut_out_of_the_reply() {
    assert_eq!(json_array_text("  [1, 2] ").as_deref(), Some("[1, 2]"));
    assert_eq!(
        json_array_text("```json\n[{\"sha\":\"a\"}]\n```").as_deref(),
        Some("[{\"sha\":\"a\"}]")
    );
    assert_eq!(json_array_text("答案如下：[{\"a\":[1]}] 结束").as_deref(), Some("[{\"a\":[1]}]"));
    assert_eq!(json_array_text("no array here"), None);
    assert_eq!(json_array_text("] before ["), None);
    assert_eq!(json_array_text("["), None);
}

#[test]
fn task_index_names_a_candidate() {
    let cands = vec![TaskInput { id: "7".into(), name: "a".into() }, TaskInput { id: "9".into(), name: "b".into() }];
    assert_eq!(candidate_for_index(0, &cands), None);
    assert_eq!(candidate_for_index(2, &cands).as_deref(), Some("9"));
    assert_eq!(candidate_for_index(3, &cands), None);
}
