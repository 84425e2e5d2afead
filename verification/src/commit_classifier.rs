//! Asking the model which candidate task each commit belongs to: the prompt
//! that lists the candidates and the commits, and reading the JSON array
//! out of the model's reply.

use vstd::prelude::*;
use crate::commit_link::{strs, TaskInput};
use crate::git::{CommitStatFile, LocalCommit};
use crate::git_log::{index_of, index_of_exec, join_from, join_sep, split_char, split_on};
use crate::text::{
    chars_of, decimal_seq, decimal_string, matches_at, occurs_at, owned, push_str, seq_starts_with,
    slice_chars, starts_with_chars, string_of, trim_chars, trim_seq,
};

verus! {

/// The first `n` characters of `s` (`s.chars().take(n)`).
pub open spec fn prefix_chars(s: Seq<char>, n: nat) -> Seq<char> {
    if s.len() <= n {
        s
    } else {
        s.take(n as int)
    }
}

/// The last two `/`-separated parts of a path, or the whole path when it
/// has no more than two.
pub open spec fn path_tail(p: Seq<char>) -> Seq<char> {
    let parts = split_on(p, '/');
    if parts.len() <= 2 {
        p
    } else {
        join_sep(parts.skip(parts.len() - 2), '/')
    }
}

/// The path tails of the first `n` files.
pub open spec fn file_tails(files: Seq<CommitStatFile>, n: int) -> Seq<Seq<char>>
    decreases n,
{
    if n <= 0 {
        Seq::empty()
    } else {
        file_tails(files, n - 1).push(path_tail(files[n - 1].path@))
    }
}

/// ` files=[a,b]` for a commit with per-file numbers (at most five files
/// named); nothing otherwise.
pub open spec fn files_part(c: LocalCommit) -> Seq<char> {
    match c.stat {
        Some(st) => if st.files.len() > 0 {
            let n = if st.files.len() <= 5 {
                st.files.len() as int
            } else {
                5
            };
            " files=["@ + join_sep(file_tails(st.files@, n), ',') + "]"@
        } else {
            Seq::empty()
        },
        None => Seq::empty(),
    }
}

/// The prompt line of candidate `i` (numbered from 1).
pub open spec fn candidate_line(i: int, t: TaskInput) -> Seq<char> {
    "["@ + decimal_seq((i + 1) as nat) + "] #"@ + t.id@ + " "@ + prefix_chars(t.name@, 80) + "\n"@
}

/// The prompt lines of the first `n` candidates.
pub open spec fn candidate_lines(cs: Seq<TaskInput>, n: int) -> Seq<char>
    decreases n,
{
    if n <= 0 {
        Seq::empty()
    } else {
        candidate_lines(cs, n - 1) + candidate_line(n - 1, cs[n - 1])
    }
}

/// The prompt line of one commit.
pub open spec fn commit_line(c: LocalCommit) -> Seq<char> {
    "- sha="@ + c.short_sha@ + " title=\""@ + prefix_chars(c.title@, 120) + "\""@ + files_part(c) + "\n"@
}

/// The prompt lines of the first `n` commits.
pub open spec fn commit_lines(cs: Seq<LocalCommit>, n: int) -> Seq<char>
    decreases n,
{
    if n <= 0 {
        Seq::empty()
    } else {
        commit_lines(cs, n - 1) + commit_line(cs[n - 1])
    }
}

/// Text before the candidates.
pub open spec fn prompt_head() -> Seq<char> {
    "候选任务（taskIndex 0 表示「不属于任何候选任务」）：\n"@
}

/// Text between the candidates and the commits.
pub open spec fn prompt_middle() -> Seq<char> {
    "\n提交列表：\n"@
}

/// Text after the commits: the answer format.
pub open spec fn prompt_tail() -> Seq<char> {
    "\n请对每条提交返回一项 JSON：\n  - sha: 上面 sha 原文\n  - taskIndex: 1-based 候选序号（0 表示不属于任何候选任务）\n  - confidence: 0.0~1.0 两位小数\n  - reason: 一句话中文理由（<=25 字）\n示例：[{\"sha\":\"abc123\",\"taskIndex\":2,\"confidence\":0.78,\"reason\":\"修改了任务 2 提到的登录页\"}]\n"@
}

/// The whole classification prompt.
pub open spec fn classify_prompt_spec(commits: Seq<LocalCommit>, cands: Seq<TaskInput>) -> Seq<char> {
    prompt_head() + candidate_lines(cands, cands.len() as int) + prompt_middle() + commit_lines(
        commits,
        commits.len() as int,
    ) + prompt_tail()
}

fn prefix_string(s: &str, n: usize) -> (r: String)
    ensures
        r@ == prefix_chars(s@, n as nat),
{
    let v = chars_of(s);
    if v.len() <= n {
        owned(s)
    } else {
        let p = slice_chars(&v, 0, n);
        assert(p@ =~= s@.take(n as int));
        string_of(&p)
    }
}

fn path_tail_exec(p: &str) -> (r: String)
    ensures
        r@ == path_tail(p@),
{
    let parts = split_char(p, '/');
    if parts.len() <= 2 {
        owned(p)
    } else {
        join_from(&parts, parts.len() - 2, '/')
    }
}

fn files_part_exec(c: &LocalCommit) -> (r: String)
    ensures
        r@ == files_part(*c),
{
    match &c.stat {
        Some(st) => {
            if st.files.len() > 0 {
                let n: usize = if st.files.len() <= 5 {
                    st.files.len()
                } else {
                    5
                };
                let mut tails: Vec<String> = Vec::new();
                let mut i: usize = 0;
                while i < n
                    invariant
                        i <= n <= st.files.len(),
                        strs(tails) == file_tails(st.files@, i as int),
                    decreases n - i,
                {
                    let t = path_tail_exec(st.files[i].path.as_str());
                    let ghost before = strs(tails);
                    tails.push(t);
                    assert(strs(tails) =~= before.push(t@));
                    i = i + 1;
                }
                let mut s = String::new();
                push_str(&mut s, " files=[");
                let joined = join_from(&tails, 0, ',');
                assert(strs(tails).skip(0) =~= strs(tails));
                push_str(&mut s, joined.as_str());
                push_str(&mut s, "]");
                s
            } else {
                String::new()
            }
        },
        None => String::new(),
    }
}

/// The prompt that asks the model to place each commit under one of the
/// candidate tasks: the numbered candidates (names cut to 80 characters),
/// then one line per commit with its short sha, its title (cut to 120
/// characters) and the last two path parts of up to five changed files,
/// then the answer format.
pub fn classify_prompt(commits: &Vec<LocalCommit>, candidates: &Vec<TaskInput>) -> (r: String)
    ensures
        r@ == classify_prompt_spec(commits@, candidates@),
{
    let mut s = String::new();
    push_str(&mut s, "候选任务（taskIndex 0 表示「不属于任何候选任务」）：\n");
    let mut i: usize = 0;
    while i < candidates.len()
        invariant
            i <= candidates.len(),
            s@ == prompt_head() + candidate_lines(candidates@, i as int),
        decreases candidates.len() - i,
    {
        let t = &candidates[i];
        push_str(&mut s, "[");
        let d = decimal_string((i + 1) as u64);
        push_str(&mut s, d.as_str());
        push_str(&mut s, "] #");
        push_str(&mut s, t.id.as_str());
        push_str(&mut s, " ");
        let name = prefix_string(t.name.as_str(), 80);
        push_str(&mut s, name.as_str());
        push_str(&mut s, "\n");
        assert(s@ =~= prompt_head() + candidate_lines(candidates@, i + 1));
        i = i + 1;
    }
    push_str(&mut s, "\n提交列表：\n");
    let mut j: usize = 0;
    while j < commits.len()
        invariant
            j <= commits.len(),
            s@ == prompt_head() + candidate_lines(candidates@, candidates.len() as int) + prompt_middle()
                + commit_lines(commits@, j as int),
        decreases commits.len() - j,
    {
        let c = &commits[j];
        push_str(&mut s, "- sha=");
        push_str(&mut s, c.short_sha.as_str());
        push_str(&mut s, " title=\"");
        let title = prefix_string(c.title.as_str(), 120);
        push_str(&mut s, title.as_str());
        push_str(&mut s, "\"");
        let files = files_part_exec(c);
        push_str(&mut s, files.as_str());
        push_str(&mut s, "\n");
        assert(s@ =~= prompt_head() + candidate_lines(candidates@, candidates.len() as int) + prompt_middle()
            + commit_lines(commits@, j + 1));
        j = j + 1;
    }
    push_str(
        &mut s,
        "\n请对每条提交返回一项 JSON：\n  - sha: 上面 sha 原文\n  - taskIndex: 1-based 候选序号（0 表示不属于任何候选任务）\n  - confidence: 0.0~1.0 两位小数\n  - reason: 一句话中文理由（<=25 字）\n示例：[{\"sha\":\"abc123\",\"taskIndex\":2,\"confidence\":0.78,\"reason\":\"修改了任务 2 提到的登录页\"}]\n",
    );
    s
}

/// The last position at or before `i` where `pat` occurs.
pub open spec fn last_occurrence(s: Seq<char>, pat: Seq<char>, i: int) -> Option<int>
    decreases i + 1,
{
    if i < 0 {
        None
    } else if occurs_at(s, pat, i) {
        Some(i)
    } else {
        last_occurrence(s, pat, i - 1)
    }
}

/// The reply with a Markdown code fence taken off: when it starts with
/// three backticks, what follows the first line, cut at the last three
/// backticks, trimmed.
pub open spec fn unfenced(t: Seq<char>) -> Seq<char> {
    if seq_starts_with(t, "```"@) {
        let after = match index_of(t, '\n', 0) {
            Some(i) => t.skip(i + 1),
            None => t,
        };
        let before = match last_occurrence(after, "```"@, after.len() as int) {
            Some(i) => after.take(i),
            None => after,
        };
        trim_seq(before)
    } else {
        t
    }
}

/// The JSON array in a reply: from the first `[` to the last `]` of the
/// trimmed, unfenced reply, when the `]` comes after the `[`.
pub open spec fn json_array_spec(text: Seq<char>) -> Option<Seq<char>> {
    let st = unfenced(trim_seq(text));
    match (index_of(st, '[', 0), last_occurrence(st, seq![']'], st.len() as int)) {
        (Some(a), Some(b)) => if b > a {
            Some(st.subrange(a, b + 1))
        } else {
            None
        },
        _ => None,
    }
}

fn last_occurrence_exec(s: &Vec<char>, pat: &Vec<char>) -> (r: Option<usize>)
    ensures
        match r {
            Some(i) => last_occurrence(s@, pat@, s.len() as int) == Some(i as int) && i <= s.len()
                && occurs_at(s@, pat@, i as int),
            None => last_occurrence(s@, pat@, s.len() as int).is_none(),
        },
{
    let mut i: usize = s.len();
    loop
        invariant
            i <= s.len(),
            last_occurrence(s@, pat@, s.len() as int) == last_occurrence(s@, pat@, i as int),
        decreases i,
    {
        if matches_at(s, pat, i) {
            return Some(i);
        }
        if i == 0 {
            return None;
        }
        i = i - 1;
    }
}

/// The JSON array text in a model reply: the reply trimmed, a surrounding
/// Markdown code fence dropped, then the text from the first `[` to the
/// last `]`; none when there is no such pair in that order.
pub fn json_array_text(text: &str) -> (r: Option<String>)
    ensures
        match r {
            Some(a) => json_array_spec(text@) == Some(a@),
            None => json_array_spec(text@).is_none(),
        },
{
    let t = trim_chars(&chars_of(text));
    let fence = chars_of("```");
    let st: Vec<char> = if starts_with_chars(&t, &fence) {
        let after: Vec<char> = match index_of_exec(&t, '\n', 0) {
            Some(i) => {
                let a = slice_chars(&t, i + 1, t.len());
                assert(a@ =~= t@.skip(i + 1));
                a
            },
            None => t,
        };
        let before: Vec<char> = match last_occurrence_exec(&after, &fence) {
            Some(i) => {
                assert(i <= after.len());
                let b = slice_chars(&after, 0, i);
                assert(b@ =~= after@.take(i as int));
                b
            },
            None => after,
        };
        trim_chars(&before)
    } else {
        t
    };
    let close = chars_of("]");
    proof {
        reveal_strlit("]");
        assert(close@ =~= seq![']']);
    }
    match (index_of_exec(&st, '[', 0), last_occurrence_exec(&st, &close)) {
        (Some(a), Some(b)) => {
            if b > a {
                let piece = slice_chars(&st, a, b + 1);
                Some(string_of(&piece))
            } else {
                None
            }
        },
        _ => None,
    }
}

/// The id of the candidate a 1-based `taskIndex` names; none for 0 or an
/// index past the last candidate.
pub fn candidate_for_index(task_index: u64, candidates: &Vec<TaskInput>) -> (r: Option<String>)
    ensures
        match r {
            Some(id) => 1 <= task_index <= candidates.len() && id@ == candidates@[task_index - 1].id@,
            None => task_index == 0 || task_index > candidates.len(),
        },
{
    if task_index == 0 || task_index > candidates.len() as u64 {
        None
    } else {
        let k = (task_index - 1) as usize;
        Some(owned(candidates[k].id.as_str()))
    }
}

} // verus!
