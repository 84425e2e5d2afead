//! The daily report as plain text: the headline numbers, the work done per
//! business line (distinct commit titles and the tasks advanced), the
//! suggested hours, the tasks whose status needs updating, and the commits
//! linked to no task. Hours come in already written out.

use vstd::prelude::*;
use crate::commit_link::strs;
use crate::daily_review::{unique_titles, unique_titles_spec, NeedsStatusUpdate};
use crate::git_log::{join_from, join_sep};
use crate::text::{chars_of, decimal_seq, decimal_string, owned, push_str, slice_chars, string_of, trailing_ws_start, trim_end_seq};

verus! {

/// A commit as the report shows it.
#[derive(Debug, Clone)]
pub struct ReportCommit {
    pub title: String,
    pub repo_name: String,
    pub short_sha: String,
}

/// A task advanced under a business line; `waiting` when its status still
/// says it has not started.
#[derive(Debug, Clone)]
pub struct ReportTask {
    pub task_id: String,
    pub task_name: String,
    pub waiting: bool,
}

/// A business line of the report.
#[derive(Debug, Clone)]
pub struct ReportLine {
    pub business_line: String,
    pub commits: Vec<ReportCommit>,
    pub tasks: Vec<ReportTask>,
    /// The suggested hours of the line, written out, when above zero.
    pub hours: Option<String>,
    /// How many advanced tasks belong to the line.
    pub line_task_count: usize,
    /// The line's tasks with suggested hours above zero: id, name, hours.
    pub task_hours: Vec<(String, String, String)>,
}

/// The commits of a business line linked to no task.
#[derive(Debug, Clone)]
pub struct ReportOrphans {
    pub business_line: String,
    pub commits: Vec<ReportCommit>,
    /// The suggested hours, written out, when above zero.
    pub hours: Option<String>,
}

/// The titles of some commits.
pub open spec fn titles_of(cs: Seq<ReportCommit>) -> Seq<Seq<char>> {
    cs.map_values(|c: ReportCommit| c.title@)
}

/// One line per distinct cleaned title: `prefix`, the title, then the
/// repository and short sha of the commit it was first seen on.
pub open spec fn title_lines(cs: Seq<ReportCommit>, us: Seq<(nat, Seq<char>)>, prefix: Seq<char>) -> Seq<Seq<char>> {
    us.map_values(
        |u: (nat, Seq<char>)| prefix + u.1 + "  ("@ + cs[u.0 as int].repo_name@ + " · "@ + cs[u.0 as int].short_sha@ + ")"@,
    )
}

/// The line of an advanced task.
pub open spec fn task_line(t: ReportTask) -> Seq<char> {
    "    - #"@ + t.task_id@ + " "@ + t.task_name@ + if t.waiting {
        "（未开始）"@
    } else {
        Seq::empty()
    }
}

/// The block of a business line under the work done.
pub open spec fn line_block(g: ReportLine) -> Seq<Seq<char>> {
    if g.commits.len() == 0 {
        Seq::empty()
    } else {
        let us = unique_titles_spec(titles_of(g.commits@));
        let n = g.commits.len() as nat;
        let label = if n > us.len() {
            decimal_seq(us.len()) + " 个主题 / 共 "@ + decimal_seq(n) + " 次提交"@
        } else {
            decimal_seq(n) + " 个 commit"@
        };
        let tasks = if g.tasks.len() > 0 {
            seq!["  推进任务："@] + g.tasks@.map_values(|t: ReportTask| task_line(t))
        } else {
            Seq::empty()
        };
        seq![g.business_line@ + "（"@ + label + "）"@] + title_lines(g.commits@, us, "  · "@) + tasks + seq![
            Seq::empty(),
        ]
    }
}

/// The blocks of the first `n` business lines.
pub open spec fn line_blocks(ls: Seq<ReportLine>, n: int) -> Seq<Seq<char>>
    decreases n,
{
    if n <= 0 {
        Seq::empty()
    } else {
        line_blocks(ls, n - 1) + line_block(ls[n - 1])
    }
}

/// The hours lines of a business line with hours.
pub open spec fn hours_block(g: ReportLine) -> Seq<Seq<char>> {
    match g.hours {
        Some(h) => seq![
            "  · "@ + g.business_line@ + "："@ + h@ + "h（"@ + decimal_seq(g.task_hours.len() as nat) + "/"@
                + decimal_seq(g.line_task_count as nat) + " 个主要任务）"@,
        ] + g.task_hours@.map_values(
            |t: (String, String, String)| "    - #"@ + t.0@ + " "@ + t.1@ + "："@ + t.2@ + "h"@,
        ),
        None => Seq::empty(),
    }
}

/// The hours lines of the first `n` business lines.
pub open spec fn hours_blocks(ls: Seq<ReportLine>, n: int) -> Seq<Seq<char>>
    decreases n,
{
    if n <= 0 {
        Seq::empty()
    } else {
        hours_blocks(ls, n - 1) + hours_block(ls[n - 1])
    }
}

/// The suggested-hours section: shown when hours are estimated and some
/// line has hours.
pub open spec fn hours_section(ls: Seq<ReportLine>, show_hours: bool) -> Seq<Seq<char>> {
    let body = hours_blocks(ls, ls.len() as int);
    if show_hours && body.len() > 0 {
        seq!["【建议工时分配】（最小粒度 0.5h，仅供禅道填报参考）"@] + body + seq![
            "  注：commit 数少的次要任务未分配工时，主要任务工时合计为日总工时。"@,
            Seq::empty(),
        ]
    } else {
        Seq::empty()
    }
}

/// The section of tasks whose status needs updating.
pub open spec fn status_section(ns: Seq<NeedsStatusUpdate>) -> Seq<Seq<char>> {
    if ns.len() == 0 {
        Seq::empty()
    } else {
        seq!["【需要在禅道更新状态的任务】"@] + ns.map_values(
            |t: NeedsStatusUpdate| "  · #"@ + t.task_id@ + " "@ + t.task_name@ + "："@ + t.reason@,
        ) + seq![Seq::empty()]
    }
}

/// The lines of one orphan bucket (none when it has no commits).
pub open spec fn orphan_block(g: ReportOrphans) -> Seq<Seq<char>> {
    if g.commits.len() == 0 {
        Seq::empty()
    } else {
        let us = unique_titles_spec(titles_of(g.commits@));
        let label = match g.hours {
            Some(h) => "，建议 ~"@ + h@ + "h"@,
            None => Seq::empty(),
        };
        seq!["  · "@ + g.business_line@ + "（"@ + decimal_seq(us.len()) + " 个主题"@ + label + "）"@]
            + title_lines(g.commits@, us, "    - "@)
    }
}

/// The lines of the first `n` orphan buckets.
pub open spec fn orphan_blocks(os: Seq<ReportOrphans>, n: int) -> Seq<Seq<char>>
    decreases n,
{
    if n <= 0 {
        Seq::empty()
    } else {
        orphan_blocks(os, n - 1) + orphan_block(os[n - 1])
    }
}

/// The section of commits linked to no task.
pub open spec fn orphan_section(os: Seq<ReportOrphans>) -> Seq<Seq<char>> {
    let body = orphan_blocks(os, os.len() as int);
    if body.len() > 0 {
        seq!["【未关联禅道任务的提交】（建议补任务号或在日报中说明）"@] + body + seq![Seq::empty()]
    } else {
        Seq::empty()
    }
}

/// The report's text: with no commit, the title and a note (not trimmed);
/// otherwise all sections, lines joined by line breaks, trailing white
/// space removed.
pub open spec fn report_spec(
    date: Seq<char>,
    total_commits: nat,
    line_count: nat,
    tasks_advanced: nat,
    ls: Seq<ReportLine>,
    ns: Seq<NeedsStatusUpdate>,
    os: Seq<ReportOrphans>,
    show_hours: bool,
) -> Seq<char> {
    let head = seq!["工作日报 "@ + date, Seq::empty()];
    if total_commits == 0 {
        join_sep(head + seq!["今天没有本地提交。如有未推送或外部协作，请手动补充。"@], '\n')
    } else {
        trim_end_seq(
            join_sep(
                head + seq![
                    "今天共提交 "@ + decimal_seq(total_commits) + " 个 commit，覆盖 "@ + decimal_seq(line_count)
                        + " 个业务线，推进 "@ + decimal_seq(tasks_advanced) + " 个任务。"@,
                    Seq::empty(),
                    "【完成内容】"@,
                    Seq::empty(),
                ] + line_blocks(ls, ls.len() as int) + hours_section(ls, show_hours) + status_section(ns)
                    + orphan_section(os),
                '\n',
            ),
        )
    }
}

fn push_line(out: &mut Vec<String>, s: String)
    ensures
        strs(*final(out)) == strs(*old(out)).push(s@),
{
    let ghost before = strs(*out);
    out.push(s);
    assert(strs(*out) =~= before.push(s@));
}

fn dec(n: usize) -> (r: String)
    ensures
        r@ == decimal_seq(n as nat),
{
    decimal_string(n as u64)
}

fn titles_vec(cs: &Vec<ReportCommit>) -> (r: Vec<String>)
    ensures
        strs(r) == titles_of(cs@),
{
    let mut out: Vec<String> = Vec::new();
    let mut i: usize = 0;
    while i < cs.len()
        invariant
            i <= cs.len(),
            out@.len() == i,
            forall|k: int| 0 <= k < i ==> #[trigger] out@[k]@ == cs@[k].title@,
        decreases cs.len() - i,
    {
        out.push(cs[i].title.clone());
        i = i + 1;
    }
    assert(strs(out) =~= titles_of(cs@));
    out
}

proof fn lemma_unique_indices(titles: Seq<Seq<char>>)
    ensures
        forall|k: int| 0 <= k < unique_titles_spec(titles).len() ==> #[trigger] unique_titles_spec(titles)[k].0 < titles.len(),
    decreases titles.len(),
{
    if titles.len() > 0 {
        let r = unique_titles_spec(titles.drop_last());
        lemma_unique_indices(titles.drop_last());
        let u = unique_titles_spec(titles);
        assert forall|k: int| 0 <= k < u.len() implies #[trigger] u[k].0 < titles.len() by {
            if k < r.len() {
                assert(u[k] == r[k]);
            }
        }
    }
}

fn push_title_lines(out: &mut Vec<String>, cs: &Vec<ReportCommit>, prefix: &str) -> (count: usize)
    ensures
        strs(*final(out)) == strs(*old(out)) + title_lines(cs@, unique_titles_spec(titles_of(cs@)), prefix@),
        count == unique_titles_spec(titles_of(cs@)).len(),
{
    let titles = titles_vec(cs);
    let us = unique_titles(&titles);
    let ghost uv = us@.map_values(|p: (usize, String)| (p.0 as nat, p.1@));
    assert(uv == unique_titles_spec(titles_of(cs@)));
    proof {
        lemma_unique_indices(titles_of(cs@));
        assert forall|k: int| 0 <= k < us.len() implies (#[trigger] us@[k]).0 < cs.len() by {
            assert(uv[k].0 == us@[k].0 as nat);
        }
    }
    let ghost base = strs(*out);
    let mut i: usize = 0;
    while i < us.len()
        invariant
            i <= us.len(),
            uv == us@.map_values(|p: (usize, String)| (p.0 as nat, p.1@)),
            uv == unique_titles_spec(titles_of(cs@)),
            forall|k: int| 0 <= k < us.len() ==> (#[trigger] us@[k]).0 < cs.len(),
            strs(*out) == base + title_lines(cs@, uv.take(i as int), prefix@),
        decreases us.len() - i,
    {
        let k = us[i].0;
        let mut s = owned(prefix);
        push_str(&mut s, us[i].1.as_str());
        push_str(&mut s, "  (");
        push_str(&mut s, cs[k].repo_name.as_str());
        push_str(&mut s, " · ");
        push_str(&mut s, cs[k].short_sha.as_str());
        push_str(&mut s, ")");
        push_line(out, s);
        assert(title_lines(cs@, uv.take(i + 1), prefix@) =~= title_lines(cs@, uv.take(i as int), prefix@).push(s@));
        i = i + 1;
    }
    assert(uv.take(i as int) =~= uv);
    us.len()
}

fn push_line_block(out: &mut Vec<String>, g: &ReportLine)
    ensures
        strs(*final(out)) == strs(*old(out)) + line_block(*g),
{
    if g.commits.len() == 0 {
        assert(strs(*out) + line_block(*g) =~= strs(*out));
        return;
    }
    let ghost base = strs(*out);
    let ghost us = unique_titles_spec(titles_of(g.commits@));
    let ghost nn = g.commits.len() as nat;
    let ghost label = if nn > us.len() {
        decimal_seq(us.len()) + " 个主题 / 共 "@ + decimal_seq(nn) + " 次提交"@
    } else {
        decimal_seq(nn) + " 个 commit"@
    };
    let ghost tasks_part = if g.tasks.len() > 0 {
        seq!["  推进任务："@] + g.tasks@.map_values(|t: ReportTask| task_line(t))
    } else {
        Seq::<Seq<char>>::empty()
    };
    let mut head = owned(g.business_line.as_str());
    push_str(&mut head, "（");
    let n = g.commits.len();
    let mut body: Vec<String> = Vec::new();
    let u = push_title_lines(&mut body, &g.commits, "  · ");
    assert(strs(body) =~= title_lines(g.commits@, us, "  · "@));
    if n > u {
        push_str(&mut head, dec(u).as_str());
        push_str(&mut head, " 个主题 / 共 ");
        push_str(&mut head, dec(n).as_str());
        push_str(&mut head, " 次提交");
    } else {
        push_str(&mut head, dec(n).as_str());
        push_str(&mut head, " 个 commit");
    }
    push_str(&mut head, "）");
    assert(head@ =~= g.business_line@ + "（"@ + label + "）"@);
    push_line(out, head);
    let mut i: usize = 0;
    while i < body.len()
        invariant
            i <= body.len(),
            strs(*out) == base.push(head@) + strs(body).take(i as int),
        decreases body.len() - i,
    {
        push_line(out, body[i].clone());
        assert(strs(body).take(i + 1) =~= strs(body).take(i as int).push(body@[i as int]@));
        i = i + 1;
    }
    assert(strs(body).take(i as int) =~= strs(body));
    let ghost mid = strs(*out);
    assert(mid =~= base + seq![head@] + strs(body));
    if g.tasks.len() > 0 {
        push_line(out, owned("  推进任务："));
        let mut j: usize = 0;
        while j < g.tasks.len()
            invariant
                j <= g.tasks.len(),
                strs(*out) == mid.push("  推进任务："@) + g.tasks@.take(j as int).map_values(|t: ReportTask| task_line(t)),
            decreases g.tasks.len() - j,
        {
            let t = &g.tasks[j];
            let mut s = owned("    - #");
            push_str(&mut s, t.task_id.as_str());
            push_str(&mut s, " ");
            push_str(&mut s, t.task_name.as_str());
            if t.waiting {
                push_str(&mut s, "（未开始）");
            } else {
                assert(s@ + Seq::<char>::empty() =~= s@);
            }
            push_line(out, s);
            assert(g.tasks@.take(j + 1).map_values(|t: ReportTask| task_line(t)) =~= g.tasks@.take(j as int).map_values(
                |t: ReportTask| task_line(t),
            ).push(task_line(g.tasks@[j as int])));
            j = j + 1;
        }
        assert(g.tasks@.take(j as int) =~= g.tasks@);
        assert(strs(*out) =~= mid + tasks_part);
    } else {
        assert(strs(*out) =~= mid + tasks_part);
    }
    push_line(out, String::new());
    assert(line_block(*g) == seq![g.business_line@ + "（"@ + label + "）"@] + title_lines(g.commits@, us, "  · "@) + tasks_part + seq![Seq::<char>::empty()]);
    assert(strs(*out) =~= base + line_block(*g));
}

fn push_hours_block(out: &mut Vec<String>, g: &ReportLine)
    ensures
        strs(*final(out)) == strs(*old(out)) + hours_block(*g),
{
    match &g.hours {
        None => {
            assert(strs(*out) + hours_block(*g) =~= strs(*out));
        },
        Some(h) => {
            let ghost base = strs(*out);
            let mut s = owned("  · ");
            push_str(&mut s, g.business_line.as_str());
            push_str(&mut s, "：");
            push_str(&mut s, h.as_str());
            push_str(&mut s, "h（");
            push_str(&mut s, dec(g.task_hours.len()).as_str());
            push_str(&mut s, "/");
            push_str(&mut s, dec(g.line_task_count).as_str());
            push_str(&mut s, " 个主要任务）");
            push_line(out, s);
            let mut j: usize = 0;
            while j < g.task_hours.len()
                invariant
                    j <= g.task_hours.len(),
                    strs(*out) == base.push(s@) + g.task_hours@.take(j as int).map_values(
                        |t: (String, String, String)| "    - #"@ + t.0@ + " "@ + t.1@ + "："@ + t.2@ + "h"@,
                    ),
                decreases g.task_hours.len() - j,
            {
                let t = &g.task_hours[j];
                let mut l = owned("    - #");
                push_str(&mut l, t.0.as_str());
                push_str(&mut l, " ");
                push_str(&mut l, t.1.as_str());
                push_str(&mut l, "：");
                push_str(&mut l, t.2.as_str());
                push_str(&mut l, "h");
                push_line(out, l);
                assert(g.task_hours@.take(j + 1).map_values(
                    |t: (String, String, String)| "    - #"@ + t.0@ + " "@ + t.1@ + "："@ + t.2@ + "h"@,
                ) =~= g.task_hours@.take(j as int).map_values(
                    |t: (String, String, String)| "    - #"@ + t.0@ + " "@ + t.1@ + "："@ + t.2@ + "h"@,
                ).push(l@));
                j = j + 1;
            }
            assert(g.task_hours@.take(j as int) =~= g.task_hours@);
            assert(strs(*out) =~= base + hours_block(*g));
        },
    }
}

fn push_orphan_block(out: &mut Vec<String>, g: &ReportOrphans)
    ensures
        strs(*final(out)) == strs(*old(out)) + orphan_block(*g),
{
    if g.commits.len() == 0 {
        assert(strs(*out) + orphan_block(*g) =~= strs(*out));
        return;
    }
    let ghost base = strs(*out);
    let ghost us = unique_titles_spec(titles_of(g.commits@));
    let mut body: Vec<String> = Vec::new();
    let u = push_title_lines(&mut body, &g.commits, "    - ");
    assert(strs(body) =~= title_lines(g.commits@, us, "    - "@));
    let ghost label = match &g.hours {
        Some(h) => "，建议 ~"@ + h@ + "h"@,
        None => Seq::<char>::empty(),
    };
    let mut head = owned("  · ");
    push_str(&mut head, g.business_line.as_str());
    push_str(&mut head, "（");
    push_str(&mut head, dec(u).as_str());
    push_str(&mut head, " 个主题");
    match &g.hours {
        Some(h) => {
            push_str(&mut head, "，建议 ~");
            push_str(&mut head, h.as_str());
            push_str(&mut head, "h");
        },
        None => {
            assert(head@ + Seq::<char>::empty() =~= head@);
        },
    }
    push_str(&mut head, "）");
    assert(head@ =~= "  · "@ + g.business_line@ + "（"@ + decimal_seq(us.len()) + " 个主题"@ + label + "）"@);
    push_line(out, head);
    let mut i: usize = 0;
    while i < body.len()
        invariant
            i <= body.len(),
            strs(*out) == base.push(head@) + strs(body).take(i as int),
        decreases body.len() - i,
    {
        push_line(out, body[i].clone());
        assert(strs(body).take(i + 1) =~= strs(body).take(i as int).push(body@[i as int]@));
        i = i + 1;
    }
    assert(strs(body).take(i as int) =~= strs(body));
    assert(strs(*out) =~= base + orphan_block(*g));
}

fn join_lines(lines: &Vec<String>) -> (r: String)
    ensures
        r@ == join_sep(strs(*lines), '\n'),
{
    let r = join_from(lines, 0, '\n');
    assert(strs(*lines).skip(0) =~= strs(*lines));
    r
}

fn push_all(out: &mut Vec<String>, more: &Vec<String>)
    ensures
        strs(*final(out)) == strs(*old(out)) + strs(*more),
{
    let ghost base = strs(*out);
    let mut k: usize = 0;
    while k < more.len()
        invariant
            k <= more.len(),
            strs(*out) == base + strs(*more).take(k as int),
        decreases more.len() - k,
    {
        push_line(out, more[k].clone());
        assert(strs(*more).take(k + 1) =~= strs(*more).take(k as int).push(more@[k as int]@));
        k = k + 1;
    }
    assert(strs(*more).take(k as int) =~= strs(*more));
}

fn push_line_blocks(out: &mut Vec<String>, lines: &Vec<ReportLine>)
    ensures
        strs(*final(out)) == strs(*old(out)) + line_blocks(lines@, lines.len() as int),
{
    let ghost top = strs(*out);
    let mut i: usize = 0;
    assert(top + line_blocks(lines@, 0) =~= top);
    while i < lines.len()
        invariant
            i <= lines.len(),
            strs(*out) == top + line_blocks(lines@, i as int),
        decreases lines.len() - i,
    {
        push_line_block(out, &lines[i]);
        assert(top + line_blocks(lines@, i + 1) =~= top + line_blocks(lines@, i as int) + line_block(lines@[i as int]));
        i = i + 1;
    }
}

fn push_hours_section(out: &mut Vec<String>, lines: &Vec<ReportLine>, show_hours: bool)
    ensures
        strs(*final(out)) == strs(*old(out)) + hours_section(lines@, show_hours),
{
    let ghost base = strs(*out);
    let mut hours: Vec<String> = Vec::new();
    let mut j: usize = 0;
    assert(strs(hours) =~= hours_blocks(lines@, 0));
    while j < lines.len()
        invariant
            j <= lines.len(),
            strs(hours) == hours_blocks(lines@, j as int),
        decreases lines.len() - j,
    {
        push_hours_block(&mut hours, &lines[j]);
        j = j + 1;
    }
    if show_hours && hours.len() > 0 {
        push_line(out, owned("【建议工时分配】（最小粒度 0.5h，仅供禅道填报参考）"));
        push_all(out, &hours);
        push_line(out, owned("  注：commit 数少的次要任务未分配工时，主要任务工时合计为日总工时。"));
        push_line(out, String::new());
        assert(strs(*out) =~= base + hours_section(lines@, show_hours));
    } else {
        assert(strs(*out) =~= base + hours_section(lines@, show_hours));
    }
}

fn push_status_section(out: &mut Vec<String>, needs_update: &Vec<NeedsStatusUpdate>)
    ensures
        strs(*final(out)) == strs(*old(out)) + status_section(needs_update@),
{
    let ghost base0 = strs(*out);
    if needs_update.len() == 0 {
        assert(strs(*out) =~= base0 + status_section(needs_update@));
        return;
    }
    push_line(out, owned("【需要在禅道更新状态的任务】"));
    let ghost base = strs(*out);
    let mut k: usize = 0;
    while k < needs_update.len()
        invariant
            k <= needs_update.len(),
            strs(*out) == base + needs_update@.take(k as int).map_values(
                |t: NeedsStatusUpdate| "  · #"@ + t.task_id@ + " "@ + t.task_name@ + "："@ + t.reason@,
            ),
        decreases needs_update.len() - k,
    {
        let t = &needs_update[k];
        let mut l = owned("  · #");
        push_str(&mut l, t.task_id.as_str());
        push_str(&mut l, " ");
        push_str(&mut l, t.task_name.as_str());
        push_str(&mut l, "：");
        push_str(&mut l, t.reason.as_str());
        push_line(out, l);
        assert(needs_update@.take(k + 1).map_values(
            |t: NeedsStatusUpdate| "  · #"@ + t.task_id@ + " "@ + t.task_name@ + "："@ + t.reason@,
        ) =~= needs_update@.take(k as int).map_values(
            |t: NeedsStatusUpdate| "  · #"@ + t.task_id@ + " "@ + t.task_name@ + "："@ + t.reason@,
        ).push(l@));
        k = k + 1;
    }
    assert(needs_update@.take(k as int) =~= needs_update@);
    push_line(out, String::new());
    assert(strs(*out) =~= base0 + status_section(needs_update@));
}

fn push_orphan_section(out: &mut Vec<String>, orphans: &Vec<ReportOrphans>)
    ensures
        strs(*final(out)) == strs(*old(out)) + orphan_section(orphans@),
{
    let ghost base = strs(*out);
    let mut obody: Vec<String> = Vec::new();
    let mut m: usize = 0;
    assert(strs(obody) =~= orphan_blocks(orphans@, 0));
    while m < orphans.len()
        invariant
            m <= orphans.len(),
            strs(obody) == orphan_blocks(orphans@, m as int),
        decreases orphans.len() - m,
    {
        push_orphan_block(&mut obody, &orphans[m]);
        m = m + 1;
    }
    if obody.len() > 0 {
        push_line(out, owned("【未关联禅道任务的提交】（建议补任务号或在日报中说明）"));
        push_all(out, &obody);
        push_line(out, String::new());
    }
    assert(strs(*out) =~= base + orphan_section(orphans@));
}

/// The daily report as plain text. `show_hours` says whether hours were
/// estimated (a positive working day); `lines`, `needs_update` and
/// `orphans` come in report order, with hours already written out.
pub fn render_plain_text(
    date: &str,
    total_commits: usize,
    line_count: usize,
    tasks_advanced: usize,
    lines: &Vec<ReportLine>,
    needs_update: &Vec<NeedsStatusUpdate>,
    orphans: &Vec<ReportOrphans>,
    show_hours: bool,
) -> (r: String)
    ensures
        r@ == report_spec(
            date@,
            total_commits as nat,
            line_count as nat,
            tasks_advanced as nat,
            lines@,
            needs_update@,
            orphans@,
            show_hours,
        ),
{
    let mut out: Vec<String> = Vec::new();
    let mut title = owned("工作日报 ");
    push_str(&mut title, date);
    push_line(&mut out, title);
    push_line(&mut out, String::new());
    let ghost head = seq!["工作日报 "@ + date@, Seq::<char>::empty()];
    assert(strs(out) =~= head);
    if total_commits == 0 {
        let note = owned("今天没有本地提交。如有未推送或外部协作，请手动补充。");
        push_line(&mut out, note);
        assert(strs(out) =~= head + seq!["今天没有本地提交。如有未推送或外部协作，请手动补充。"@]);
        return join_lines(&out);
    }
    let mut s = owned("今天共提交 ");
    push_str(&mut s, dec(total_commits).as_str());
    push_str(&mut s, " 个 commit，覆盖 ");
    push_str(&mut s, dec(line_count).as_str());
    push_str(&mut s, " 个业务线，推进 ");
    push_str(&mut s, dec(tasks_advanced).as_str());
    push_str(&mut s, " 个任务。");
    let ghost sv = s@;
    push_line(&mut out, s);
    push_line(&mut out, String::new());
    push_line(&mut out, owned("【完成内容】"));
    push_line(&mut out, String::new());
    let ghost top = strs(out);
    assert(top =~= head + seq![sv, Seq::empty(), "【完成内容】"@, Seq::empty()]);
    push_line_blocks(&mut out, lines);
    push_hours_section(&mut out, lines, show_hours);
    push_status_section(&mut out, needs_update);
    push_orphan_section(&mut out, orphans);
    assert(strs(out) =~= top + line_blocks(lines@, lines.len() as int) + hours_section(lines@, show_hours)
        + status_section(needs_update@) + orphan_section(orphans@));
    let joined = join_lines(&out);
    let v = chars_of(joined.as_str());
    let e = trailing_ws_start(&v, 0, v.len());
    assert(v@.subrange(0, v.len() as int) =~= v@);
    string_of(&slice_chars(&v, 0, e))
}

} // verus!
