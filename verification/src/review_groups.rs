//! Grouping the day's commits by business line for the daily report: each
//! line lists its commits once (one commit = one sha in one repository) and
//! the tasks they advanced, once each, in the order first met; task commits
//! come first, then the commits linked to no task.

use vstd::prelude::*;
use crate::commit_link::strs;

verus! {

/// A commit as the grouping reads it.
#[derive(Debug, Clone)]
pub struct CommitKey {
    pub business_line: String,
    pub sha: String,
    pub repo_path: String,
}

/// One business line of the report. A commit is named by its position:
/// `(k, j)` is commit `j` of task list `k`, or, for `k` at or past the
/// number of task lists, commit `j` of orphan list `k - tasks`.
#[derive(Debug, Clone)]
pub struct LineGroup {
    pub business_line: String,
    pub commits: Vec<(usize, usize)>,
    pub task_ids: Vec<String>,
}

/// A commit met while grouping: its line, its position, its sha and
/// repository, and the task it was met under (none for an orphan).
pub type EventV = (Seq<char>, int, int, Seq<char>, Seq<char>, Option<Seq<char>>);

/// A line being grouped: its name, its commits with their sha and
/// repository, and its tasks.
pub type BuildV = (Seq<char>, Seq<(int, int, Seq<char>, Seq<char>)>, Seq<Seq<char>>);

/// The events of the first `n` commits of one list.
pub open spec fn list_events(cs: Seq<CommitKey>, list: int, n: int, task: Option<Seq<char>>, line: Option<Seq<char>>) -> Seq<EventV>
    decreases n,
{
    if n <= 0 {
        Seq::empty()
    } else {
        let c = cs[n - 1];
        let l = match line {
            Some(x) => x,
            None => c.business_line@,
        };
        list_events(cs, list, n - 1, task, line).push((l, list, n - 1, c.sha@, c.repo_path@, task))
    }
}

/// The events of the first `m` task lists: each commit under its own line.
pub open spec fn task_events(tc: Seq<(String, Vec<CommitKey>)>, m: int) -> Seq<EventV>
    decreases m,
{
    if m <= 0 {
        Seq::empty()
    } else {
        task_events(tc, m - 1) + list_events(tc[m - 1].1@, m - 1, tc[m - 1].1.len() as int, Some(tc[m - 1].0@), None)
    }
}

/// The events of the first `m` orphan lists, numbered after `base` task
/// lists: each commit under its list's line.
pub open spec fn orphan_events(orph: Seq<(String, Vec<CommitKey>)>, base: int, m: int) -> Seq<EventV>
    decreases m,
{
    if m <= 0 {
        Seq::empty()
    } else {
        orphan_events(orph, base, m - 1) + list_events(
            orph[m - 1].1@,
            base + m - 1,
            orph[m - 1].1.len() as int,
            None,
            Some(orph[m - 1].0@),
        )
    }
}

/// The first line from `i` on named `line`.
pub open spec fn line_index(st: Seq<BuildV>, line: Seq<char>, i: int) -> Option<int>
    decreases st.len() - i,
{
    if i < 0 || i >= st.len() {
        None
    } else if st[i].0 == line {
        Some(i)
    } else {
        line_index(st, line, i + 1)
    }
}

/// The line already holds a commit with this sha and repository.
pub open spec fn has_commit(cs: Seq<(int, int, Seq<char>, Seq<char>)>, sha: Seq<char>, repo: Seq<char>) -> bool {
    exists|m: int| 0 <= m < cs.len() && cs[m].2 == sha && cs[m].3 == repo
}

/// One commit put under its line: the line is added when new; the commit is
/// added unless the line has it already; its task is added unless listed.
pub open spec fn add_event(st: Seq<BuildV>, e: EventV) -> Seq<BuildV> {
    let st1 = match line_index(st, e.0, 0) {
        Some(_) => st,
        None => st.push((e.0, Seq::empty(), Seq::empty())),
    };
    let k = match line_index(st, e.0, 0) {
        Some(k) => k,
        None => st.len() as int,
    };
    let g = st1[k];
    let cs = if has_commit(g.1, e.3, e.4) {
        g.1
    } else {
        g.1.push((e.1, e.2, e.3, e.4))
    };
    let ts = match e.5 {
        Some(t) => if g.2.contains(t) {
            g.2
        } else {
            g.2.push(t)
        },
        None => g.2,
    };
    st1.update(k, (g.0, cs, ts))
}

/// The lines after all of `es`, one after the other.
pub open spec fn fold_events(es: Seq<EventV>) -> Seq<BuildV>
    decreases es.len(),
{
    if es.len() == 0 {
        Seq::empty()
    } else {
        add_event(fold_events(es.drop_last()), es.last())
    }
}

/// The business lines of the day's commits: task commits first, then the
/// orphans, grouped as `add_event` says.
pub open spec fn line_groups_spec(tc: Seq<(String, Vec<CommitKey>)>, orph: Seq<(String, Vec<CommitKey>)>) -> Seq<(Seq<char>, Seq<(int, int)>, Seq<Seq<char>>)> {
    fold_events(task_events(tc, tc.len() as int) + orphan_events(orph, tc.len() as int, orph.len() as int)).map_values(
        |g: BuildV| (g.0, g.1.map_values(|e: (int, int, Seq<char>, Seq<char>)| (e.0, e.1)), g.2),
    )
}

/// Line groups as plain values.
pub open spec fn line_groups_view(r: Seq<LineGroup>) -> Seq<(Seq<char>, Seq<(int, int)>, Seq<Seq<char>>)> {
    r.map_values(
        |g: LineGroup| (g.business_line@, g.commits@.map_values(|p: (usize, usize)| (p.0 as int, p.1 as int)), strs(g.task_ids)),
    )
}

struct GroupBuild {
    line: String,
    entries: Vec<(usize, usize, String, String)>,
    tasks: Vec<String>,
}

spec fn build_view(st: Seq<GroupBuild>) -> Seq<BuildV> {
    st.map_values(
        |g: GroupBuild| (
            g.line@,
            g.entries@.map_values(|e: (usize, usize, String, String)| (e.0 as int, e.1 as int, e.2@, e.3@)),
            strs(g.tasks),
        ),
    )
}

spec fn entries_view(es: Seq<(usize, usize, String, String)>) -> Seq<(int, int, Seq<char>, Seq<char>)> {
    es.map_values(|e: (usize, usize, String, String)| (e.0 as int, e.1 as int, e.2@, e.3@))
}

fn find_line(st: &Vec<GroupBuild>, line: &String) -> (r: Option<usize>)
    ensures
        match r {
            Some(k) => line_index(build_view(st@), line@, 0) == Some(k as int) && k < st.len(),
            None => line_index(build_view(st@), line@, 0).is_none(),
        },
{
    let ghost v = build_view(st@);
    let mut i: usize = 0;
    while i < st.len()
        invariant
            i <= st.len(),
            v == build_view(st@),
            line_index(v, line@, 0) == line_index(v, line@, i as int),
        decreases st.len() - i,
    {
        assert(v[i as int].0 == st@[i as int].line@);
        if st[i].line == *line {
            return Some(i);
        }
        i = i + 1;
    }
    None
}

fn holds_commit(es: &Vec<(usize, usize, String, String)>, sha: &String, repo: &String) -> (r: bool)
    ensures
        r == has_commit(entries_view(es@), sha@, repo@),
{
    let ghost v = entries_view(es@);
    let mut i: usize = 0;
    while i < es.len()
        invariant
            i <= es.len(),
            v == entries_view(es@),
            forall|m: int| 0 <= m < i ==> !(v[m].2 == sha@ && v[m].3 == repo@),
        decreases es.len() - i,
    {
        assert(v[i as int] == (es@[i as int].0 as int, es@[i as int].1 as int, es@[i as int].2@, es@[i as int].3@));
        if es[i].2 == *sha && es[i].3 == *repo {
            return true;
        }
        i = i + 1;
    }
    false
}

fn holds_task(ts: &Vec<String>, t: &String) -> (r: bool)
    ensures
        r == strs(*ts).contains(t@),
{
    crate::commit_link::contains_string(ts, t)
}

fn add_event_exec(st: &mut Vec<GroupBuild>, line: &String, list: usize, idx: usize, sha: &String, repo: &String, task: Option<&String>)
    ensures
        build_view(final(st)@) == add_event(
            build_view(old(st)@),
            (line@, list as int, idx as int, sha@, repo@, match task {
                Some(t) => Some(t@),
                None => None,
            }),
        ),
{
    let ghost s0 = build_view(st@);
    let ghost ev: EventV = (line@, list as int, idx as int, sha@, repo@, match task {
        Some(t) => Some(t@),
        None => None,
    });
    let k: usize = match find_line(st, line) {
        Some(k) => k,
        None => {
            let g = GroupBuild { line: line.clone(), entries: Vec::new(), tasks: Vec::new() };
            let ghost before = st@;
            assert(entries_view(g.entries@) =~= Seq::empty());
            assert(strs(g.tasks) =~= Seq::<Seq<char>>::empty());
            let ghost gv: BuildV = (g.line@, entries_view(g.entries@), strs(g.tasks));
            st.push(g);
            proof {
                assert(build_view(st@) =~= s0.push(gv));
            }
            st.len() - 1
        },
    };
    let ghost s1 = build_view(st@);
    let ghost before = st@;
    let mut g = st.remove(k);
    assert(build_view(before)[k as int] == (g.line@, entries_view(g.entries@), strs(g.tasks)));
    let ghost g0: BuildV = (g.line@, entries_view(g.entries@), strs(g.tasks));
    if !holds_commit(&g.entries, sha, repo) {
        let ghost eb = g.entries@;
        g.entries.push((list, idx, sha.clone(), repo.clone()));
        assert(entries_view(g.entries@) =~= entries_view(eb).push((list as int, idx as int, sha@, repo@)));
    }
    match task {
        Some(t) => {
            if !holds_task(&g.tasks, t) {
                let ghost tb = strs(g.tasks);
                g.tasks.push(t.clone());
                assert(strs(g.tasks) =~= tb.push(t@));
            }
        },
        None => {},
    }
    let ghost gnew: BuildV = (g.line@, entries_view(g.entries@), strs(g.tasks));
    st.insert(k, g);
    proof {
        assert(st@ =~= before.update(k as int, st@[k as int]));
        assert(build_view(st@) =~= s1.update(k as int, gnew));
    }
}

fn positions_of(es: &Vec<(usize, usize, String, String)>) -> (r: Vec<(usize, usize)>)
    ensures
        r@.map_values(|p: (usize, usize)| (p.0 as int, p.1 as int)) == entries_view(es@).map_values(
            |e: (int, int, Seq<char>, Seq<char>)| (e.0, e.1),
        ),
{
    let mut pos: Vec<(usize, usize)> = Vec::new();
    let mut q: usize = 0;
    while q < es.len()
        invariant
            q <= es.len(),
            pos@.len() == q,
            forall|k: int| 0 <= k < q ==> #[trigger] pos@[k] == (es@[k].0, es@[k].1),
        decreases es.len() - q,
    {
        pos.push((es[q].0, es[q].1));
        q = q + 1;
    }
    assert(pos@.map_values(|p: (usize, usize)| (p.0 as int, p.1 as int)) =~= entries_view(es@).map_values(
        |e: (int, int, Seq<char>, Seq<char>)| (e.0, e.1),
    ));
    pos
}

fn copy_strings(v: &Vec<String>) -> (r: Vec<String>)
    ensures
        strs(r) == strs(*v),
{
    let mut out: Vec<String> = Vec::new();
    let mut u: usize = 0;
    while u < v.len()
        invariant
            u <= v.len(),
            out@.len() == u,
            forall|k: int| 0 <= k < u ==> #[trigger] out@[k]@ == v@[k]@,
        decreases v.len() - u,
    {
        out.push(v[u].clone());
        u = u + 1;
    }
    assert(strs(out) =~= strs(*v));
    out
}

/// Groups the day's commits by business line. `task_commits` holds each
/// task's id and commits (each under its own line); `orphans` holds each
/// orphan bucket's line and commits (all under that line). Lines come in
/// the order first met, task commits before orphans; a line lists a
/// commit at its first position only (the same sha in the same repository
/// is one commit), and its tasks once each, in the order first met.
pub fn group_by_business_line(task_commits: &Vec<(String, Vec<CommitKey>)>, orphans: &Vec<(String, Vec<CommitKey>)>) -> (r: Vec<LineGroup>)
    requires
        task_commits.len() + orphans.len() <= usize::MAX,
    ensures
        line_groups_view(r@) == line_groups_spec(task_commits@, orphans@),
{
    let mut st: Vec<GroupBuild> = Vec::new();
    let n = task_commits.len();
    let mut i: usize = 0;
    assert(build_view(st@) =~= Seq::<BuildV>::empty());
    while i < n
        invariant
            i <= n,
            n == task_commits.len(),
            build_view(st@) == fold_events(task_events(task_commits@, i as int)),
        decreases n - i,
    {
        let cs = &task_commits[i].1;
        let t = &task_commits[i].0;
        let ghost pre = task_events(task_commits@, i as int);
        let mut j: usize = 0;
        assert(pre + list_events(cs@, i as int, 0, Some(t@), None) =~= pre);
        while j < cs.len()
            invariant
                i < n,
                j <= cs.len(),
                n == task_commits.len(),
                cs == &task_commits@[i as int].1,
                t == &task_commits@[i as int].0,
                pre == task_events(task_commits@, i as int),
                build_view(st@) == fold_events(pre + list_events(cs@, i as int, j as int, Some(t@), None)),
            decreases cs.len() - j,
        {
            let c = &cs[j];
            add_event_exec(&mut st, &c.business_line, i, j, &c.sha, &c.repo_path, Some(t));
            let ghost es = pre + list_events(cs@, i as int, j as int, Some(t@), None);
            let ghost e: EventV = (c.business_line@, i as int, j as int, c.sha@, c.repo_path@, Some(t@));
            assert(pre + list_events(cs@, i as int, j + 1, Some(t@), None) =~= es.push(e));
            assert(es.push(e).drop_last() =~= es);
            j = j + 1;
        }
        assert(pre + list_events(cs@, i as int, cs.len() as int, Some(t@), None) == task_events(task_commits@, i + 1));
        i = i + 1;
    }
    let ghost tev = task_events(task_commits@, n as int);
    let mut k: usize = 0;
    assert(tev + orphan_events(orphans@, n as int, 0) =~= tev);
    while k < orphans.len()
        invariant
            k <= orphans.len(),
            n == task_commits.len(),
            n + orphans.len() <= usize::MAX,
            tev == task_events(task_commits@, n as int),
            build_view(st@) == fold_events(tev + orphan_events(orphans@, n as int, k as int)),
        decreases orphans.len() - k,
    {
        let cs = &orphans[k].1;
        let l = &orphans[k].0;
        let ghost pre = tev + orphan_events(orphans@, n as int, k as int);
        let list = n + k;
        let mut j: usize = 0;
        assert(pre + list_events(cs@, list as int, 0, None, Some(l@)) =~= pre);
        while j < cs.len()
            invariant
                k < orphans.len(),
                j <= cs.len(),
                list == n + k,
                cs == &orphans@[k as int].1,
                l == &orphans@[k as int].0,
                pre == tev + orphan_events(orphans@, n as int, k as int),
                build_view(st@) == fold_events(pre + list_events(cs@, list as int, j as int, None, Some(l@))),
            decreases cs.len() - j,
        {
            let c = &cs[j];
            add_event_exec(&mut st, l, list, j, &c.sha, &c.repo_path, None);
            let ghost es = pre + list_events(cs@, list as int, j as int, None, Some(l@));
            let ghost e: EventV = (l@, list as int, j as int, c.sha@, c.repo_path@, None);
            assert(pre + list_events(cs@, list as int, j + 1, None, Some(l@)) =~= es.push(e));
            assert(es.push(e).drop_last() =~= es);
            j = j + 1;
        }
        assert(pre + list_events(cs@, list as int, cs.len() as int, None, Some(l@)) =~= tev + orphan_events(
            orphans@,
            n as int,
            k + 1,
        ));
        k = k + 1;
    }
    let ghost all = build_view(st@);
    let mut out: Vec<LineGroup> = Vec::new();
    let mut m: usize = 0;
    while m < st.len()
        invariant
            m <= st.len(),
            all == build_view(st@),
            line_groups_view(out@) == all.take(m as int).map_values(
                |g: BuildV| (g.0, g.1.map_values(|e: (int, int, Seq<char>, Seq<char>)| (e.0, e.1)), g.2),
            ),
        decreases st.len() - m,
    {
        let g = &st[m];
        let pos = positions_of(&g.entries);
        let tasks = copy_strings(&g.tasks);
        let lg = LineGroup { business_line: g.line.clone(), commits: pos, task_ids: tasks };
        let ghost ob = out@;
        let ghost lv = (lg.business_line@, lg.commits@.map_values(|p: (usize, usize)| (p.0 as int, p.1 as int)), strs(lg.task_ids));
        assert(lv == (all[m as int].0, all[m as int].1.map_values(|e: (int, int, Seq<char>, Seq<char>)| (e.0, e.1)), all[m as int].2));
        out.push(lg);
        assert(out@ =~= ob.push(lg));
        assert(line_groups_view(out@) =~= line_groups_view(ob).push(lv));
        assert(all.take(m + 1) =~= all.take(m as int).push(all[m as int]));
        assert(line_groups_view(out@) =~= all.take(m + 1).map_values(
            |g: BuildV| (g.0, g.1.map_values(|e: (int, int, Seq<char>, Seq<char>)| (e.0, e.1)), g.2),
        ));
        m = m + 1;
    }
    assert(all.take(m as int) =~= all);
    out
}

} // verus!
