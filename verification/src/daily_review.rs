//! The integer side of the daily report: splitting a business line's time
//! into half-hour slots among its tasks, picking a task's main business line,
//! flagging tasks still marked not started, and listing distinct commit titles.

use vstd::prelude::*;
use crate::commit_link::{contains_string, dedup, strs};
use crate::git::{clean_commit_title, clean_title_spec};
use crate::text::{chars_of, decimal_seq, decimal_string, push_str, string_of};

verus! {

/// A task as the daily report needs it.
#[derive(Debug, Clone)]
pub struct ReviewTaskInfo {
    pub id: String,
    pub name: String,
    pub status: String,
}

/// A task mentioned under a business line.
#[derive(Debug, Clone)]
pub struct TaskRef {
    pub task_id: String,
    pub task_name: String,
}

/// A task with commits whose status still says it has not started.
#[derive(Debug, Clone)]
pub struct NeedsStatusUpdate {
    pub task_id: String,
    pub task_name: String,
    pub commit_count: usize,
    pub reason: String,
}

/// Headline numbers of a daily report.
#[derive(Debug, Clone)]
pub struct DailyReviewSummary {
    pub total_commits: usize,
    pub business_line_count: usize,
    pub tasks_advanced_count: usize,
    pub orphan_commit_count: usize,
}

/// Half-hour slots given to task `i` of `n` when a business line has `slots`
/// slots: spread evenly, the first tasks taking one more when it does not
/// divide; with fewer slots than tasks, one each to the first tasks.
pub open spec fn slot_share(slots: int, n: int, i: int) -> int {
    if slots <= 0 || n <= 0 {
        0
    } else if slots >= n {
        slots / n + if i < slots % n {
            1int
        } else {
            0int
        }
    } else if i < slots {
        1
    } else {
        0
    }
}

/// Splits `slots` half-hour slots among `task_count` tasks ordered by effort.
pub fn allocate_slots(slots: i64, task_count: usize) -> (r: Vec<u64>)
    ensures
        r.len() == task_count,
        forall|i: int| 0 <= i < task_count ==> r@[i] == slot_share(slots as int, task_count as int, i),
{
    let mut out: Vec<u64> = Vec::new();
    if slots <= 0 || task_count == 0 {
        let mut i: usize = 0;
        while i < task_count
            invariant
                i <= task_count,
                out.len() == i,
                slots <= 0 || task_count == 0,
                forall|k: int| 0 <= k < i ==> out@[k] == slot_share(slots as int, task_count as int, k),
            decreases task_count - i,
        {
            out.push(0);
            i = i + 1;
        }
        return out;
    }
    let s = slots as u64;
    let n = task_count as u64;
    let mut i: usize = 0;
    if s >= n {
        let base = s / n;
        let extra = s % n;
        while i < task_count
            invariant
                i <= task_count,
                out.len() == i,
                slots > 0,
                task_count > 0,
                s == slots,
                n == task_count,
                s >= n,
                base == s / n,
                extra == s % n,
                base <= s,
                forall|k: int| 0 <= k < i ==> out@[k] == slot_share(slots as int, task_count as int, k),
            decreases task_count - i,
        {
            let share = if (i as u64) < extra {
                base + 1
            } else {
                base
            };
            out.push(share);
            i = i + 1;
        }
    } else {
        while i < task_count
            invariant
                i <= task_count,
                out.len() == i,
                slots > 0,
                task_count > 0,
                s == slots,
                n == task_count,
                s < n,
                forall|k: int| 0 <= k < i ==> out@[k] == slot_share(slots as int, task_count as int, k),
            decreases task_count - i,
        {
            let share: u64 = if (i as u64) < s {
                1
            } else {
                0
            };
            out.push(share);
            i = i + 1;
        }
    }
    out
}

/// Sum of the shares of tasks `0..k`.
pub open spec fn shares_sum(slots: int, n: int, k: int) -> int
    decreases k,
{
    if k <= 0 {
        0
    } else {
        shares_sum(slots, n, k - 1) + slot_share(slots, n, k - 1)
    }
}

proof fn lemma_shares_prefix(slots: int, n: int, k: int)
    requires
        slots > 0,
        n > 0,
        0 <= k <= n,
    ensures
        slots >= n ==> shares_sum(slots, n, k) == k * (slots / n) + if k < slots % n {
            k
        } else {
            slots % n
        },
        slots < n ==> shares_sum(slots, n, k) == if k < slots {
            k
        } else {
            slots
        },
    decreases k,
{
    if k > 0 {
        lemma_shares_prefix(slots, n, k - 1);
        let b = slots / n;
        let e = slots % n;
        assert((k - 1) * b + b == k * b) by (nonlinear_arith);
        assert(shares_sum(slots, n, k) == shares_sum(slots, n, k - 1) + slot_share(slots, n, k - 1));
        if slots >= n {
            assert(slot_share(slots, n, k - 1) == b + if k - 1 < e {
                1int
            } else {
                0int
            });
        }
    }
}

/// Allocation hands out every slot, never gives a task more than an earlier
/// one, and no two tasks differ by more than one slot.
pub proof fn lemma_slots_allocation(slots: int, n: int, i: int, j: int)
    requires
        slots > 0,
        n > 0,
    ensures
        shares_sum(slots, n, n) == slots,
        0 <= i <= j < n ==> slot_share(slots, n, i) >= slot_share(slots, n, j),
        0 <= i < n && 0 <= j < n ==> slot_share(slots, n, i) - slot_share(slots, n, j) <= 1,
{
    lemma_shares_prefix(slots, n, n);
    if slots >= n {
        assert(slots == n * (slots / n) + slots % n) by (nonlinear_arith)
            requires
                n > 0,
        ;
        assert(slots % n < n) by (nonlinear_arith)
            requires
                n > 0,
        ;
    }
}

/// How many times `x` occurs in `s`.
pub open spec fn count_of(s: Seq<Seq<char>>, x: Seq<char>) -> nat
    decreases s.len(),
{
    if s.len() == 0 {
        0
    } else {
        count_of(s.drop_last(), x) + if s.last() == x {
            1nat
        } else {
            0nat
        }
    }
}

fn count_string(v: &Vec<String>, x: &String) -> (r: usize)
    ensures
        r == count_of(strs(*v), x@),
{
    let mut n: usize = 0;
    let mut i: usize = 0;
    assert(strs(*v).take(0) =~= Seq::<Seq<char>>::empty());
    while i < v.len()
        invariant
            i <= v.len(),
            n == count_of(strs(*v).take(i as int), x@),
            n <= i,
        decreases v.len() - i,
    {
        assert(strs(*v).take(i + 1).drop_last() =~= strs(*v).take(i as int));
        if v[i] == *x {
            n = n + 1;
        }
        i = i + 1;
    }
    assert(strs(*v).take(v.len() as int) =~= strs(*v));
    n
}

/// The main business line of a task: one of the business lines of its
/// commits that occurs most often (ties go to any of them); empty without
/// commits.
pub fn primary_business_line(lines: &Vec<String>) -> (r: String)
    ensures
        lines.len() == 0 ==> r@ == Seq::<char>::empty(),
        lines.len() > 0 ==> strs(*lines).contains(r@) && forall|k: int|
            0 <= k < lines.len() ==> count_of(strs(*lines), r@) >= count_of(
                strs(*lines),
                #[trigger] strs(*lines)[k],
            ),
{
    if lines.len() == 0 {
        return String::new();
    }
    let mut best: usize = 0;
    let mut best_count = count_string(lines, &lines[0]);
    let mut i: usize = 1;
    while i < lines.len()
        invariant
            1 <= i <= lines.len(),
            best < lines.len(),
            best_count == count_of(strs(*lines), strs(*lines)[best as int]),
            forall|k: int|
                0 <= k < i ==> best_count >= count_of(strs(*lines), #[trigger] strs(*lines)[k]),
        decreases lines.len() - i,
    {
        let c = count_string(lines, &lines[i]);
        if c > best_count {
            best = i;
            best_count = c;
        }
        i = i + 1;
    }
    assert(strs(*lines)[best as int] == lines@[best as int]@);
    lines[best].clone()
}

/// Status of task `id` in the task list (the last entry with that id wins, as
/// in a map built from the list), `unknown` when it is not listed.
pub open spec fn status_of(tasks: Seq<ReviewTaskInfo>, id: Seq<char>) -> Seq<char>
    decreases tasks.len(),
{
    if tasks.len() == 0 {
        "unknown"@
    } else if tasks.last().id@ == id {
        tasks.last().status@
    } else {
        status_of(tasks.drop_last(), id)
    }
}

/// The status shown for a task with commits.
pub fn task_status(tasks: &Vec<ReviewTaskInfo>, id: &String) -> (r: String)
    ensures
        r@ == status_of(tasks@, id@),
{
    let mut i = tasks.len();
    assert(tasks@.take(i as int) =~= tasks@);
    while i > 0
        invariant
            i <= tasks.len(),
            status_of(tasks@, id@) == status_of(tasks@.take(i as int), id@),
        decreases i,
    {
        assert(tasks@.take(i as int).drop_last() =~= tasks@.take(i - 1));
        assert(tasks@.take(i as int).last() == tasks@[i - 1]);
        if tasks[i - 1].id == *id {
            return tasks[i - 1].status.clone();
        }
        i = i - 1;
    }
    string_of(&chars_of("unknown"))
}

/// A task that has commits, as far as the status check needs it.
#[derive(Debug, Clone)]
pub struct TaskProgress {
    pub task_id: String,
    pub task_name: String,
    pub status: String,
    pub commit_count: usize,
}

/// Why a task is flagged: commits exist but its status is still `wait`.
pub open spec fn wait_reason(n: nat) -> Seq<char> {
    "本地已有 "@ + decimal_seq(n) + " 个 commit，但禅道状态仍是\"未开始\""@
}

/// The flag raised for task `t`, as plain values.
pub open spec fn flag_view(f: NeedsStatusUpdate) -> (Seq<char>, Seq<char>, nat, Seq<char>) {
    (f.task_id@, f.task_name@, f.commit_count as nat, f.reason@)
}

/// Flags for the tasks whose status is `wait`, in order.
pub open spec fn wait_flags(ts: Seq<TaskProgress>) -> Seq<(Seq<char>, Seq<char>, nat, Seq<char>)>
    decreases ts.len(),
{
    if ts.len() == 0 {
        Seq::empty()
    } else {
        let r = wait_flags(ts.drop_last());
        let t = ts.last();
        if t.status@ == "wait"@ {
            r.push((t.task_id@, t.task_name@, t.commit_count as nat, wait_reason(t.commit_count as nat)))
        } else {
            r
        }
    }
}

/// The tasks to update in the task tracker: those with commits that are
/// still marked not started.
pub fn needs_status_update(tasks: &Vec<TaskProgress>) -> (r: Vec<NeedsStatusUpdate>)
    ensures
        r@.map_values(|f: NeedsStatusUpdate| flag_view(f)) == wait_flags(tasks@),
{
    let mut out: Vec<NeedsStatusUpdate> = Vec::new();
    let wait = string_of(&chars_of("wait"));
    let mut i: usize = 0;
    assert(tasks@.take(0) =~= Seq::<TaskProgress>::empty());
    while i < tasks.len()
        invariant
            i <= tasks.len(),
            wait@ == "wait"@,
            out@.map_values(|f: NeedsStatusUpdate| flag_view(f)) == wait_flags(tasks@.take(i as int)),
        decreases tasks.len() - i,
    {
        assert(tasks@.take(i + 1).drop_last() =~= tasks@.take(i as int));
        let t = &tasks[i];
        if t.status == wait {
            let mut reason = string_of(&chars_of("本地已有 "));
            let n = decimal_string(t.commit_count as u64);
            push_str(&mut reason, n.as_str());
            push_str(&mut reason, " 个 commit，但禅道状态仍是\"未开始\"");
            let ghost before = out@.map_values(|f: NeedsStatusUpdate| flag_view(f));
            out.push(
                NeedsStatusUpdate {
                    task_id: t.task_id.clone(),
                    task_name: t.task_name.clone(),
                    commit_count: t.commit_count,
                    reason,
                },
            );
            assert(out@.map_values(|f: NeedsStatusUpdate| flag_view(f)) =~= before.push(
                flag_view(out@[out.len() - 1]),
            ));
        }
        i = i + 1;
        assert(out@.map_values(|f: NeedsStatusUpdate| flag_view(f)) =~= wait_flags(
            tasks@.take(i as int),
        ));
    }
    assert(tasks@.take(tasks.len() as int) =~= tasks@);
    out
}

/// Titles as listed in a report: cleaned (60 characters at most), empty ones
/// and repeats dropped, first occurrence kept; with the index of the commit
/// each comes from.
pub open spec fn unique_titles_spec(titles: Seq<Seq<char>>) -> Seq<(nat, Seq<char>)>
    decreases titles.len(),
{
    if titles.len() == 0 {
        Seq::empty()
    } else {
        let r = unique_titles_spec(titles.drop_last());
        let c = clean_title_spec(titles.last(), 60);
        if c.len() == 0 || r.map_values(|p: (nat, Seq<char>)| p.1).contains(c) {
            r
        } else {
            r.push(((titles.len() - 1) as nat, c))
        }
    }
}

/// The distinct cleaned titles of a list of commits.
pub fn unique_titles(titles: &Vec<String>) -> (r: Vec<(usize, String)>)
    ensures
        r@.map_values(|p: (usize, String)| (p.0 as nat, p.1@)) == unique_titles_spec(strs(*titles)),
{
    let mut out: Vec<(usize, String)> = Vec::new();
    let mut seen: Vec<String> = Vec::new();
    let mut i: usize = 0;
    assert(strs(*titles).take(0) =~= Seq::<Seq<char>>::empty());
    while i < titles.len()
        invariant
            i <= titles.len(),
            out@.map_values(|p: (usize, String)| (p.0 as nat, p.1@)) == unique_titles_spec(
                strs(*titles).take(i as int),
            ),
            strs(seen) == unique_titles_spec(strs(*titles).take(i as int)).map_values(
                |p: (nat, Seq<char>)| p.1,
            ),
        decreases titles.len() - i,
    {
        let ghost pre = strs(*titles).take(i as int);
        assert(strs(*titles).take(i + 1).drop_last() =~= pre);
        assert(strs(*titles).take(i + 1).last() == titles@[i as int]@);
        let c = clean_commit_title(titles[i].as_str(), 60);
        if !c.as_str().is_empty() && !contains_string(&seen, &c) {
            let ghost before = out@.map_values(|p: (usize, String)| (p.0 as nat, p.1@));
            let ghost seen_before = strs(seen);
            seen.push(c.clone());
            out.push((i, c));
            assert(out@.map_values(|p: (usize, String)| (p.0 as nat, p.1@)) =~= before.push(
                (i as nat, c@),
            ));
            assert(strs(seen) =~= seen_before.push(c@));
        }
        i = i + 1;
        assert(out@.map_values(|p: (usize, String)| (p.0 as nat, p.1@)) =~= unique_titles_spec(
            strs(*titles).take(i as int),
        ));
        assert(strs(seen) =~= unique_titles_spec(strs(*titles).take(i as int)).map_values(
            |p: (nat, Seq<char>)| p.1,
        ));
    }
    assert(strs(*titles).take(titles.len() as int) =~= strs(*titles));
    out
}

} // verus!
