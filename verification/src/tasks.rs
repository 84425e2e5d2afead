//! Task reminders: which of the user's tracker tasks are overdue or due
//! soon, which tasks count as the user's own, and the proactive reminders
//! shown by the desktop pet.

use vstd::prelude::*;
use crate::text::{
    chars_of, owned, seq_eq, seq_starts_with, slice_chars, starts_with_chars, str_less, str_lt,
    string_of,
};

verus! {

/// A member of a task's team.
#[derive(Debug, Clone)]
pub struct TeamEntry {
    /// The member's account; none when the tracker gave none (such an
    /// entry is nobody's).
    pub account: Option<String>,
    pub status: Option<String>,
}

/// A tracker task as the reminder logic reads it.
#[derive(Debug, Clone)]
pub struct TaskRecord {
    pub id: String,
    pub title: String,
    pub status: String,
    pub deadline: String,
    pub assignee: String,
    pub priority: String,
    pub team: Vec<TeamEntry>,
}

/// A due-date alert (hours are added by the caller from the task data).
#[derive(Debug, Clone)]
pub struct TaskAlertCore {
    pub id: String,
    pub title: String,
    /// The date part of the deadline.
    pub deadline: String,
    pub assignee: String,
    /// `overdue`, `today`, `soon` or `upcoming`.
    pub alert_type: String,
    pub days_until_due: i32,
    /// The user's own status on the task when on its team, else the task's.
    pub status: String,
    pub priority: String,
    pub is_team: bool,
    /// The user's entry in the task's team.
    pub team_entry: Option<usize>,
}

/// A status that means the task is finished.
pub open spec fn closed_status(s: Seq<char>) -> bool {
    s == "done"@ || s == "closed"@ || s == "cancel"@
}

fn is_closed(s: &str) -> (r: bool)
    ensures
        r == closed_status(s@),
{
    let v = chars_of(s);
    seq_eq(&v, &chars_of("done")) || seq_eq(&v, &chars_of("closed")) || seq_eq(&v, &chars_of("cancel"))
}

/// Bytes of the UTF-8 encoding of `c`.
pub open spec fn utf8_len(c: char) -> nat {
    let u = c as u32;
    if u < 0x80 {
        1
    } else if u < 0x800 {
        2
    } else if u < 0x10000 {
        3
    } else {
        4
    }
}

/// Scanning from character `i` with `acc` bytes before it: the number of
/// characters in the first 10 bytes; -1 when the text is shorter than 10
/// bytes; -2 when byte 10 falls inside a character.
pub open spec fn cut10(s: Seq<char>, i: nat, acc: nat) -> int
    decreases s.len() - i,
{
    if acc == 10 {
        i as int
    } else if acc > 10 {
        -2
    } else if i >= s.len() {
        -1
    } else {
        cut10(s, i + 1, acc + utf8_len(s[i as int]))
    }
}

/// The date part of a deadline is its first 10 bytes; a deadline whose
/// tenth byte ends inside a character cannot be cut there.
pub open spec fn deadline_readable(d: Seq<char>) -> bool {
    cut10(d, 0, 0) != -2
}

fn cut10_exec(v: &Vec<char>) -> (r: i64)
    ensures
        r == cut10(v@, 0, 0),
{
    let mut i: usize = 0;
    let mut acc: u64 = 0;
    while acc < 10 && i < v.len()
        invariant
            i <= v.len(),
            acc <= 13,
            i <= acc,
            cut10(v@, i as nat, acc as nat) == cut10(v@, 0, 0),
        decreases v.len() - i,
    {
        let u = v[i] as u32;
        let n: u64 = if u < 0x80 {
            1
        } else if u < 0x800 {
            2
        } else if u < 0x10000 {
            3
        } else {
            4
        };
        acc = acc + n;
        i = i + 1;
    }
    if acc == 10 {
        i as i64
    } else if acc > 10 {
        -2
    } else {
        -1
    }
}

/// Days since the common era of a `%Y-%m-%d` date, as `chrono` parses it
/// (`None` when it does not parse).
pub uninterp spec fn ymd_days(s: Seq<char>) -> Option<i64>;

/// `chrono::NaiveDate::parse_from_str(s, "%Y-%m-%d")`, then
/// `num_days_from_ce()`. The result is named, not stated.
#[verifier::external_body]
pub(crate) fn parse_ymd_days(s: &str) -> (r: Option<i64>)
    ensures
        r == ymd_days(s@),
{
    match chrono::NaiveDate::parse_from_str(s, "%Y-%m-%d") {
        Ok(d) => Some(i64::from(chrono::Datelike::num_days_from_ce(&d))),
        Err(_) => None,
    }
}

/// The first team member whose account is `me`.
pub open spec fn my_entry(team: Seq<TeamEntry>, me: Seq<char>, from: int) -> Option<int>
    decreases team.len() - from,
{
    if from < 0 || from >= team.len() {
        None
    } else if team[from].account matches Some(a) && a@ == me {
        Some(from)
    } else {
        my_entry(team, me, from + 1)
    }
}

/// Alert kind for a number of days left: overdue, today, within 3 days,
/// within 7 days; none beyond.
pub open spec fn alert_type_spec(days: int) -> Option<Seq<char>> {
    if days < 0 {
        Some("overdue"@)
    } else if days == 0 {
        Some("today"@)
    } else if days <= 3 {
        Some("soon"@)
    } else if days <= 7 {
        Some("upcoming"@)
    } else {
        None
    }
}

/// How many days are left decides the alert: past due is `overdue`, the
/// same day `today`, one to three days `soon`, four to seven `upcoming`,
/// and more than a week none.
pub proof fn lemma_alert_kinds(days: int)
    ensures
        days < 0 ==> alert_type_spec(days) == Some("overdue"@),
        days == 0 ==> alert_type_spec(days) == Some("today"@),
        1 <= days <= 3 ==> alert_type_spec(days) == Some("soon"@),
        4 <= days <= 7 ==> alert_type_spec(days) == Some("upcoming"@),
        days > 7 ==> alert_type_spec(days).is_none(),
{
}

/// What the alert for a task says, as plain values: id, title, date,
/// assignee, kind, days left, status, priority, whether the user is on its
/// team, and the user's team entry.
pub open spec fn alert_view(a: TaskAlertCore) -> (Seq<char>, Seq<char>, Seq<char>, Seq<char>, Seq<char>, i32, Seq<char>, Seq<char>, bool, Option<usize>) {
    (a.id@, a.title@, a.deadline@, a.assignee@, a.alert_type@, a.days_until_due, a.status@, a.priority@, a.is_team, a.team_entry)
}

/// The alert for a task, if any: open tasks of the user (assignee or team
/// member; every task when `me` is empty) whose own team status is not
/// finished, with a readable deadline (not the `2099` placeholder) falling
/// within the next 7 days or already past, counted from `today` (days since
/// the common era).
pub open spec fn alert_spec(t: TaskRecord, me: Seq<char>, today: i64) -> Option<(Seq<char>, Seq<char>, Seq<char>, Seq<char>, Seq<char>, i32, Seq<char>, Seq<char>, bool, Option<usize>)> {
    alert_from(t, me, today, ymd_days(t.deadline@.take(cut10(t.deadline@, 0, 0))))
}

/// The alert for a task once its deadline's date part (the first 10 bytes)
/// has been parsed to `parsed` days since the common era (`None` when it
/// does not parse); the date is only read when the checks before it pass.
pub open spec fn alert_from(t: TaskRecord, me: Seq<char>, today: i64, parsed: Option<i64>) -> Option<(Seq<char>, Seq<char>, Seq<char>, Seq<char>, Seq<char>, i32, Seq<char>, Seq<char>, bool, Option<usize>)> {
    let d = t.deadline@;
    let k = cut10(d, 0, 0);
    let entry = my_entry(t.team@, me, 0);
    if closed_status(t.status@) || k < 0 || seq_starts_with(d, "2099"@) {
        None
    } else if me.len() > 0 && t.assignee@ != me && entry.is_none() {
        None
    } else if entry.is_some() && t.team@[entry.unwrap()].status.is_some() && closed_status(
        t.team@[entry.unwrap()].status.unwrap()@,
    ) {
        None
    } else {
        let date = d.take(k);
        match parsed {
            None => None,
            Some(dd) => {
                let days = (dd - today) as i32;
                match alert_type_spec(days as int) {
                    None => None,
                    Some(kind) => {
                        let status = match entry {
                            Some(e) => match t.team@[e].status {
                                Some(st) => st@,
                                None => t.status@,
                            },
                            None => t.status@,
                        };
                        Some((t.id@, t.title@, date, t.assignee@, kind, days, status, t.priority@, entry.is_some(), match entry {
                            Some(e) => Some(e as usize),
                            None => None,
                        }))
                    },
                }
            },
        }
    }
}

fn my_entry_exec(team: &Vec<TeamEntry>, me: &String) -> (r: Option<usize>)
    ensures
        match r {
            Some(e) => my_entry(team@, me@, 0) == Some(e as int) && e < team.len(),
            None => my_entry(team@, me@, 0).is_none(),
        },
{
    let mut i: usize = 0;
    while i < team.len()
        invariant
            i <= team.len(),
            my_entry(team@, me@, i as int) == my_entry(team@, me@, 0),
        decreases team.len() - i,
    {
        match &team[i].account {
            Some(a) => {
                if *a == *me {
                    return Some(i);
                }
            },
            None => {},
        }
        i = i + 1;
    }
    None
}

/// The checks before the deadline's date part is read all pass: the task is
/// open, its deadline has at least 10 bytes and is not the `2099`
/// placeholder, it is the user's, and the user's own part is not finished.
pub open spec fn reaches_date(t: TaskRecord, me: Seq<char>) -> bool {
    let entry = my_entry(t.team@, me, 0);
    &&& !closed_status(t.status@)
    &&& cut10(t.deadline@, 0, 0) != -1
    &&& !seq_starts_with(t.deadline@, "2099"@)
    &&& !(me.len() > 0 && t.assignee@ != me && entry.is_none())
    &&& !(entry.is_some() && t.team@[entry.unwrap()].status.is_some() && closed_status(
        t.team@[entry.unwrap()].status.unwrap()@,
    ))
}

/// The checks an alert makes before it reads the deadline's date: the task
/// is open, the deadline has a 10-byte date part that is not the `2099`
/// placeholder, the task is the user's, and the user's part is not finished.
pub open spec fn alert_checks(t: TaskRecord, me: Seq<char>) -> bool {
    let d = t.deadline@;
    let entry = my_entry(t.team@, me, 0);
    &&& !(closed_status(t.status@) || cut10(d, 0, 0) < 0 || seq_starts_with(d, "2099"@))
    &&& !(me.len() > 0 && t.assignee@ != me && entry.is_none())
    &&& !(entry.is_some() && t.team@[entry.unwrap()].status.is_some() && closed_status(
        t.team@[entry.unwrap()].status.unwrap()@,
    ))
}

fn alert_checks_exec(t: &TaskRecord, me: &String, d: &Vec<char>, k: i64) -> (r: bool)
    requires
        d@ == t.deadline@,
        k == cut10(d@, 0, 0),
    ensures
        r == alert_checks(*t, me@),
{
    if is_closed(t.status.as_str()) || k < 0 || starts_with_chars(d, &chars_of("2099")) {
        return false;
    }
    let entry = my_entry_exec(&t.team, me);
    if !me.as_str().is_empty() && t.assignee != *me && entry.is_none() {
        return false;
    }
    match entry {
        Some(e) => match &t.team[e].status {
            Some(st) => !is_closed(st.as_str()),
            None => true,
        },
        None => true,
    }
}

/// The due-date alert for one task.
pub fn task_alert(t: &TaskRecord, me: &String, today: i64) -> (r: Option<TaskAlertCore>)
    requires
        reaches_date(*t, me@) ==> deadline_readable(t.deadline@),
    ensures
        match r {
            Some(a) => alert_spec(*t, me@, today) == Some(alert_view(a)),
            None => alert_spec(*t, me@, today).is_none(),
        },
{
    let d = chars_of(t.deadline.as_str());
    let k = cut10_exec(&d);
    let parsed = if alert_checks_exec(t, me, &d, k) {
        assert(0 <= k <= d.len()) by {
            lemma_cut10_bound(d@, 0, 0);
        }
        let date = string_of(&slice_chars(&d, 0, k as usize));
        assert(d@.subrange(0, k as int) =~= d@.take(k as int));
        parse_ymd_days(date.as_str())
    } else {
        None
    };
    task_alert_parsed(t, me, today, parsed)
}

/// The due-date alert for one task, given what parsing its deadline's date
/// part gave.
pub fn task_alert_parsed(t: &TaskRecord, me: &String, today: i64, parsed: Option<i64>) -> (r: Option<TaskAlertCore>)
    requires
        reaches_date(*t, me@) ==> deadline_readable(t.deadline@),
    ensures
        match r {
            Some(a) => alert_from(*t, me@, today, parsed) == Some(alert_view(a)),
            None => alert_from(*t, me@, today, parsed).is_none(),
        },
{
    let d = chars_of(t.deadline.as_str());
    let k = cut10_exec(&d);
    if is_closed(t.status.as_str()) || k < 0 || starts_with_chars(&d, &chars_of("2099")) {
        return None;
    }
    let entry = my_entry_exec(&t.team, me);
    if !me.as_str().is_empty() && t.assignee != *me && entry.is_none() {
        return None;
    }
    match entry {
        Some(e) => match &t.team[e].status {
            Some(st) => {
                if is_closed(st.as_str()) {
                    return None;
                }
            },
            None => {},
        },
        None => {},
    }
    assert(0 <= k <= d.len()) by {
        lemma_cut10_bound(d@, 0, 0);
    }
    let date = string_of(&slice_chars(&d, 0, k as usize));
    assert(d@.subrange(0, k as int) =~= d@.take(k as int));
    let dd = match parsed {
        Some(x) => x,
        None => return None,
    };
    let days = ((dd as i128) - (today as i128)) as i32;
    let kind = if days < 0 {
        owned("overdue")
    } else if days == 0 {
        owned("today")
    } else if days <= 3 {
        owned("soon")
    } else if days <= 7 {
        owned("upcoming")
    } else {
        return None;
    };
    let status = match entry {
        Some(e) => match &t.team[e].status {
            Some(st) => st.clone(),
            None => t.status.clone(),
        },
        None => t.status.clone(),
    };
    Some(
        TaskAlertCore {
            id: t.id.clone(),
            title: t.title.clone(),
            deadline: date,
            assignee: t.assignee.clone(),
            alert_type: kind,
            days_until_due: days,
            status,
            priority: t.priority.clone(),
            is_team: entry.is_some(),
            team_entry: entry,
        },
    )
}

/// Whether the alert for a task can be worked out: a task that gets as far
/// as reading its deadline's date must have a deadline whose tenth byte
/// ends a character.
pub fn alert_ready(t: &TaskRecord, me: &String) -> (r: bool)
    ensures
        r == (reaches_date(*t, me@) ==> deadline_readable(t.deadline@)),
{
    let d = chars_of(t.deadline.as_str());
    let k = cut10_exec(&d);
    if k != -2 {
        return true;
    }
    if is_closed(t.status.as_str()) || starts_with_chars(&d, &chars_of("2099")) {
        return true;
    }
    let entry = my_entry_exec(&t.team, me);
    if !me.as_str().is_empty() && t.assignee != *me && entry.is_none() {
        return true;
    }
    match entry {
        Some(e) => match &t.team[e].status {
            Some(st) => is_closed(st.as_str()),
            None => false,
        },
        None => false,
    }
}

/// Whether the reminders can read a task's deadline: an open task with a
/// deadline of at least 10 bytes must have its tenth byte end a character.
pub fn reminder_ready(t: &TaskRecord) -> (r: bool)
    ensures
        r == ((!closed_status(t.status@) && cut10(t.deadline@, 0, 0) != -1) ==> deadline_readable(t.deadline@)),
{
    let k = cut10_exec(&chars_of(t.deadline.as_str()));
    k != -2 || is_closed(t.status.as_str())
}

proof fn lemma_cut10_bound(s: Seq<char>, i: nat, acc: nat)
    requires
        i <= s.len(),
    ensures
        cut10(s, i, acc) <= s.len(),
        cut10(s, i, acc) >= 0 ==> cut10(s, i, acc) >= i,
    decreases s.len() - i,
{
    if acc < 10 && i < s.len() {
        lemma_cut10_bound(s, i + 1, acc + utf8_len(s[i as int]));
    }
}

/// Alerts come in order of days left, ties in task order.
pub open spec fn alert_order_ok(r: Seq<TaskAlertCore>, idx: Seq<int>) -> bool {
    forall|k1: int, k2: int|
        0 <= k1 < k2 < r.len() ==> (#[trigger] r[k1]).days_until_due < (#[trigger] r[k2]).days_until_due || (
        r[k1].days_until_due == r[k2].days_until_due && idx[k1] < idx[k2])
}

/// `r` holds exactly the alerts of `tasks[..upto]`, with `idx` naming the
/// task of each.
pub open spec fn alerts_from(r: Seq<TaskAlertCore>, idx: Seq<int>, tasks: Seq<TaskRecord>, me: Seq<char>, today: i64, upto: int) -> bool {
    &&& idx.len() == r.len()
    &&& forall|k: int|
        0 <= k < r.len() ==> 0 <= #[trigger] idx[k] < upto && alert_spec(tasks[idx[k]], me, today)
            == Some(alert_view(r[k]))
    &&& forall|i: int|
        0 <= i < upto && #[trigger] alert_spec(tasks[i], me, today).is_some() ==> idx.contains(i)
}

/// Every task's alert, soonest first (ties in task order).
pub fn task_alerts(tasks: &Vec<TaskRecord>, me: &String, today: i64) -> (r: Vec<TaskAlertCore>)
    requires
        forall|i: int| 0 <= i < tasks.len() && reaches_date(#[trigger] tasks@[i], me@) ==> deadline_readable(tasks@[i].deadline@),
    ensures
        exists|idx: Seq<int>| alerts_from(r@, idx, tasks@, me@, today, tasks.len() as int) && alert_order_ok(r@, idx),
{
    let mut out: Vec<TaskAlertCore> = Vec::new();
    let ghost mut idx: Seq<int> = Seq::empty();
    let mut i: usize = 0;
    while i < tasks.len()
        invariant
            i <= tasks.len(),
            forall|j: int| 0 <= j < tasks.len() && reaches_date(#[trigger] tasks@[j], me@) ==> deadline_readable(tasks@[j].deadline@),
            alerts_from(out@, idx, tasks@, me@, today, i as int),
            alert_order_ok(out@, idx),
        decreases tasks.len() - i,
    {
        match task_alert(&tasks[i], me, today) {
            Some(a) => {
                let mut p: usize = 0;
                while p < out.len() && out[p].days_until_due <= a.days_until_due
                    invariant
                        p <= out.len(),
                        forall|k: int| 0 <= k < p ==> (#[trigger] out@[k]).days_until_due <= a.days_until_due,
                    decreases out.len() - p,
                {
                    p = p + 1;
                }
                let ghost old_out = out@;
                let ghost old_idx = idx;
                out.insert(p, a);
                proof {
                    idx = old_idx.insert(p as int, i as int);
                    assert(out@ == old_out.insert(p as int, a));
                    assert forall|k: int| 0 <= k < out@.len() implies 0 <= #[trigger] idx[k] < i + 1 && alert_spec(
                        tasks@[idx[k]],
                        me@,
                        today,
                    ) == Some(alert_view(out@[k])) by {
                        if k < p {
                            assert(idx[k] == old_idx[k] && out@[k] == old_out[k]);
                        } else if k > p {
                            assert(idx[k] == old_idx[k - 1] && out@[k] == old_out[k - 1]);
                        }
                    }
                    assert forall|j: int| 0 <= j < i + 1 && #[trigger] alert_spec(tasks@[j], me@, today).is_some() implies idx.contains(j) by {
                        if j == i {
                            assert(idx[p as int] == j);
                        } else {
                            let k = choose|k: int| 0 <= k < old_idx.len() && old_idx[k] == j;
                            if k < p {
                                assert(idx[k] == j);
                            } else {
                                assert(idx[k + 1] == j);
                            }
                        }
                    }
                    assert forall|k1: int, k2: int| 0 <= k1 < k2 < out@.len() implies (#[trigger] out@[k1]).days_until_due < (#[trigger] out@[k2]).days_until_due || (
                    out@[k1].days_until_due == out@[k2].days_until_due && idx[k1] < idx[k2]) by {
                        if k2 < p {
                            assert(out@[k1] == old_out[k1] && out@[k2] == old_out[k2]);
                            assert(idx[k1] == old_idx[k1] && idx[k2] == old_idx[k2]);
                        } else if k2 == p {
                            assert(out@[k1] == old_out[k1] && idx[k1] == old_idx[k1]);
                        } else if k1 == p {
                            assert(out@[k2] == old_out[k2 - 1] && idx[k2] == old_idx[k2 - 1]);
                            if k2 - 1 >= p {
                                assert(old_out[p as int].days_until_due > a.days_until_due || p >= old_out.len());
                            }
                        } else if k1 < p {
                            assert(out@[k1] == old_out[k1] && out@[k2] == old_out[k2 - 1]);
                            assert(idx[k1] == old_idx[k1] && idx[k2] == old_idx[k2 - 1]);
                        } else {
                            assert(out@[k1] == old_out[k1 - 1] && out@[k2] == old_out[k2 - 1]);
                            assert(idx[k1] == old_idx[k1 - 1] && idx[k2] == old_idx[k2 - 1]);
                        }
                    }
                }
            },
            None => {
                proof {
                    assert forall|j: int| 0 <= j < i + 1 && #[trigger] alert_spec(tasks@[j], me@, today).is_some() implies idx.contains(j) by {
                        if j == i {
                            assert(false);
                        }
                    }
                }
            },
        }
        i = i + 1;
    }
    out
}

/// A task as the new-task check records it.
#[derive(Debug, Clone)]
pub struct TrackedTask {
    pub id: String,
    pub title: String,
    pub priority: String,
    pub deadline: String,
}

/// The task is the user's: every task when `me` is empty, else those
/// assigned to the user or with the user on the team.
pub open spec fn is_mine(t: TaskRecord, me: Seq<char>) -> bool {
    me.len() == 0 || t.assignee@ == me || my_entry(t.team@, me, 0).is_some()
}

/// The user's open tasks with an id, as plain values, in order.
pub open spec fn my_tasks_spec(ts: Seq<TaskRecord>, me: Seq<char>) -> Seq<(Seq<char>, Seq<char>, Seq<char>, Seq<char>)>
    decreases ts.len(),
{
    if ts.len() == 0 {
        Seq::empty()
    } else {
        let r = my_tasks_spec(ts.drop_last(), me);
        let t = ts.last();
        if !closed_status(t.status@) && is_mine(t, me) && t.id@.len() > 0 {
            r.push((t.id@, t.title@, t.priority@, t.deadline@))
        } else {
            r
        }
    }
}

/// The user's open tasks, for spotting newly assigned ones.
pub fn my_task_refs(tasks: &Vec<TaskRecord>, me: &String) -> (r: Vec<TrackedTask>)
    ensures
        r@.map_values(|t: TrackedTask| (t.id@, t.title@, t.priority@, t.deadline@)) == my_tasks_spec(tasks@, me@),
{
    let mut out: Vec<TrackedTask> = Vec::new();
    let mut i: usize = 0;
    assert(tasks@.take(0) =~= Seq::<TaskRecord>::empty());
    while i < tasks.len()
        invariant
            i <= tasks.len(),
            out@.map_values(|t: TrackedTask| (t.id@, t.title@, t.priority@, t.deadline@)) == my_tasks_spec(tasks@.take(i as int), me@),
        decreases tasks.len() - i,
    {
        let t = &tasks[i];
        assert(tasks@.take(i + 1).drop_last() =~= tasks@.take(i as int));
        assert(tasks@.take(i + 1).last() == *t);
        let mine = me.as_str().is_empty() || t.assignee == *me || my_entry_exec(&t.team, me).is_some();
        if !is_closed(t.status.as_str()) && mine && !t.id.as_str().is_empty() {
            let ghost before = out@.map_values(|t: TrackedTask| (t.id@, t.title@, t.priority@, t.deadline@));
            out.push(TrackedTask { id: t.id.clone(), title: t.title.clone(), priority: t.priority.clone(), deadline: t.deadline.clone() });
            assert(out@.map_values(|t: TrackedTask| (t.id@, t.title@, t.priority@, t.deadline@)) =~= before.push(
                (t.id@, t.title@, t.priority@, t.deadline@),
            ));
        }
        i = i + 1;
    }
    assert(tasks@.take(tasks.len() as int) =~= tasks@);
    out
}

/// A reminder the desktop pet shows.
#[derive(Debug, Clone)]
pub struct ProactiveReminder {
    pub text: String,
    pub emoji: String,
    pub state: String,
}

/// An open task whose deadline date (its first 10 bytes) sorts before
/// `today` (overdue) or equals it (due today); `(overdue, due today)` over
/// the first `n` tasks.
pub open spec fn due_flags(ts: Seq<TaskRecord>, today: Seq<char>) -> (bool, bool)
    decreases ts.len(),
{
    if ts.len() == 0 {
        (false, false)
    } else {
        let (o, t) = due_flags(ts.drop_last(), today);
        let x = ts.last();
        let k = cut10(x.deadline@, 0, 0);
        if k < 0 || closed_status(x.status@) {
            (o, t)
        } else {
            let dl = x.deadline@.take(k);
            (o || str_lt(dl, today), t || (!str_lt(dl, today) && dl == today))
        }
    }
}

/// Which reminders to show: one when a task is overdue, one when a task is
/// due today.
pub fn proactive_reminders(tasks: &Vec<TaskRecord>, today: &str) -> (r: Vec<ProactiveReminder>)
    requires
        forall|i: int| 0 <= i < tasks.len() && !closed_status(#[trigger] tasks@[i].status@) && cut10(tasks@[i].deadline@, 0, 0) != -1 ==> deadline_readable(tasks@[i].deadline@),
    ensures
        r@.map_values(|x: ProactiveReminder| (x.text@, x.emoji@, x.state@)) == {
            let (o, t) = due_flags(tasks@, today@);
            let a: Seq<(Seq<char>, Seq<char>, Seq<char>)> = if o {
                seq![("⚠️ 有任务已延期，建议优先处理"@, "🔥"@, "warning"@)]
            } else {
                Seq::empty()
            };
            if t {
                a.push(("⏰ 今天有任务即将截止"@, "📌"@, "thinking"@))
            } else {
                a
            }
        },
{
    let tv = chars_of(today);
    let mut overdue = false;
    let mut due_today = false;
    let mut i: usize = 0;
    assert(tasks@.take(0) =~= Seq::<TaskRecord>::empty());
    while i < tasks.len()
        invariant
            i <= tasks.len(),
            tv@ == today@,
            (overdue, due_today) == due_flags(tasks@.take(i as int), today@),
        decreases tasks.len() - i,
    {
        let t = &tasks[i];
        assert(tasks@.take(i + 1).drop_last() =~= tasks@.take(i as int));
        assert(tasks@.take(i + 1).last() == *t);
        let d = chars_of(t.deadline.as_str());
        let k = cut10_exec(&d);
        if k >= 0 && !is_closed(t.status.as_str()) {
            assert(k <= d.len()) by {
                lemma_cut10_bound(d@, 0, 0);
            }
            let dl = slice_chars(&d, 0, k as usize);
            assert(dl@ =~= d@.take(k as int));
            if str_less(&dl, &tv) {
                overdue = true;
            } else if seq_eq(&dl, &tv) {
                due_today = true;
            }
        }
        i = i + 1;
    }
    assert(tasks@.take(tasks.len() as int) =~= tasks@);
    let mut out: Vec<ProactiveReminder> = Vec::new();
    if overdue {
        out.push(ProactiveReminder { text: owned("⚠️ 有任务已延期，建议优先处理"), emoji: owned("🔥"), state: owned("warning") });
    }
    if due_today {
        out.push(ProactiveReminder { text: owned("⏰ 今天有任务即将截止"), emoji: owned("📌"), state: owned("thinking") });
    }
    assert(out@.map_values(|x: ProactiveReminder| (x.text@, x.emoji@, x.state@)) =~= {
        let a: Seq<(Seq<char>, Seq<char>, Seq<char>)> = if overdue {
            seq![("⚠️ 有任务已延期，建议优先处理"@, "🔥"@, "warning"@)]
        } else {
            Seq::empty()
        };
        if due_today {
            a.push(("⏰ 今天有任务即将截止"@, "📌"@, "thinking"@))
        } else {
            a
        }
    });
    out
}

} // verus!
