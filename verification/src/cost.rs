//! Project cost report helpers: the people who worked on a project, how
//! their names are shown, which dates a report covers, and which days are
//! working days.

use vstd::prelude::*;
use crate::commit_link::{contains_string, dedup, strs};
use crate::tasks::{parse_ymd_days, ymd_days};
use crate::text::{owned, trim, trim_seq};

verus! {

/// A person who logged time on a project (the name serves as account).
#[derive(Debug, Clone)]
pub struct MemberBrief {
    pub account: String,
    pub realname: String,
}

/// One effort record as the member list reads it.
#[derive(Debug, Clone)]
pub struct EffortEntry {
    pub project_name: String,
    pub employee: String,
}

/// The trimmed names of the people with records on exactly this project, in
/// order of first appearance (blank names skipped, duplicates dropped).
pub open spec fn members_spec(rs: Seq<EffortEntry>, project: Seq<char>) -> Seq<Seq<char>> {
    dedup(member_names(rs, project))
}

/// The trimmed, non-blank employee names of the records of `project`.
pub open spec fn member_names(rs: Seq<EffortEntry>, project: Seq<char>) -> Seq<Seq<char>>
    decreases rs.len(),
{
    if rs.len() == 0 {
        Seq::empty()
    } else {
        let r = member_names(rs.drop_last(), project);
        let e = rs.last();
        if e.project_name@ == project && trim_seq(e.employee@).len() > 0 {
            r.push(trim_seq(e.employee@))
        } else {
            r
        }
    }
}

/// The members of a project, each once, in order of first appearance.
pub fn team_members(records: &Vec<EffortEntry>, project_name: &str) -> (r: Vec<MemberBrief>)
    ensures
        r@.map_values(|m: MemberBrief| m.account@) == members_spec(records@, project_name@),
        forall|k: int| 0 <= k < r.len() ==> (#[trigger] r@[k]).realname@ == r@[k].account@,
{
    let mut names: Vec<String> = Vec::new();
    let mut out: Vec<MemberBrief> = Vec::new();
    let mut i: usize = 0;
    assert(records@.take(0) =~= Seq::<EffortEntry>::empty());
    while i < records.len()
        invariant
            i <= records.len(),
            strs(names) == dedup(member_names(records@.take(i as int), project_name@)),
            out@.map_values(|m: MemberBrief| m.account@) == strs(names),
            forall|k: int| 0 <= k < out.len() ==> (#[trigger] out@[k]).realname@ == out@[k].account@,
        decreases records.len() - i,
    {
        let r = &records[i];
        assert(records@.take(i + 1).drop_last() =~= records@.take(i as int));
        assert(records@.take(i + 1).last() == *r);
        let e = trim(r.employee.as_str());
        if crate::text::seq_eq(&crate::text::chars_of(r.project_name.as_str()), &crate::text::chars_of(project_name)) && !e.as_str().is_empty() {
            let ghost before = member_names(records@.take(i as int), project_name@);
            assert(member_names(records@.take(i + 1), project_name@) == before.push(e@));
            assert(before.push(e@).drop_last() =~= before);
            assert(before.push(e@).last() == e@);
            if !contains_string(&names, &e) {
                let ghost nb = strs(names);
                let ghost ob = out@.map_values(|m: MemberBrief| m.account@);
                names.push(e.clone());
                out.push(MemberBrief { account: e.clone(), realname: e });
                assert(strs(names) =~= nb.push(names@[names.len() - 1]@));
                assert(out@.map_values(|m: MemberBrief| m.account@) =~= ob.push(out@[out.len() - 1].account@));
            }
        }
        i = i + 1;
    }
    assert(records@.take(records.len() as int) =~= records@);
    out
}

/// The name shown for a person: the override from the rate table when it
/// is set and differs from the name, else the name itself.
pub fn display_name_for(employee: &String, override_name: Option<&String>) -> (r: String)
    ensures
        r@ == match override_name {
            Some(d) => if d@.len() > 0 && d@ != employee@ {
                d@
            } else {
                employee@
            },
            None => employee@,
        },
{
    match override_name {
        Some(d) => if !d.as_str().is_empty() && *d != *employee {
            d.clone()
        } else {
            employee.clone()
        },
        None => employee.clone(),
    }
}

/// A cost report's date range: the dates given when not empty, else from the
/// first of the current month to today.
pub fn cost_date_range(start: Option<&str>, end: Option<&str>, month_start: &str, today: &str) -> (r: (String, String))
    ensures
        r.0@ == match start {
            Some(s) => if s@.len() > 0 {
                s@
            } else {
                month_start@
            },
            None => month_start@,
        },
        r.1@ == match end {
            Some(e) => if e@.len() > 0 {
                e@
            } else {
                today@
            },
            None => today@,
        },
{
    let b = match start {
        Some(s) => if !s.is_empty() {
            owned(s)
        } else {
            owned(month_start)
        },
        None => owned(month_start),
    };
    let e = match end {
        Some(x) => if !x.is_empty() {
            owned(x)
        } else {
            owned(today)
        },
        None => owned(today),
    };
    (b, e)
}

/// The employee-status filter of a cost query: everybody when people who
/// left are included, else only current staff (`0`).
pub fn user_status_for(include_resigned: bool) -> (r: &'static str)
    ensures
        include_resigned ==> r@ == ""@,
        !include_resigned ==> r@ == "0"@,
{
    if include_resigned {
        ""
    } else {
        "0"
    }
}

/// First and last day (days since the common era) the holiday table covers:
/// 2004-01-01 to 2026-12-25.
pub open spec fn holiday_table_covers(days: int) -> bool {
    731581 <= days <= 739975
}

/// Whether the `chinese_holiday` table makes day `days` (days since the
/// common era) a working day, adjusted working weekends included.
pub uninterp spec fn table_workday(days: i64) -> bool;

/// `chinese_holiday::chinese_holiday(&date).is_workday()` for the date
/// `days` days after the start of the common era. The crate asserts that the
/// date lies in the years it covers, hence the requirement. The answer is
/// named, not stated.
#[verifier::external_body]
fn workday_of(days: i64) -> (r: bool)
    requires
        holiday_table_covers(days as int),
    ensures
        r == table_workday(days),
{
    let d = chrono::NaiveDate::from_num_days_from_ce_opt(days as i32).unwrap();
    chinese_holiday::chinese_holiday(&d).is_workday()
}

/// The working-day answer once the date has been parsed: a date that does
/// not parse counts as a working day; a date the holiday table does not
/// cover has no answer (`None`).
pub fn workday_after_parse(days: Option<i64>) -> (r: Option<bool>)
    ensures
        r == match days {
            None => Some(true),
            Some(d) => if holiday_table_covers(d as int) {
                Some(table_workday(d))
            } else {
                None
            },
        },
{
    match days {
        None => Some(true),
        Some(d) => if 731581 <= d && d <= 739975 {
            Some(workday_of(d))
        } else {
            None
        },
    }
}

/// Whether a `YYYY-MM-DD` day is a working day in mainland China (overtime
/// is counted differently on rest days).
pub fn is_workday(date: &str) -> (r: Option<bool>)
    ensures
        r == match ymd_days(date@) {
            None => Some(true),
            Some(d) => if holiday_table_covers(d as int) {
                Some(table_workday(d))
            } else {
                None
            },
        },
{
    workday_after_parse(parse_ymd_days(date))
}

} // verus!
