//! Scheduled-reminder chat commands: `定时 17:30 写日报` adds one,
//! `定时列表` lists them, `删除定时 N` removes the N-th. The functions here work
//! on the reminder list in memory; reading and saving it is the caller's.

use vstd::prelude::*;
use crate::channels::AgentReply;
use crate::router::{parse_reminder_input, reminder_spec};
use crate::text::{
    chars_of, decimal_seq, decimal_string, parse_usize, parse_usize_spec, push_str,
    seq_starts_with, signed_decimal_seq, signed_decimal_string, slice_chars, starts_with_chars,
    string_of, strip_repeated, trim_chars, trim_seq, trim_start_matches_chars, seq_eq,
};

verus! {

/// One saved reminder.
#[derive(Debug, Clone)]
pub struct ScheduledReminder {
    pub id: String,
    pub cron: String,
    pub message: String,
    pub enabled: bool,
    pub created_at: i64,
}

/// Index (0-based) named by `text` when it is `pat` followed by a positive
/// decimal number (surrounding white space allowed).
pub open spec fn delete_index_after(s: Seq<char>, pat: Seq<char>) -> Option<nat> {
    if seq_starts_with(s, pat) {
        match parse_usize_spec(trim_seq(s.subrange(pat.len() as int, s.len() as int))) {
            Some(n) => if n > 0 {
                Some((n - 1) as nat)
            } else {
                None
            },
            None => None,
        }
    } else {
        None
    }
}

/// The reminder a delete command names, trying its four spellings in order.
pub open spec fn delete_index_spec(s: Seq<char>) -> Option<nat> {
    match delete_index_after(s, "删除定时 "@) {
        Some(n) => Some(n),
        None => match delete_index_after(s, "删除提醒 "@) {
            Some(n) => Some(n),
            None => match delete_index_after(s, "取消定时 "@) {
                Some(n) => Some(n),
                None => delete_index_after(s, "取消提醒 "@),
            },
        },
    }
}

fn delete_index_after_exec(v: &Vec<char>, pat: &str) -> (r: Option<usize>)
    ensures
        match r {
            Some(n) => delete_index_after(v@, pat@) == Some(n as nat),
            None => delete_index_after(v@, pat@).is_none(),
        },
{
    let p = chars_of(pat);
    if !starts_with_chars(v, &p) {
        return None;
    }
    let rest = slice_chars(v, p.len(), v.len());
    let t = trim_chars(&rest);
    match parse_usize(&t) {
        Some(n) => if n > 0 {
            Some(n - 1)
        } else {
            None
        },
        None => None,
    }
}

/// Index (0-based) of the reminder a `删除定时 N` / `删除提醒 N` / `取消定时 N` /
/// `取消提醒 N` command names; `None` for any other text or for `N = 0`.
pub fn try_parse_delete_reminder(text: &str) -> (r: Option<usize>)
    ensures
        match r {
            Some(n) => delete_index_spec(text@) == Some(n as nat),
            None => delete_index_spec(text@).is_none(),
        },
{
    let v = chars_of(text);
    match delete_index_after_exec(&v, "删除定时 ") {
        Some(n) => return Some(n),
        None => {},
    }
    match delete_index_after_exec(&v, "删除提醒 ") {
        Some(n) => return Some(n),
        None => {},
    }
    match delete_index_after_exec(&v, "取消定时 ") {
        Some(n) => return Some(n),
        None => {},
    }
    delete_index_after_exec(&v, "取消提醒 ")
}

/// One line of the reminder list: `N. ✅ cron — message` (`⏸` when disabled).
pub open spec fn reminder_line(n: nat, r: ScheduledReminder) -> Seq<char> {
    decimal_seq(n) + ". "@ + (if r.enabled {
        "✅"@
    } else {
        "⏸"@
    }) + " "@ + r.cron@ + " — "@ + r.message@
}

/// The numbered lines of the list, each preceded by a line break.
pub open spec fn reminder_lines(rs: Seq<ScheduledReminder>) -> Seq<char>
    decreases rs.len(),
{
    if rs.len() == 0 {
        Seq::empty()
    } else {
        reminder_lines(rs.drop_last()) + "\n"@ + reminder_line(rs.len(), rs.last())
    }
}

/// Text of the `定时列表` reply.
pub open spec fn list_text(rs: Seq<ScheduledReminder>) -> Seq<char> {
    if rs.len() == 0 {
        "当前没有定时提醒。发送「定时 17:30 写日报」来添加。"@
    } else {
        "📋 定时提醒列表："@ + reminder_lines(rs) + "\n"@ + "\n发送「删除定时 N」删除指定提醒"@
    }
}

fn reminder_line_string(n: u64, r: &ScheduledReminder) -> (s: String)
    ensures
        s@ == reminder_line(n as nat, *r),
{
    let mut s = decimal_string(n);
    push_str(&mut s, ". ");
    if r.enabled {
        push_str(&mut s, "✅");
    } else {
        push_str(&mut s, "⏸");
    }
    push_str(&mut s, " ");
    push_str(&mut s, r.cron.as_str());
    push_str(&mut s, " — ");
    push_str(&mut s, r.message.as_str());
    s
}

/// The reply to `定时列表`: every reminder, numbered from 1.
pub fn list_reminder(reminders: &Vec<ScheduledReminder>) -> (r: AgentReply)
    ensures
        r.text@ == list_text(reminders@),
{
    if reminders.len() == 0 {
        return AgentReply { text: string_of(&chars_of("当前没有定时提醒。发送「定时 17:30 写日报」来添加。")) };
    }
    let mut text = string_of(&chars_of("📋 定时提醒列表："));
    let mut i: usize = 0;
    while i < reminders.len()
        invariant
            i <= reminders.len(),
            text@ == "📋 定时提醒列表："@ + reminder_lines(reminders@.take(i as int)),
        decreases reminders.len() - i,
    {
        assert(reminders@.take(i + 1).drop_last() =~= reminders@.take(i as int));
        push_str(&mut text, "\n");
        let line = reminder_line_string((i + 1) as u64, &reminders[i]);
        push_str(&mut text, line.as_str());
        i = i + 1;
        assert(text@ =~= "📋 定时提醒列表："@ + reminder_lines(reminders@.take(i as int)));
    }
    assert(reminders@.take(reminders.len() as int) =~= reminders@);
    push_str(&mut text, "\n");
    push_str(&mut text, "\n发送「删除定时 N」删除指定提醒");
    assert(text@ =~= list_text(reminders@));
    AgentReply { text }
}

/// Text of the reply when there is no reminder number `index + 1`.
pub open spec fn missing_text(index: nat, count: nat) -> Seq<char> {
    "没有第 "@ + decimal_seq(index + 1) + " 个提醒，当前共 "@ + decimal_seq(count) + " 个。"@
}

/// Text of the reply after removing `r`.
pub open spec fn deleted_text(r: ScheduledReminder) -> Seq<char> {
    "已删除定时提醒："@ + r.cron@ + " — "@ + r.message@
}

/// What deleting reminder `index` does: out of range, nothing changes and the
/// reply gives the count; otherwise exactly that reminder leaves the list.
pub open spec fn delete_outcome(
    before: Seq<ScheduledReminder>,
    after: Seq<ScheduledReminder>,
    index: nat,
    reply: Seq<char>,
) -> bool {
    &&& index >= before.len() ==> after == before && reply == missing_text(index, before.len())
    &&& index < before.len() ==> after == before.remove(index as int) && reply == deleted_text(
        before[index as int],
    )
}

/// Removes reminder `index` (0-based). When there is no such reminder the
/// list stays as it is and the reply says how many there are.
pub fn delete_reminder(reminders: &mut Vec<ScheduledReminder>, index: usize) -> (r: AgentReply)
    requires
        index < usize::MAX,
    ensures
        delete_outcome(old(reminders)@, final(reminders)@, index as nat, r.text@),
{
    if index >= reminders.len() {
        let mut text = string_of(&chars_of("没有第 "));
        let a = decimal_string((index + 1) as u64);
        push_str(&mut text, a.as_str());
        push_str(&mut text, " 个提醒，当前共 ");
        let b = decimal_string(reminders.len() as u64);
        push_str(&mut text, b.as_str());
        push_str(&mut text, " 个。");
        assert(text@ =~= missing_text(index as nat, reminders.len() as nat));
        return AgentReply { text };
    }
    let removed = reminders.remove(index);
    let mut text = string_of(&chars_of("已删除定时提醒："));
    push_str(&mut text, removed.cron.as_str());
    push_str(&mut text, " — ");
    push_str(&mut text, removed.message.as_str());
    assert(text@ =~= deleted_text(removed));
    AgentReply { text }
}

/// The reminder text left once the command word (`添加定时`, `添加提醒`, `定时`,
/// each repeated any number of times, in that order) is cut off.
pub open spec fn add_body(s: Seq<char>) -> Seq<char> {
    trim_seq(strip_repeated(strip_repeated(strip_repeated(s, "添加定时"@), "添加提醒"@), "定时"@))
}

/// Reply to a reminder command whose body does not parse.
pub open spec fn usage_text() -> Seq<char> {
    "格式不对。用法：\n定时 17:30 写日报\n定时 30 8 * * 1-5 晨会\n定时列表\n删除定时 1"@
}

/// Reply after adding a reminder.
pub open spec fn added_text(cron: Seq<char>, message: Seq<char>) -> Seq<char> {
    "已添加定时提醒：\nCron: "@ + cron + "\n内容: "@ + message
        + "\n\n用「定时列表」查看所有提醒，「删除定时 N」删除。"@
}

/// What an add command does: with an unparsable body nothing changes and the
/// usage is returned; otherwise one enabled reminder, stamped `now_ms`, is
/// appended.
pub open spec fn add_outcome(
    before: Seq<ScheduledReminder>,
    after: Seq<ScheduledReminder>,
    command: Seq<char>,
    now_ms: i64,
    reply: Seq<char>,
) -> bool {
    let (cron, message) = reminder_spec(add_body(command));
    &&& message.len() == 0 ==> after == before && reply == usage_text()
    &&& message.len() > 0 ==> {
        &&& after.len() == before.len() + 1
        &&& after.take(before.len() as int) == before
        &&& after.last().id@ == seq!['r'] + signed_decimal_seq(now_ms as int)
        &&& after.last().cron@ == cron
        &&& after.last().message@ == message
        &&& after.last().enabled
        &&& after.last().created_at == now_ms
        &&& reply == added_text(cron, message)
    }
}

/// Adds the reminder an add command (`定时 17:30 写日报`,
/// `添加定时 30 8 * * 1-5 晨会`, ...) describes, stamped with `now_ms`.
pub fn add_reminder(reminders: &mut Vec<ScheduledReminder>, text: &str, now_ms: i64) -> (r: AgentReply)
    ensures
        add_outcome(old(reminders)@, final(reminders)@, text@, now_ms, r.text@),
{
    let v = chars_of(text);
    let a = trim_start_matches_chars(&v, &chars_of("添加定时"));
    let b = trim_start_matches_chars(&a, &chars_of("添加提醒"));
    let c = trim_start_matches_chars(&b, &chars_of("定时"));
    let body = string_of(&trim_chars(&c));
    let (cron, message) = parse_reminder_input(body.as_str());
    if message.as_str().is_empty() {
        return AgentReply { text: string_of(&chars_of("格式不对。用法：\n定时 17:30 写日报\n定时 30 8 * * 1-5 晨会\n定时列表\n删除定时 1")) };
    }
    let mut id = string_of(&chars_of("r"));
    let stamp = signed_decimal_string(now_ms);
    push_str(&mut id, stamp.as_str());
    let mut text = string_of(&chars_of("已添加定时提醒：\nCron: "));
    push_str(&mut text, cron.as_str());
    push_str(&mut text, "\n内容: ");
    push_str(&mut text, message.as_str());
    push_str(&mut text, "\n\n用「定时列表」查看所有提醒，「删除定时 N」删除。");
    proof {
        reveal_strlit("r");
    }
    assert(id@ =~= seq!['r'] + signed_decimal_seq(now_ms as int));
    assert(text@ =~= added_text(cron@, message@));
    let ghost before = reminders@;
    reminders.push(ScheduledReminder { id, cron, message, enabled: true, created_at: now_ms });
    assert(reminders@.take(before.len() as int) =~= before);
    AgentReply { text }
}

/// `t` is one of the list commands.
pub open spec fn is_list_command(t: Seq<char>) -> bool {
    t == "定时列表"@ || t == "提醒列表"@ || t == "我的定时"@
}

/// `t` starts like an add command.
pub open spec fn is_add_command(t: Seq<char>) -> bool {
    seq_starts_with(t, "定时"@) || seq_starts_with(t, "添加定时"@) || seq_starts_with(t, "添加提醒"@)
}

/// Handles a reminder command sent on a channel. The trimmed text is, in this
/// order of precedence, a list command, a delete command or an add command;
/// any other text is not a reminder command (`None`, list unchanged).
pub fn maybe_handle_reminder_command(
    reminders: &mut Vec<ScheduledReminder>,
    text: &str,
    now_ms: i64,
) -> (r: Option<AgentReply>)
    ensures
        ({
            let t = trim_seq(text@);
            if is_list_command(t) {
                r.is_some() && r.unwrap().text@ == list_text(old(reminders)@) && final(reminders)@
                    == old(reminders)@
            } else if delete_index_spec(t).is_some() {
                r.is_some() && delete_outcome(
                    old(reminders)@,
                    final(reminders)@,
                    delete_index_spec(t).unwrap(),
                    r.unwrap().text@,
                )
            } else if is_add_command(t) {
                r.is_some() && add_outcome(
                    old(reminders)@,
                    final(reminders)@,
                    t,
                    now_ms,
                    r.unwrap().text@,
                )
            } else {
                r.is_none() && final(reminders)@ == old(reminders)@
            }
        }),
{
    let tv = trim_chars(&chars_of(text));
    let t = string_of(&tv);
    if seq_eq(&tv, &chars_of("定时列表")) || seq_eq(&tv, &chars_of("提醒列表")) || seq_eq(
        &tv,
        &chars_of("我的定时"),
    ) {
        return Some(list_reminder(reminders));
    }
    match try_parse_delete_reminder(t.as_str()) {
        Some(idx) => {
            return Some(delete_reminder(reminders, idx));
        },
        None => {},
    }
    if starts_with_chars(&tv, &chars_of("定时")) || starts_with_chars(&tv, &chars_of("添加定时"))
        || starts_with_chars(&tv, &chars_of("添加提醒")) {
        return Some(add_reminder(reminders, t.as_str(), now_ms));
    }
    None
}

} // verus!
