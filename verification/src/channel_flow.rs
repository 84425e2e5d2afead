//! The chat-channel conversation rules around the model: confirming or
//! cancelling a pending tracker write, the messages of a plain chat, the
//! text shown from an agent run, and the work description read out of a
//! message that asks to log effort.

use vstd::prelude::*;
use crate::channels::{file_safe_char, is_ascii_alnum, trim_history};
use crate::config_merge::copy_json;
use crate::config_json::{Json, JsonView, jview, jviews, member, fields_of, str_member, member_of, lemma_jviews};
use crate::text::{
    chars_of, is_whitespace, is_ws, owned, push_char, push_str, replace_chars, replace_seq, seq_eq,
    slice_chars, string_of, trim, trim_chars, trim_seq,
};

verus! {

/// A reply to a pending write: `Some(true)` to confirm (`确认`, `confirm`),
/// `Some(false)` to cancel (`取消`, `cancel`), none for anything else; the
/// message is trimmed first.
pub open spec fn confirmation_spec(text: Seq<char>) -> Option<bool> {
    let t = trim_seq(text);
    if t == "确认"@ || t == "confirm"@ {
        Some(true)
    } else if t == "取消"@ || t == "cancel"@ {
        Some(false)
    } else {
        None
    }
}

/// Whether a message confirms or cancels the pending write, if it answers it.
pub fn confirmation_of(text: &str) -> (r: Option<bool>)
    ensures
        r == confirmation_spec(text@),
{
    let t = trim_chars(&chars_of(text));
    if seq_eq(&t, &chars_of("确认")) || seq_eq(&t, &chars_of("confirm")) {
        Some(true)
    } else if seq_eq(&t, &chars_of("取消")) || seq_eq(&t, &chars_of("cancel")) {
        Some(false)
    } else {
        None
    }
}

/// The tool that carries out a confirmed pending write of kind `kind`, or
/// the error for an unknown kind.
pub open spec fn pending_tool_spec(kind: Seq<char>) -> Result<Seq<char>, Seq<char>> {
    if kind == "log-task-effort"@ {
        Ok("log-task-effort"@)
    } else if kind == "mcp-deploy"@ {
        Ok("confirm-deploy"@)
    } else {
        Err("未知待确认操作: "@ + kind)
    }
}

/// The tool that carries out a confirmed pending write.
pub fn pending_tool_for(kind: &str) -> (r: Result<String, String>)
    ensures
        match r {
            Ok(t) => pending_tool_spec(kind@) == Ok::<Seq<char>, Seq<char>>(t@),
            Err(e) => pending_tool_spec(kind@) == Err::<Seq<char>, Seq<char>>(e@),
        },
{
    let k = chars_of(kind);
    if seq_eq(&k, &chars_of("log-task-effort")) {
        Ok(owned("log-task-effort"))
    } else if seq_eq(&k, &chars_of("mcp-deploy")) {
        Ok(owned("confirm-deploy"))
    } else {
        let mut e = owned("未知待确认操作: ");
        push_str(&mut e, kind);
        Err(e)
    }
}

/// The file name a pending write is kept under: its id with every
/// character that is not an ASCII letter or digit turned into `_`, then
/// `.json`.
pub fn pending_file_name(id: &str) -> (r: String)
    ensures
        r@ == id@.map_values(|c: char| file_safe_char(c)) + ".json"@,
{
    let v = chars_of(id);
    let mut s = String::new();
    let mut i: usize = 0;
    while i < v.len()
        invariant
            i <= v.len(),
            v@ == id@,
            s@ == id@.take(i as int).map_values(|c: char| file_safe_char(c)),
        decreases v.len() - i,
    {
        let c = v[i];
        let safe = if ('0' <= c && c <= '9') || ('a' <= c && c <= 'z') || ('A' <= c && c <= 'Z') {
            c
        } else {
            '_'
        };
        push_char(&mut s, safe);
        assert(id@.take(i + 1).map_values(|c: char| file_safe_char(c)) =~= id@.take(i as int).map_values(
            |c: char| file_safe_char(c),
        ).push(file_safe_char(v@[i as int])));
        i = i + 1;
    }
    assert(id@.take(i as int) =~= id@);
    push_str(&mut s, ".json");
    s
}

/// The system prompt of a plain chat on a channel.
pub open spec fn plain_chat_prompt(name: Seq<char>, title: Seq<char>) -> Seq<char> {
    "你是 "@ + name + "，正在通过 QQ/Telegram 和"@ + title
        + "聊天。请用中文自然、简洁地回答。遇到禅道任务、工时、风险、日报、项目进展等工作请求时，可以提示用户直接说明具体需求。"@
}

/// A history message as it goes into a plain chat: its role and trimmed
/// content, unless it is a tool message, carries tool calls, or has no
/// text.
pub open spec fn plain_entry(m: JsonView) -> Option<(Seq<char>, Seq<char>)> {
    let role = match str_member(m, "role"@) {
        Some(r) => r,
        None => Seq::empty(),
    };
    let content = match str_member(m, "content"@) {
        Some(c) => trim_seq(c),
        None => Seq::empty(),
    };
    if role == "tool"@ || member(fields_of(m), "tool_calls"@).is_some() || content.len() == 0 {
        None
    } else {
        Some((role, content))
    }
}

/// The plain-chat entries of the first `n` history messages.
pub open spec fn plain_entries(ms: Seq<JsonView>, n: int) -> Seq<(Seq<char>, Seq<char>)>
    decreases n,
{
    if n <= 0 {
        Seq::empty()
    } else {
        match plain_entry(ms[n - 1]) {
            Some(e) => plain_entries(ms, n - 1).push(e),
            None => plain_entries(ms, n - 1),
        }
    }
}

fn plain_entry_exec(m: &Json) -> (r: Option<(String, String)>)
    ensures
        match r {
            Some((a, b)) => plain_entry(jview(*m)) == Some((a@, b@)),
            None => plain_entry(jview(*m)).is_none(),
        },
{
    let role: String = match member_of(m, "role") {
        Some(Json::Str(s)) => owned(s.as_str()),
        _ => String::new(),
    };
    let content: String = match member_of(m, "content") {
        Some(Json::Str(s)) => trim(s.as_str()),
        _ => String::new(),
    };
    let has_calls = match member_of(m, "tool_calls") {
        Some(_) => true,
        None => false,
    };
    if seq_eq(&chars_of(role.as_str()), &chars_of("tool")) || has_calls || content.as_str().is_empty() {
        None
    } else {
        Some((role, content))
    }
}

/// The messages of a plain chat (no tools) on a channel: the system prompt
/// naming the assistant and how to address the user, then the history
/// without tool messages, messages with tool calls, and blank ones, each
/// trimmed.
pub fn plain_chat_messages(history: &Vec<Json>, assistant_name: &str, user_title: &str) -> (r: Vec<(String, String)>)
    ensures
        r@.map_values(|e: (String, String)| (e.0@, e.1@)) == seq![("system"@, plain_chat_prompt(assistant_name@, user_title@))]
            + plain_entries(jviews(history@), history.len() as int),
{
    let mut out: Vec<(String, String)> = Vec::new();
    let mut sys = owned("你是 ");
    push_str(&mut sys, assistant_name);
    push_str(&mut sys, "，正在通过 QQ/Telegram 和");
    push_str(&mut sys, user_title);
    push_str(
        &mut sys,
        "聊天。请用中文自然、简洁地回答。遇到禅道任务、工时、风险、日报、项目进展等工作请求时，可以提示用户直接说明具体需求。",
    );
    out.push((owned("system"), sys));
    proof {
        lemma_jviews(history@);
    }
    let ghost hv = jviews(history@);
    let ghost head = seq![("system"@, plain_chat_prompt(assistant_name@, user_title@))];
    let mut i: usize = 0;
    while i < history.len()
        invariant
            i <= history.len(),
            hv == jviews(history@),
            hv.len() == history.len(),
            forall|k: int| 0 <= k < history.len() ==> #[trigger] hv[k] == jview(history@[k]),
            head == seq![("system"@, plain_chat_prompt(assistant_name@, user_title@))],
            out@.map_values(|e: (String, String)| (e.0@, e.1@)) == head + plain_entries(hv, i as int),
        decreases history.len() - i,
    {
        let ghost before = out@;
        match plain_entry_exec(&history[i]) {
            Some((role, content)) => {
                out.push((role, content));
                assert(out@.map_values(|e: (String, String)| (e.0@, e.1@)) =~= before.map_values(
                    |e: (String, String)| (e.0@, e.1@),
                ).push((role@, content@)));
                assert(head + plain_entries(hv, i + 1) =~= (head + plain_entries(hv, i as int)).push(
                    (role@, content@),
                ));
            },
            None => {},
        }
        i = i + 1;
    }
    out
}

/// The text of the last assistant message among the first `n`: its
/// trimmed content, none when that is missing or blank (or there is no
/// assistant message).
pub open spec fn last_assistant_spec(ms: Seq<JsonView>, n: int) -> Option<Seq<char>>
    decreases n,
{
    if n <= 0 {
        None
    } else if str_member(ms[n - 1], "role"@) == Some("assistant"@) {
        match str_member(ms[n - 1], "content"@) {
            Some(c) => if trim_seq(c).len() > 0 {
                Some(trim_seq(c))
            } else {
                None
            },
            None => None,
        }
    } else {
        last_assistant_spec(ms, n - 1)
    }
}

/// What an agent run said last: the trimmed content of the last assistant
/// message, none when it is blank.
pub fn last_assistant_text(messages: &Vec<Json>) -> (r: Option<String>)
    ensures
        match r {
            Some(t) => last_assistant_spec(jviews(messages@), messages.len() as int) == Some(t@),
            None => last_assistant_spec(jviews(messages@), messages.len() as int).is_none(),
        },
{
    proof {
        lemma_jviews(messages@);
    }
    let ghost mv = jviews(messages@);
    let mut n: usize = messages.len();
    while n > 0
        invariant
            n <= messages.len(),
            mv == jviews(messages@),
            mv.len() == messages.len(),
            forall|k: int| 0 <= k < messages.len() ==> #[trigger] mv[k] == jview(messages@[k]),
            last_assistant_spec(mv, messages.len() as int) == last_assistant_spec(mv, n as int),
        decreases n,
    {
        let m = &messages[n - 1];
        let is_assistant = match member_of(m, "role") {
            Some(Json::Str(s)) => seq_eq(&chars_of(s.as_str()), &chars_of("assistant")),
            _ => false,
        };
        if is_assistant {
            return match member_of(m, "content") {
                Some(Json::Str(c)) => {
                    let t = trim(c.as_str());
                    if t.as_str().is_empty() {
                        None
                    } else {
                        Some(t)
                    }
                },
                _ => None,
            };
        }
        n = n - 1;
    }
    None
}

/// The reply that shows a proposed tracker write and asks for confirmation.
pub fn pending_reply_text(agent_text: &str, summary: &str) -> (r: String)
    ensures
        r@ == agent_text@ + "\n\n我准备写入禅道：\n"@ + summary@ + "\n\n回复\u{201c}确认\u{201d}后我再执行；回复\u{201c}取消\u{201d}则放弃。"@,
{
    let mut s = owned(agent_text);
    push_str(&mut s, "\n\n我准备写入禅道：\n");
    push_str(&mut s, summary);
    push_str(&mut s, "\n\n回复\u{201c}确认\u{201d}后我再执行；回复\u{201c}取消\u{201d}则放弃。");
    s
}


/// `s` with every occurrence of `pat` removed (nothing for an empty `pat`).
pub open spec fn remove_all(s: Seq<char>, pat: Seq<char>) -> Seq<char> {
    if pat.len() == 0 {
        s
    } else {
        replace_seq(s, pat, Seq::empty())
    }
}

/// Request words taken out of an effort message to leave the work done.
pub open spec fn request_words() -> Seq<Seq<char>> {
    seq![
        "帮我"@,
        "帮忙"@,
        "写入"@,
        "写"@,
        "禅道"@,
        "任务"@,
        "工时"@,
        "小时"@,
        "hour"@,
        "hours"@,
        "确认"@,
    ]
}

/// `s` with the first `n` request words removed, one after the other.
pub open spec fn remove_words(s: Seq<char>, n: int) -> Seq<char>
    decreases n,
{
    if n <= 0 {
        s
    } else {
        remove_all(remove_words(s, n - 1), request_words()[n - 1])
    }
}

/// A number of hours, as it is taken out of an effort message.
pub open spec fn hours_pattern() -> Seq<char> {
    "[0-9]+(?:\\.[0-9]+)?\\s*(h|H)?"@
}

/// What `Regex::replace_all(text, "")` gives for `pattern` on `text`.
pub uninterp spec fn regex_removed(pattern: Seq<char>, text: Seq<char>) -> Seq<char>;

/// `Regex::new(pattern)` and `replace_all(text, "")`. Only the hours
/// pattern and the HTML tag pattern are passed, and both compile. The
/// result is named, not stated.
#[verifier::external_body]
pub(crate) fn regex_remove_all(pattern: &str, text: &str) -> (r: String)
    requires
        pattern@ == hours_pattern() || pattern@ == crate::fine_report::tag_pattern(),
    ensures
        r@ == regex_removed(pattern@, text@),
{
    let re = regex::Regex::new(pattern).unwrap();
    re.replace_all(text, "").to_string()
}

/// Punctuation trimmed off the ends of a work description.
pub open spec fn is_edge_mark(c: char) -> bool {
    is_ws(c) || "，,。.;；:：-_/"@.contains(c)
}

/// `s` with edge marks removed at the start.
pub open spec fn strip_marks_start(s: Seq<char>) -> Seq<char>
    decreases s.len(),
{
    if s.len() > 0 && is_edge_mark(s[0]) {
        strip_marks_start(s.drop_first())
    } else {
        s
    }
}

/// `s` with edge marks removed at the end.
pub open spec fn strip_marks_end(s: Seq<char>) -> Seq<char>
    decreases s.len(),
{
    if s.len() > 0 && is_edge_mark(s.last()) {
        strip_marks_end(s.drop_last())
    } else {
        s
    }
}

/// The work description of an effort message.
pub open spec fn cleanup_spec(text: Seq<char>, task_id: Seq<char>) -> Seq<char> {
    edges_trimmed(regex_removed(hours_pattern(), remove_words(remove_all(text, task_id), 11)))
}

/// Edge marks removed at both ends, then white space trimmed.
pub open spec fn edges_trimmed(s: Seq<char>) -> Seq<char> {
    trim_seq(strip_marks_end(strip_marks_start(s)))
}

fn remove_all_exec(s: &Vec<char>, pat: &str) -> (r: Vec<char>)
    ensures
        r@ == remove_all(s@, pat@),
{
    let p = chars_of(pat);
    if p.len() == 0 {
        slice_chars(s, 0, s.len())
    } else {
        let r = replace_chars(s, &p, &Vec::new());
        assert(s@.subrange(0, s.len() as int) =~= s@);
        r
    }
}

fn is_edge_mark_exec(c: char) -> (r: bool)
    ensures
        r == is_edge_mark(c),
{
    let marks = chars_of("，,。.;；:：-_/");
    let mut i: usize = 0;
    let mut found = false;
    while i < marks.len()
        invariant
            i <= marks.len(),
            marks@ == "，,。.;；:：-_/"@,
            found == marks@.take(i as int).contains(c),
        decreases marks.len() - i,
    {
        if marks[i] == c {
            found = true;
        }
        proof {
            let prev = marks@.take(i as int);
            let next = marks@.take(i + 1);
            assert(next =~= prev.push(marks@[i as int]));
            if next.contains(c) {
                let k = choose|k: int| 0 <= k < next.len() && next[k] == c;
                if k < i {
                    assert(prev[k] == c);
                }
            }
            if prev.contains(c) {
                let k = choose|k: int| 0 <= k < prev.len() && prev[k] == c;
                assert(next[k] == c);
            }
            if marks@[i as int] == c {
                assert(next[i as int] == c);
            }
        }
        i = i + 1;
    }
    assert(marks@.take(i as int) =~= marks@);
    is_whitespace(c) || found
}

/// The work done, read out of a message that asks to log effort on
/// `task_id`: the task id, the request words and the hours taken out, then
/// white space and punctuation trimmed off both ends.
pub fn cleanup_effort_work(text: &str, task_id: &str) -> (r: String)
    ensures
        r@ == cleanup_spec(text@, task_id@),
{
    let mut s = remove_all_exec(&chars_of(text), task_id);
    let words = vec!["帮我", "帮忙", "写入", "写", "禅道", "任务", "工时", "小时", "hour", "hours", "确认"];
    assert(words@.map_values(|w: &str| w@) =~= request_words());
    let ghost base = s@;
    let mut i: usize = 0;
    while i < words.len()
        invariant
            i <= words.len(),
            words.len() == 11,
            words@.map_values(|w: &str| w@) == request_words(),
            s@ == remove_words(base, i as int),
        decreases words.len() - i,
    {
        assert(words@[i as int]@ == request_words()[i as int]);
        s = remove_all_exec(&s, words[i]);
        i = i + 1;
    }
    let no_hours = regex_remove_all("[0-9]+(?:\\.[0-9]+)?\\s*(h|H)?", string_of(&s).as_str());
    trim_work_edges(no_hours.as_str())
}

/// The work description once the hours are taken out: punctuation and white
/// space trimmed off both ends.
pub fn trim_work_edges(text: &str) -> (r: String)
    ensures
        r@ == edges_trimmed(text@),
{
    let v = chars_of(text);
    let mut lo: usize = 0;
    assert(v@.skip(0) =~= v@);
    while lo < v.len() && is_edge_mark_exec(v[lo])
        invariant
            lo <= v.len(),
            strip_marks_start(v@) == strip_marks_start(v@.skip(lo as int)),
        decreases v.len() - lo,
    {
        assert(v@.skip(lo as int).drop_first() =~= v@.skip(lo + 1));
        lo = lo + 1;
    }
    let ghost st = v@.skip(lo as int);
    assert(strip_marks_start(v@) == st);
    let mut hi: usize = v.len();
    assert(st =~= v@.subrange(lo as int, hi as int));
    while hi > lo && is_edge_mark_exec(v[hi - 1])
        invariant
            lo <= hi <= v.len(),
            st == v@.skip(lo as int),
            strip_marks_end(st) == strip_marks_end(v@.subrange(lo as int, hi as int)),
        decreases hi,
    {
        assert(v@.subrange(lo as int, hi as int).drop_last() =~= v@.subrange(lo as int, hi - 1));
        hi = hi - 1;
    }
    let core = slice_chars(&v, lo, hi);
    string_of(&trim_chars(&core))
}


/// A `{"role": role, "content": content}` message.
pub open spec fn text_message(role: Seq<char>, content: Seq<char>) -> JsonView {
    JsonView::Object(seq![("role"@, JsonView::Str(role)), ("content"@, JsonView::Str(content))])
}

fn text_message_exec(role: &str, content: &str) -> (r: Json)
    ensures
        jview(r) == text_message(role@, content@),
{
    let mut fs: Vec<(String, Json)> = Vec::new();
    fs.push((owned("role"), Json::Str(owned(role))));
    fs.push((owned("content"), Json::Str(owned(content))));
    proof {
        crate::config_json::lemma_fviews(fs@);
        assert(crate::config_json::fviews(fs@) =~= seq![("role"@, JsonView::Str(role@)), ("content"@, JsonView::Str(content@))]);
    }
    Json::Object(fs)
}

/// The agent messages kept in a channel session: all but tool messages.
pub open spec fn kept_agent_messages(ms: Seq<JsonView>) -> Seq<JsonView>
    decreases ms.len(),
{
    if ms.len() == 0 {
        ms
    } else {
        let rest = kept_agent_messages(ms.drop_last());
        if str_member(ms.last(), "role"@) == Some("tool"@) {
            rest
        } else {
            rest.push(ms.last())
        }
    }
}

/// The last 20 entries of a history.
pub open spec fn last_twenty(ms: Seq<JsonView>) -> Seq<JsonView> {
    if ms.len() <= 20 {
        ms
    } else {
        ms.subrange(ms.len() - 20, ms.len() as int)
    }
}

/// A channel session after one exchange: the user's message, then the
/// agent's messages without tool messages (or, with none, the reply text as
/// one assistant message), and only the last 20 entries kept.
pub open spec fn appended_spec(history: Seq<JsonView>, user_text: Seq<char>, reply: Seq<char>, agent: Option<Seq<JsonView>>) -> Seq<JsonView> {
    let with_user = history.push(text_message("user"@, user_text));
    last_twenty(
        match agent {
            Some(ms) => with_user + kept_agent_messages(ms),
            None => with_user.push(text_message("assistant"@, reply)),
        },
    )
}

/// The session history after a message from the user and the answer to it.
pub fn append_exchange(history: Vec<Json>, user_text: &str, reply: &str, agent_messages: Option<&Vec<Json>>) -> (r: Vec<Json>)
    ensures
        jviews(r@) == appended_spec(
            jviews(history@),
            user_text@,
            reply@,
            match agent_messages {
                Some(ms) => Some(jviews(ms@)),
                None => None,
            },
        ),
{
    let ghost h0 = jviews(history@);
    let mut out = history;
    let um = text_message_exec("user", user_text);
    let ghost before = out@;
    out.push(um);
    proof {
        assert(out@.drop_last() =~= before);
    }
    let ghost with_user = jviews(out@);
    assert(with_user == h0.push(text_message("user"@, user_text@)));
    match agent_messages {
        Some(ms) => {
            proof {
                lemma_jviews(ms@);
            }
            let mut i: usize = 0;
            while i < ms.len()
                invariant
                    i <= ms.len(),
                    jviews(out@) == with_user + kept_agent_messages(jviews(ms@.take(i as int))),
                decreases ms.len() - i,
            {
                let ghost taken = ms@.take(i as int);
                proof {
                    assert(ms@.take(i + 1).drop_last() =~= taken);
                    lemma_jviews(ms@.take(i + 1));
                    assert(jviews(ms@.take(i + 1)).drop_last() =~= jviews(taken));
                }
                let is_tool = match member_of(&ms[i], "role") {
                    Some(Json::Str(r)) => seq_eq(&chars_of(r.as_str()), &chars_of("tool")),
                    _ => false,
                };
                if !is_tool {
                    let ghost prev = out@;
                    let c = copy_json(&ms[i]);
                    out.push(c);
                    proof {
                        assert(out@.drop_last() =~= prev);
                        assert(with_user + kept_agent_messages(jviews(ms@.take(i + 1))) =~= (with_user
                            + kept_agent_messages(jviews(taken))).push(jview(ms@[i as int])));
                    }
                }
                i = i + 1;
            }
            assert(ms@.take(i as int) =~= ms@);
        },
        None => {
            let am = text_message_exec("assistant", reply);
            let ghost prev = out@;
            out.push(am);
            proof {
                assert(out@.drop_last() =~= prev);
            }
        },
    }
    let ghost full = out@;
    trim_history(&mut out);
    proof {
        lemma_jviews(full);
        lemma_jviews(out@);
        if full.len() > 20 {
            assert(jviews(out@) =~= jviews(full).subrange(full.len() - 20, full.len() as int));
        }
    }
    out
}

/// The messages of a stored channel session: its `messages` array.
pub fn session_messages(session: &Json) -> (r: Vec<Json>)
    ensures
        jviews(r@) == match member(fields_of(jview(*session)), "messages"@) {
            Some(JsonView::Array(ms)) => ms,
            _ => Seq::empty(),
        },
{
    match member_of(session, "messages") {
        Some(Json::Array(ms)) => {
            let mut out: Vec<Json> = Vec::new();
            let mut i: usize = 0;
            while i < ms.len()
                invariant
                    i <= ms.len(),
                    jviews(out@) == jviews(ms@.take(i as int)),
                decreases ms.len() - i,
            {
                let ghost prev = out@;
                out.push(copy_json(&ms[i]));
                proof {
                    assert(out@.drop_last() =~= prev);
                    assert(ms@.take(i + 1).drop_last() =~= ms@.take(i as int));
                }
                i = i + 1;
            }
            assert(ms@.take(i as int) =~= ms@);
            out
        },
        _ => Vec::new(),
    }
}


/// A channel session never holds more than 20 entries, and after an
/// exchange answered by a reply text its last two entries are the user's
/// message and that reply.
pub proof fn lemma_session_bounded(history: Seq<JsonView>, user_text: Seq<char>, reply: Seq<char>, agent: Option<Seq<JsonView>>)
    ensures
        appended_spec(history, user_text, reply, agent).len() <= 20,
        agent.is_none() ==> {
            let r = appended_spec(history, user_text, reply, agent);
            &&& r.len() >= 2
            &&& r[r.len() - 1] == text_message("assistant"@, reply)
            &&& r[r.len() - 2] == text_message("user"@, user_text)
        },
{
    if agent.is_none() {
        let full = history.push(text_message("user"@, user_text)).push(text_message("assistant"@, reply));
        assert(full[full.len() - 1] == text_message("assistant"@, reply));
        assert(full[full.len() - 2] == text_message("user"@, user_text));
    }
}

} // verus!
