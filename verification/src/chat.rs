//! Preparing a streamed chat turn: mapping the client's messages, choosing
//! the tools and the system prompt, and picking out the exchange to learn
//! from afterwards; also the request that condenses work notes.

use vstd::prelude::*;
use crate::agent::{default_agent_tools, default_agent_tools_list, default_system_prompt, prompt_head, prompt_rules};
use crate::commit_link::strs;
use crate::llm::{ChatMessage, Role, ToolCall};
use crate::text::{chars_of, owned, push_str, seq_eq, trim, trim_seq};

verus! {

/// A message as the chat window sends it (its tool calls, still JSON, are
/// decoded by the caller).
#[derive(Debug, Clone)]
pub struct ChatSendMessage {
    pub role: String,
    pub content: String,
    pub tool_call_id: Option<String>,
    pub name: Option<String>,
}

/// The role a role name stands for; unknown names count as the user.
pub open spec fn role_spec(s: Seq<char>) -> Role {
    if s == "system"@ {
        Role::System
    } else if s == "assistant"@ {
        Role::Assistant
    } else if s == "tool"@ {
        Role::Tool
    } else {
        Role::User
    }
}

/// Maps a role name.
pub fn role_from_name(s: &str) -> (r: Role)
    ensures
        r == role_spec(s@),
{
    let v = chars_of(s);
    if seq_eq(&v, &chars_of("system")) {
        Role::System
    } else if seq_eq(&v, &chars_of("assistant")) {
        Role::Assistant
    } else if seq_eq(&v, &chars_of("tool")) {
        Role::Tool
    } else {
        Role::User
    }
}

fn copy_opt(o: &Option<String>) -> (r: Option<String>)
    ensures
        match o {
            Some(x) => r is Some && r->Some_0@ == x@,
            None => r is None,
        },
{
    match o {
        Some(x) => Some(x.clone()),
        None => None,
    }
}

/// A client message as a chat message, with its decoded tool calls.
pub fn to_chat_message(m: &ChatSendMessage, tool_calls: Option<Vec<ToolCall>>) -> (r: ChatMessage)
    ensures
        r.role == role_spec(m.role@),
        r.content@ == m.content@,
        r.tool_calls == tool_calls,
        match m.tool_call_id {
            Some(x) => r.tool_call_id is Some && r.tool_call_id->Some_0@ == x@,
            None => r.tool_call_id is None,
        },
        match m.name {
            Some(x) => r.name is Some && r.name->Some_0@ == x@,
            None => r.name is None,
        },
{
    ChatMessage {
        role: role_from_name(m.role.as_str()),
        content: m.content.clone(),
        tool_calls,
        tool_call_id: copy_opt(&m.tool_call_id),
        name: copy_opt(&m.name),
    }
}

/// The tools of a chat turn: those the client asked for, when it named
/// any, else the default set.
pub fn turn_tools(given: Option<Vec<String>>) -> (r: Vec<String>)
    ensures
        strs(r) == match given {
            Some(v) => if v.len() > 0 {
                strs(v)
            } else {
                default_agent_tools()
            },
            None => default_agent_tools(),
        },
{
    match given {
        Some(v) => if v.len() > 0 {
            v
        } else {
            default_agent_tools_list()
        },
        None => default_agent_tools_list(),
    }
}

/// The base system prompt of a turn: none when the client's first message
/// is a system message, else the default prompt for the given assistant
/// name (`Jarvis`) and way of addressing the user (`主人`).
pub open spec fn base_prompt_spec(first_is_system: bool, assistant_name: Seq<char>, user_title: Seq<char>) -> Seq<char> {
    if first_is_system {
        Seq::empty()
    } else {
        prompt_head() + assistant_name + "，"@ + user_title + "的个人任务助手。在对话里称呼用户为「"@ + user_title + prompt_rules()
    }
}

/// Builds the base system prompt.
pub fn base_prompt(messages: &Vec<ChatSendMessage>, assistant_name: Option<&str>, user_title: Option<&str>) -> (r: String)
    ensures
        r@ == base_prompt_spec(
            messages.len() > 0 && messages@[0].role@ == "system"@,
            match assistant_name {
                Some(a) => a@,
                None => "Jarvis"@,
            },
            match user_title {
                Some(u) => u@,
                None => "主人"@,
            },
        ),
{
    if messages.len() > 0 && seq_eq(&chars_of(messages[0].role.as_str()), &chars_of("system")) {
        return String::new();
    }
    let a = match assistant_name {
        Some(a) => a,
        None => "Jarvis",
    };
    let u = match user_title {
        Some(u) => u,
        None => "主人",
    };
    default_system_prompt(a, u)
}

/// The content of the last user message (empty when there is none).
pub open spec fn last_user_spec(ms: Seq<ChatMessage>) -> Seq<char>
    decreases ms.len(),
{
    if ms.len() == 0 {
        Seq::empty()
    } else if ms.last().role == Role::User {
        ms.last().content@
    } else {
        last_user_spec(ms.drop_last())
    }
}

/// The text memory is searched with: the last user message.
pub fn last_user_text(messages: &Vec<ChatMessage>) -> (r: String)
    ensures
        r@ == last_user_spec(messages@),
{
    let mut i = messages.len();
    assert(messages@.take(i as int) =~= messages@);
    while i > 0
        invariant
            i <= messages.len(),
            last_user_spec(messages@) == last_user_spec(messages@.take(i as int)),
        decreases i,
    {
        assert(messages@.take(i as int).drop_last() =~= messages@.take(i - 1));
        if messages[i - 1].role == Role::User {
            return messages[i - 1].content.clone();
        }
        i = i - 1;
    }
    String::new()
}

/// The memory section: the core memory, then the long-term memory on a new
/// line (each only when not empty).
pub open spec fn memory_prompt_spec(core: Seq<char>, longterm: Seq<char>) -> Seq<char> {
    if longterm.len() == 0 {
        core
    } else if core.len() == 0 {
        longterm
    } else {
        core + "\n"@ + longterm
    }
}

/// Joins the memory sections.
pub fn memory_prompt(core: &str, longterm: &str) -> (r: String)
    ensures
        r@ == memory_prompt_spec(core@, longterm@),
{
    let mut m = owned(core);
    if !longterm.is_empty() {
        if !m.as_str().is_empty() {
            push_str(&mut m, "\n");
        }
        push_str(&mut m, longterm);
    }
    m
}

/// The system prompt of a turn: the base prompt and the memory, separated
/// by a blank line, either alone when the other is empty, none when both
/// are.
pub open spec fn system_prompt_spec(base: Seq<char>, memory: Seq<char>) -> Option<Seq<char>> {
    if base.len() > 0 && memory.len() > 0 {
        Some(base + "\n\n"@ + memory)
    } else if base.len() > 0 {
        Some(base)
    } else if memory.len() > 0 {
        Some(memory)
    } else {
        None
    }
}

/// Combines the base prompt and the memory.
pub fn system_prompt_for(base: &str, memory: &str) -> (r: Option<String>)
    ensures
        match r {
            Some(s) => system_prompt_spec(base@, memory@) == Some(s@),
            None => system_prompt_spec(base@, memory@).is_none(),
        },
{
    if !base.is_empty() && !memory.is_empty() {
        let mut s = owned(base);
        push_str(&mut s, "\n\n");
        push_str(&mut s, memory);
        Some(s)
    } else if !base.is_empty() {
        Some(owned(base))
    } else if !memory.is_empty() {
        Some(owned(memory))
    } else {
        None
    }
}

/// The content of the last client message with role name `user`.
pub open spec fn last_user_input(ms: Seq<ChatSendMessage>) -> Option<Seq<char>>
    decreases ms.len(),
{
    if ms.len() == 0 {
        None
    } else if ms.last().role@ == "user"@ {
        Some(ms.last().content@)
    } else {
        last_user_input(ms.drop_last())
    }
}

/// A plain assistant answer: no tool calls, some text.
pub open spec fn is_answer(m: ChatMessage) -> bool {
    m.role == Role::Assistant && m.tool_calls is None && m.content@.len() > 0
}

/// The content of the first plain assistant answer.
pub open spec fn first_answer(ms: Seq<ChatMessage>) -> Option<Seq<char>>
    decreases ms.len(),
{
    if ms.len() == 0 {
        None
    } else if is_answer(ms[0]) {
        Some(ms[0].content@)
    } else {
        first_answer(ms.drop_first())
    }
}

/// The exchange memory learns from: the last user message of the input and
/// the run's first plain answer, both non-empty.
pub open spec fn exchange_spec(input: Seq<ChatSendMessage>, out: Seq<ChatMessage>) -> Option<(Seq<char>, Seq<char>)> {
    match (last_user_input(input), first_answer(out)) {
        (Some(u), Some(a)) => if u.len() > 0 {
            Some((u, a))
        } else {
            None
        },
        _ => None,
    }
}

fn last_user_input_exec(input: &Vec<ChatSendMessage>) -> (r: Option<String>)
    ensures
        match r {
            Some(u) => last_user_input(input@) == Some(u@),
            None => last_user_input(input@).is_none(),
        },
{
    let mut i = input.len();
    assert(input@.take(i as int) =~= input@);
    while i > 0
        invariant
            i <= input.len(),
            last_user_input(input@) == last_user_input(input@.take(i as int)),
        decreases i,
    {
        assert(input@.take(i as int).drop_last() =~= input@.take(i - 1));
        if seq_eq(&chars_of(input[i - 1].role.as_str()), &chars_of("user")) {
            return Some(input[i - 1].content.clone());
        }
        i = i - 1;
    }
    assert(input@.take(0) =~= Seq::<ChatSendMessage>::empty());
    None
}

fn first_answer_exec(ms: &Vec<ChatMessage>) -> (r: Option<String>)
    ensures
        match r {
            Some(a) => first_answer(ms@) == Some(a@),
            None => first_answer(ms@).is_none(),
        },
{
    let mut k: usize = 0;
    assert(ms@.skip(0) =~= ms@);
    while k < ms.len()
        invariant
            k <= ms.len(),
            first_answer(ms@) == first_answer(ms@.skip(k as int)),
        decreases ms.len() - k,
    {
        let m = &ms[k];
        assert(ms@.skip(k as int)[0] == *m);
        assert(ms@.skip(k as int).drop_first() =~= ms@.skip(k + 1));
        if m.role == Role::Assistant && m.tool_calls.is_none() && !m.content.as_str().is_empty() {
            return Some(m.content.clone());
        }
        k = k + 1;
    }
    assert(ms@.skip(k as int) =~= Seq::<ChatMessage>::empty());
    None
}

/// Picks the last user message and the first plain answer of a run.
pub fn extract_last_exchange(input: &Vec<ChatSendMessage>, new_messages: &Vec<ChatMessage>) -> (r: Option<(String, String)>)
    ensures
        match r {
            Some((u, a)) => exchange_spec(input@, new_messages@) == Some((u@, a@)),
            None => exchange_spec(input@, new_messages@).is_none(),
        },
{
    let u = match last_user_input_exec(input) {
        Some(u) => u,
        None => return None,
    };
    let a = match first_answer_exec(new_messages) {
        Some(a) => a,
        None => return None,
    };
    if u.as_str().is_empty() {
        return None;
    }
    Some((u, a))
}

/// The instruction given to the model that condenses work notes.
pub open spec fn summary_system_text() -> Seq<char> {
    "你是一个工时记录精简助手，只输出精简后的工时描述文本，不加任何前缀或解释。"@
}

/// The request text that asks to condense the (trimmed) work notes.
pub open spec fn summary_prompt_spec(notes: Seq<char>) -> Seq<char> {
    "你是一个工时记录精简助手。请将以下 commit 工作记录压缩为简洁的工时描述。\n\n要求：\n- 保留关键工作内容和成果\n- 去除重复、冗余信息\n- 合并同类项\n- 控制在 200 字以内\n- 输出纯文本，不要 markdown 格式\n\n原始记录：\n"@ + trim_seq(notes)
}

/// The two messages (instruction, request) that condense work notes; blank
/// notes are refused.
pub fn summary_request(text: &str) -> (r: Result<(String, String), String>)
    ensures
        match r {
            Ok((sys, user)) => trim_seq(text@).len() > 0 && sys@ == summary_system_text() && user@ == summary_prompt_spec(text@),
            Err(e) => trim_seq(text@).len() == 0 && e@ == "工作内容为空，无需精简"@,
        },
{
    let t = trim(text);
    if t.as_str().is_empty() {
        return Err(owned("工作内容为空，无需精简"));
    }
    let mut p = owned("你是一个工时记录精简助手。请将以下 commit 工作记录压缩为简洁的工时描述。\n\n要求：\n- 保留关键工作内容和成果\n- 去除重复、冗余信息\n- 合并同类项\n- 控制在 200 字以内\n- 输出纯文本，不要 markdown 格式\n\n原始记录：\n");
    push_str(&mut p, t.as_str());
    Ok((owned("你是一个工时记录精简助手，只输出精简后的工时描述文本，不加任何前缀或解释。"), p))
}

/// A chat turn needs at least one message; without any it is refused.
pub fn check_chat_input(messages: &Vec<ChatSendMessage>) -> (r: Result<(), String>)
    ensures
        r.is_ok() <==> messages.len() > 0,
        r matches Err(e) ==> e@ == "messages 不能为空"@,
{
    if messages.len() == 0 {
        Err(crate::text::owned("messages 不能为空"))
    } else {
        Ok(())
    }
}

} // verus!
