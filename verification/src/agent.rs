//! The tool-using chat agent: its system prompt, which tool calls it may
//! run, how tool output is shortened for the model, and the agent loop as a
//! state machine that the caller drives (the caller talks to the model and
//! runs the tools; the library decides what happens next).

use vstd::prelude::*;
use crate::commit_link::{contains_string, strs};
use crate::llm::{call_view, ChatMessage, ChatResponse, Role, ToolCall, ToolCallFunction};
use crate::text::{
    chars_of, decimal_seq, decimal_string, owned, push_str, seq_contains, slice_chars, string_of,
};

verus! {

/// What the streaming agent reports while it runs.
#[derive(Debug, Clone)]
pub enum StreamEvent {
    /// Text streamed by the model.
    Delta { text: String },
    /// A model reply is complete.
    Assistant { content: String, iteration: u32, has_tool_calls: bool },
    /// A tool has answered.
    Tool { name: String, preview: String, iteration: u32 },
    /// The loop has finished.
    Done { tokens_in: u64, tokens_out: u64, truncated: bool },
}

/// One model reply and the tool results it led to.
#[derive(Debug, Clone)]
pub struct AgentStep {
    pub assistant_message: ChatMessage,
    pub tool_results: Vec<ChatMessage>,
}

/// What an agent run produced.
#[derive(Debug, Clone)]
pub struct RunAgentResult {
    pub new_messages: Vec<ChatMessage>,
    pub steps: Vec<AgentStep>,
    pub tokens_in: u64,
    pub tokens_out: u64,
    pub truncated: bool,
}

/// The tools the agent may call by default (no direct write to the task
/// tracker among them).
pub open spec fn default_agent_tools() -> Seq<Seq<char>> {
    seq![
        "get_tasks"@, "get_today_tasks"@, "get_task_detail"@, "get_task_commits"@,
        "analyze_risk"@, "get_daily_review"@, "get_efforts"@, "get_effort_report"@,
        "prepare-log-task-effort"@, "cost_report_preview"@, "cost_report"@,
    ]
}

/// The default tool list.
pub fn default_agent_tools_list() -> (r: Vec<String>)
    ensures
        strs(r) == default_agent_tools(),
{
    let names: Vec<&str> = vec![
        "get_tasks", "get_today_tasks", "get_task_detail", "get_task_commits", "analyze_risk",
        "get_daily_review", "get_efforts", "get_effort_report", "prepare-log-task-effort",
        "cost_report_preview", "cost_report",
    ];
    let mut out: Vec<String> = Vec::new();
    let mut i: usize = 0;
    while i < names.len()
        invariant
            i <= names.len(),
            names@.map_values(|s: &str| s@) == default_agent_tools(),
            strs(out) == names@.take(i as int).map_values(|s: &str| s@),
        decreases names.len() - i,
    {
        let ghost before = strs(out);
        out.push(owned(names[i]));
        assert(strs(out) =~= before.push(names@[i as int]@));
        i = i + 1;
        assert(strs(out) =~= names@.take(i as int).map_values(|s: &str| s@));
    }
    assert(names@.take(names.len() as int) =~= names@);
    out
}

/// The system prompt text before the assistant's name.
pub open spec fn prompt_head() -> Seq<char> {
    "你是 "@
}

/// The fixed rules that follow the user's title the second time.
pub open spec fn prompt_rules() -> Seq<char> {
    "」。\n你可以调用工具查询禅道任务、git 提交、今日复盘、风险分析、工时报表、项目成本等。\n原则：\n1. 用户问到任务/工时/风险/复盘等具体业务问题时，先调相关工具拿真实数据，再回答。不要凭空编。\n2. 工具不可用或失败时，明确告诉用户失败原因，不要装作有数据。\n3. 回答要简洁直接。日报、风险类的输出去技术化——不要出现 commit/sha/repo 这种词，用项目名 + 任务名组织。\n4. 查短周期工时时使用 get_efforts；查本月、本季度、近半年、本年等长周期时，优先使用 get_effort_report，输出完整工作汇报正文和数据附录。\n5. **主动提议记工时**：当用户提到「干了什么、花了多长时间」时（例如\"修了登录bug花了2小时\"），主动调用 get_tasks 查找匹配任务。返回任务列表后，先向用户说明你找到了哪些可能匹配的任务以及你的选择理由，再调用 prepare-log-task-effort 生成待确认写入建议（记得传出 taskName）。如果拿不准选哪个，把候选列表发给用户让对方选。\n   注意：必须等用户确认（说\"确认\"\"好\"\"可以\"）后才会真正写入，你只负责准备建议。如果信息不全（缺任务、缺工时、缺工作描述），先追问清楚再准备。\n6. **项目成本查询两步确认**：用户问项目成本时，必须先调 cost_report_preview 拉团队成员列表，展示给用户确认「你要查的是 XXX 项目吗？团队成员有张三、李四…」，用户确认后再调 cost_report 出完整报告。禁止跳过预览直接查成本。"@
}

/// The agent's system prompt: who it is, how it addresses the user, and its
/// rules for using tools.
pub fn default_system_prompt(assistant_name: &str, user_title: &str) -> (r: String)
    ensures
        r@ == prompt_head() + assistant_name@ + "，"@ + user_title@ + "的个人任务助手。在对话里称呼用户为「"@
            + user_title@ + prompt_rules(),
{
    let mut s = owned("你是 ");
    push_str(&mut s, assistant_name);
    push_str(&mut s, "，");
    push_str(&mut s, user_title);
    push_str(&mut s, "的个人任务助手。在对话里称呼用户为「");
    push_str(&mut s, user_title);
    push_str(&mut s, "」。\n你可以调用工具查询禅道任务、git 提交、今日复盘、风险分析、工时报表、项目成本等。\n原则：\n1. 用户问到任务/工时/风险/复盘等具体业务问题时，先调相关工具拿真实数据，再回答。不要凭空编。\n2. 工具不可用或失败时，明确告诉用户失败原因，不要装作有数据。\n3. 回答要简洁直接。日报、风险类的输出去技术化——不要出现 commit/sha/repo 这种词，用项目名 + 任务名组织。\n4. 查短周期工时时使用 get_efforts；查本月、本季度、近半年、本年等长周期时，优先使用 get_effort_report，输出完整工作汇报正文和数据附录。\n5. **主动提议记工时**：当用户提到「干了什么、花了多长时间」时（例如\"修了登录bug花了2小时\"），主动调用 get_tasks 查找匹配任务。返回任务列表后，先向用户说明你找到了哪些可能匹配的任务以及你的选择理由，再调用 prepare-log-task-effort 生成待确认写入建议（记得传出 taskName）。如果拿不准选哪个，把候选列表发给用户让对方选。\n   注意：必须等用户确认（说\"确认\"\"好\"\"可以\"）后才会真正写入，你只负责准备建议。如果信息不全（缺任务、缺工时、缺工作描述），先追问清楚再准备。\n6. **项目成本查询两步确认**：用户问项目成本时，必须先调 cost_report_preview 拉团队成员列表，展示给用户确认「你要查的是 XXX 项目吗？团队成员有张三、李四…」，用户确认后再调 cost_report 出完整报告。禁止跳过预览直接查成本。");
    s
}

/// Tool output as the model sees it: whole when at most `max` characters,
/// else the first `max` characters and a note saying it was cut.
pub open spec fn truncate_spec(s: Seq<char>, max: nat) -> Seq<char> {
    if s.len() <= max {
        s
    } else {
        s.take(max as int) + "\n…（结果过长，已截断到 "@ + decimal_seq(max) + " 字符）"@
    }
}

/// Shortens tool output to `max` characters.
pub fn truncate_for_context(s: &str, max: usize) -> (r: String)
    ensures
        r@ == truncate_spec(s@, max as nat),
{
    let v = chars_of(s);
    if v.len() <= max {
        return owned(s);
    }
    let mut r = string_of(&slice_chars(&v, 0, max));
    push_str(&mut r, "\n…（结果过长，已截断到 ");
    push_str(&mut r, decimal_string(max as u64).as_str());
    push_str(&mut r, " 字符）");
    assert(v@.subrange(0, max as int) =~= v@.take(max as int));
    r
}

/// Whether the agent may run a tool call.
#[derive(Debug, Clone)]
pub enum ToolGate {
    /// The call may run.
    Run,
    /// Refused, with the error text to give the model.
    Refused(String),
}

/// The tool that writes effort to the task tracker; the agent may only
/// prepare such a write for the user to confirm.
pub open spec fn forbidden_tool() -> Seq<char> {
    "log-task-effort"@
}

/// The refusal, if any, of a call of tool `name`: the effort-logging tool
/// never runs directly; the others run only when listed as allowed.
pub open spec fn gate_spec(name: Seq<char>, allowed: Seq<Seq<char>>) -> Option<Seq<char>> {
    if name == forbidden_tool() {
        Some("工具 "@ + name + " 是写操作，agent 不允许直接调用；请改用 prepare-log-task-effort 生成待确认建议。"@)
    } else if !allowed.contains(name) {
        Some("工具 "@ + name + " 不在允许列表中"@)
    } else {
        None
    }
}

/// Decides whether a tool call may run.
pub fn tool_gate(name: &String, allowed: &Vec<String>) -> (r: ToolGate)
    ensures
        match gate_spec(name@, strs(*allowed)) {
            Some(msg) => r matches ToolGate::Refused(m) && m@ == msg,
            None => r is Run,
        },
{
    if crate::text::seq_eq(&chars_of(name.as_str()), &chars_of("log-task-effort")) {
        let mut m = owned("工具 ");
        push_str(&mut m, name.as_str());
        push_str(&mut m, " 是写操作，agent 不允许直接调用；请改用 prepare-log-task-effort 生成待确认建议。");
        return ToolGate::Refused(m);
    }
    if !contains_string(allowed, name) {
        let mut m = owned("工具 ");
        push_str(&mut m, name.as_str());
        push_str(&mut m, " 不在允许列表中");
        return ToolGate::Refused(m);
    }
    ToolGate::Run
}

/// The agent never runs the tracker write tool, whatever the allow list
/// holds, and never runs a tool missing from the allow list.
pub proof fn lemma_gate_guards_writes(name: Seq<char>, allowed: Seq<Seq<char>>)
    ensures
        gate_spec(name, allowed).is_none() ==> name != forbidden_tool() && allowed.contains(name),
{
}

/// Tool calls as plain values.
pub open spec fn calls_view(v: Vec<ToolCall>) -> Seq<(Seq<char>, Seq<char>, Seq<char>, Seq<char>)> {
    v@.map_values(|c: ToolCall| call_view(c))
}

/// A chat message as plain values.
pub open spec fn msg_view(m: ChatMessage) -> (
    Role,
    Seq<char>,
    Option<Seq<(Seq<char>, Seq<char>, Seq<char>, Seq<char>)>>,
    Option<Seq<char>>,
    Option<Seq<char>>,
) {
    (
        m.role,
        m.content@,
        match m.tool_calls {
            Some(v) => Some(calls_view(v)),
            None => None,
        },
        match m.tool_call_id {
            Some(x) => Some(x@),
            None => None,
        },
        match m.name {
            Some(x) => Some(x@),
            None => None,
        },
    )
}

/// Messages as plain values.
pub open spec fn msgs_view(v: Seq<ChatMessage>) -> Seq<
    (
        Role,
        Seq<char>,
        Option<Seq<(Seq<char>, Seq<char>, Seq<char>, Seq<char>)>>,
        Option<Seq<char>>,
        Option<Seq<char>>,
    ),
> {
    v.map_values(|m: ChatMessage| msg_view(m))
}

fn copy_calls(v: &Vec<ToolCall>) -> (r: Vec<ToolCall>)
    ensures
        calls_view(r) == calls_view(*v),
{
    let mut out: Vec<ToolCall> = Vec::new();
    let mut i: usize = 0;
    while i < v.len()
        invariant
            i <= v.len(),
            calls_view(out) == v@.take(i as int).map_values(|c: ToolCall| call_view(c)),
        decreases v.len() - i,
    {
        let c = &v[i];
        let ghost before = calls_view(out);
        out.push(
            ToolCall {
                id: c.id.clone(),
                kind: c.kind.clone(),
                function: ToolCallFunction { name: c.function.name.clone(), arguments: c.function.arguments.clone() },
            },
        );
        assert(calls_view(out) =~= before.push(call_view(*c)));
        i = i + 1;
        assert(calls_view(out) =~= v@.take(i as int).map_values(|c: ToolCall| call_view(c)));
    }
    assert(v@.take(v.len() as int) =~= v@);
    out
}

fn copy_opt(o: &Option<String>) -> (r: Option<String>)
    ensures
        match o {
            Some(x) => r is Some && r->Some_0@ == x@,
            None => r is None,
        },
{
    match o {
        Some(x) => Some(x.clone()),
        None => None,
    }
}

/// An equal copy of a message.
pub fn copy_message(m: &ChatMessage) -> (r: ChatMessage)
    ensures
        msg_view(r) == msg_view(*m),
{
    let tool_calls = match &m.tool_calls {
        Some(v) => Some(copy_calls(v)),
        None => None,
    };
    ChatMessage {
        role: m.role,
        content: m.content.clone(),
        tool_calls,
        tool_call_id: copy_opt(&m.tool_call_id),
        name: copy_opt(&m.name),
    }
}

/// A running agent conversation, between two moves of the caller.
pub struct AgentLoop {
    /// Model calls allowed (at least one).
    pub max_iterations: u32,
    /// Model calls made so far.
    pub iteration: u32,
    /// The conversation as sent to the model.
    pub messages: Vec<ChatMessage>,
    /// The messages this run added.
    pub new_messages: Vec<ChatMessage>,
    pub steps: Vec<AgentStep>,
    pub tokens_in: u64,
    pub tokens_out: u64,
    /// The model reply whose tool calls are being run.
    pub awaiting: Option<ChatMessage>,
}

/// What the caller does next.
pub enum AgentNext {
    /// Send the conversation to the model again.
    CallModel(AgentLoop),
    /// Run these tool calls, in order, and report their results.
    RunTools(AgentLoop, Vec<ToolCall>),
    /// The run is over.
    Done(RunAgentResult),
}

impl AgentLoop {
    /// The loop may still call the model.
    /// It has made `iteration` rounds (a reply that asked for tools, then
    /// their results), one step recorded for each.
    pub open spec fn wf(&self) -> bool {
        &&& 1 <= self.max_iterations && self.iteration < self.max_iterations
        &&& self.steps.len() == self.iteration
    }

    /// Starts a run on `messages`, after the system prompt if one is given;
    /// `max_iterations` below one counts as one.
    pub fn start(messages: Vec<ChatMessage>, system_prompt: Option<String>, max_iterations: u32) -> (r: AgentLoop)
        ensures
            r.wf(),
            r.iteration == 0,
            r.max_iterations == if max_iterations < 1 {
                1
            } else {
                max_iterations
            },
            msgs_view(r.messages@) == match system_prompt {
                Some(sp) => seq![msg_view(ChatMessage { role: Role::System, content: sp, tool_calls: None, tool_call_id: None, name: None })] + msgs_view(messages@),
                None => msgs_view(messages@),
            },
            r.new_messages.len() == 0,
            r.steps.len() == 0,
            r.tokens_in == 0,
            r.tokens_out == 0,
            r.awaiting is None,
    {
        let mut all: Vec<ChatMessage> = Vec::new();
        let ghost sp_view = system_prompt;
        match system_prompt {
            Some(sp) => {
                all.push(ChatMessage { role: Role::System, content: sp, tool_calls: None, tool_call_id: None, name: None });
            },
            None => {},
        }
        let ghost head = msgs_view(all@);
        let mut rest = messages;
        let ghost rv = msgs_view(rest@);
        all.append(&mut rest);
        assert(msgs_view(all@) =~= head + rv);
        let max = if max_iterations < 1 {
            1
        } else {
            max_iterations
        };
        AgentLoop {
            max_iterations: max,
            iteration: 0,
            messages: all,
            new_messages: Vec::new(),
            steps: Vec::new(),
            tokens_in: 0,
            tokens_out: 0,
            awaiting: None,
        }
    }
}

/// A step as plain values.
pub open spec fn step_view(s: AgentStep) -> (
    (Role, Seq<char>, Option<Seq<(Seq<char>, Seq<char>, Seq<char>, Seq<char>)>>, Option<Seq<char>>, Option<Seq<char>>),
    Seq<(Role, Seq<char>, Option<Seq<(Seq<char>, Seq<char>, Seq<char>, Seq<char>)>>, Option<Seq<char>>, Option<Seq<char>>)>,
) {
    (msg_view(s.assistant_message), msgs_view(s.tool_results@))
}

pub open spec fn steps_view(v: Seq<AgentStep>) -> Seq<(
    (Role, Seq<char>, Option<Seq<(Seq<char>, Seq<char>, Seq<char>, Seq<char>)>>, Option<Seq<char>>, Option<Seq<char>>),
    Seq<(Role, Seq<char>, Option<Seq<(Seq<char>, Seq<char>, Seq<char>, Seq<char>)>>, Option<Seq<char>>, Option<Seq<char>>)>,
)> {
    v.map_values(|s: AgentStep| step_view(s))
}

/// The assistant message recording a model reply.
pub open spec fn reply_message_view(res: ChatResponse) -> (
    Role,
    Seq<char>,
    Option<Seq<(Seq<char>, Seq<char>, Seq<char>, Seq<char>)>>,
    Option<Seq<char>>,
    Option<Seq<char>>,
) {
    (
        Role::Assistant,
        res.text@,
        if res.tool_calls.len() == 0 {
            None
        } else {
            Some(calls_view(res.tool_calls))
        },
        None,
        None,
    )
}

/// What the user is told when the model call failed: a hint for a gateway
/// error (HTTP 502), the error itself otherwise.
pub open spec fn model_error_text(e: Seq<char>) -> Seq<char> {
    if seq_contains(e, "LLM HTTP 502"@) {
        "模型服务现在返回 502，通常是上游 LLM 网关临时不可用或线路抖动。请稍后重试；如果大窗仍然正常，重启一下渠道服务再试。"@
    } else {
        "LLM 调用失败："@ + e
    }
}

/// The note added when the loop hits its limit.
pub open spec fn stop_text(max: nat) -> Seq<char> {
    "（达到最大工具调用轮数 "@ + decimal_seq(max) + "，强制停止。可能任务过于复杂，或工具结果反复无法收敛。）"@
}

/// An assistant message with plain text.
pub open spec fn assistant_text_view(t: Seq<char>) -> (
    Role,
    Seq<char>,
    Option<Seq<(Seq<char>, Seq<char>, Seq<char>, Seq<char>)>>,
    Option<Seq<char>>,
    Option<Seq<char>>,
) {
    (Role::Assistant, t, None, None, None)
}

fn assistant_text(content: String) -> (r: ChatMessage)
    ensures
        msg_view(r) == assistant_text_view(content@),
{
    ChatMessage { role: Role::Assistant, content, tool_calls: None, tool_call_id: None, name: None }
}

fn copy_messages(v: &Vec<ChatMessage>) -> (r: Vec<ChatMessage>)
    ensures
        msgs_view(r@) == msgs_view(v@),
{
    let mut out: Vec<ChatMessage> = Vec::new();
    let mut i: usize = 0;
    while i < v.len()
        invariant
            i <= v.len(),
            msgs_view(out@) == msgs_view(v@.take(i as int)),
        decreases v.len() - i,
    {
        let ghost before = msgs_view(out@);
        out.push(copy_message(&v[i]));
        assert(msgs_view(out@) =~= before.push(msg_view(v@[i as int])));
        i = i + 1;
        assert(msgs_view(v@.take(i as int)) =~= msgs_view(v@.take(i - 1)).push(msg_view(v@[i - 1])));
    }
    assert(v@.take(v.len() as int) =~= v@);
    out
}

impl AgentLoop {
    /// The model call failed: the run ends with one assistant message
    /// explaining the failure (not truncated).
    pub fn on_model_error(self, e: &str) -> (r: RunAgentResult)
        ensures
            msgs_view(r.new_messages@) == msgs_view(self.new_messages@).push(
                assistant_text_view(model_error_text(e@)),
            ),
            steps_view(r.steps@) == steps_view(self.steps@),
            self.wf() ==> r.steps.len() < self.max_iterations,
            r.tokens_in == self.tokens_in,
            r.tokens_out == self.tokens_out,
            !r.truncated,
    {
        let content = if crate::text::contains(e, "LLM HTTP 502") {
            owned("模型服务现在返回 502，通常是上游 LLM 网关临时不可用或线路抖动。请稍后重试；如果大窗仍然正常，重启一下渠道服务再试。")
        } else {
            let mut c = owned("LLM 调用失败：");
            push_str(&mut c, e);
            c
        };
        let AgentLoop { new_messages, steps, tokens_in, tokens_out, .. } = self;
        let mut new_messages = new_messages;
        let ghost before = msgs_view(new_messages@);
        new_messages.push(assistant_text(content));
        assert(msgs_view(new_messages@) =~= before.push(assistant_text_view(model_error_text(e@))));
        RunAgentResult { new_messages, steps, tokens_in, tokens_out, truncated: false }
    }

    /// The model replied. Its reply joins the conversation; without tool
    /// calls the run ends (not truncated), else its calls are to be run.
    pub fn on_model_reply(self, res: ChatResponse) -> (r: AgentNext)
        requires
            self.wf(),
            self.awaiting is None,
            self.tokens_in + res.tokens_in <= u64::MAX,
            self.tokens_out + res.tokens_out <= u64::MAX,
        ensures
            ({
                let av = reply_message_view(res);
                match r {
                    AgentNext::Done(out) => {
                        &&& res.tool_calls.len() == 0
                        &&& msgs_view(out.new_messages@) == msgs_view(self.new_messages@).push(av)
                        &&& steps_view(out.steps@) == steps_view(self.steps@).push((av, Seq::empty()))
                        &&& out.steps.len() == self.iteration + 1 <= self.max_iterations
                        &&& out.tokens_in == self.tokens_in + res.tokens_in
                        &&& out.tokens_out == self.tokens_out + res.tokens_out
                        &&& !out.truncated
                    },
                    AgentNext::RunTools(next, calls) => {
                        &&& res.tool_calls.len() > 0
                        &&& calls_view(calls) == calls_view(res.tool_calls)
                        &&& next.wf()
                        &&& next.max_iterations == self.max_iterations
                        &&& next.iteration == self.iteration
                        &&& msgs_view(next.messages@) == msgs_view(self.messages@).push(av)
                        &&& msgs_view(next.new_messages@) == msgs_view(self.new_messages@).push(av)
                        &&& steps_view(next.steps@) == steps_view(self.steps@)
                        &&& next.awaiting is Some && msg_view(next.awaiting->Some_0) == av
                        &&& next.tokens_in == self.tokens_in + res.tokens_in
                        &&& next.tokens_out == self.tokens_out + res.tokens_out
                    },
                    AgentNext::CallModel(_) => false,
                }
            }),
    {
        let AgentLoop { max_iterations, iteration, messages, new_messages, steps, tokens_in, tokens_out, awaiting: _ } = self;
        let tokens_in = tokens_in + res.tokens_in;
        let tokens_out = tokens_out + res.tokens_out;
        let has_calls = res.tool_calls.len() > 0;
        let calls_copy = copy_calls(&res.tool_calls);
        let msg = ChatMessage {
            role: Role::Assistant,
            content: res.text,
            tool_calls: if has_calls {
                Some(res.tool_calls)
            } else {
                None
            },
            tool_call_id: None,
            name: None,
        };
        let mut messages = messages;
        let mut new_messages = new_messages;
        let mut steps = steps;
        let ghost mv = msgs_view(messages@);
        let ghost nv = msgs_view(new_messages@);
        messages.push(copy_message(&msg));
        new_messages.push(copy_message(&msg));
        assert(msgs_view(messages@) =~= mv.push(msg_view(msg)));
        assert(msgs_view(new_messages@) =~= nv.push(msg_view(msg)));
        if !has_calls {
            let ghost sv = steps_view(steps@);
            let no_results: Vec<ChatMessage> = Vec::new();
            assert(msgs_view(no_results@) =~= Seq::empty());
            steps.push(AgentStep { assistant_message: msg, tool_results: no_results });
            assert(steps_view(steps@) =~= sv.push((msg_view(msg), Seq::empty())));
            return AgentNext::Done(RunAgentResult { new_messages, steps, tokens_in, tokens_out, truncated: false });
        }
        AgentNext::RunTools(
            AgentLoop { max_iterations, iteration, messages, new_messages, steps, tokens_in, tokens_out, awaiting: Some(msg) },
            calls_copy,
        )
    }

    /// The tools have answered. Their results join the conversation and the
    /// step is recorded; the model is called again unless that would exceed
    /// the limit, in which case the run ends, truncated, with a note.
    pub fn on_tool_results(self, results: Vec<ChatMessage>) -> (r: AgentNext)
        requires
            self.wf(),
            self.awaiting is Some,
        ensures
            ({
                let step = (msg_view(self.awaiting->Some_0), msgs_view(results@));
                match r {
                    AgentNext::CallModel(next) => {
                        &&& next.wf()
                        &&& next.iteration == self.iteration + 1
                        &&& next.max_iterations == self.max_iterations
                        &&& msgs_view(next.messages@) == msgs_view(self.messages@) + msgs_view(results@)
                        &&& msgs_view(next.new_messages@) == msgs_view(self.new_messages@) + msgs_view(results@)
                        &&& steps_view(next.steps@) == steps_view(self.steps@).push(step)
                        &&& next.awaiting is None
                        &&& next.tokens_in == self.tokens_in
                        &&& next.tokens_out == self.tokens_out
                    },
                    AgentNext::Done(out) => {
                        &&& self.iteration + 1 == self.max_iterations
                        &&& out.truncated
                        &&& out.steps.len() == self.max_iterations
                        &&& msgs_view(out.new_messages@) == (msgs_view(self.new_messages@) + msgs_view(results@)).push(
                            assistant_text_view(stop_text(self.max_iterations as nat)),
                        )
                        &&& steps_view(out.steps@) == steps_view(self.steps@).push(step)
                        &&& out.tokens_in == self.tokens_in
                        &&& out.tokens_out == self.tokens_out
                    },
                    AgentNext::RunTools(_, _) => false,
                }
            }),
    {
        let AgentLoop { max_iterations, iteration, messages, new_messages, steps, tokens_in, tokens_out, awaiting } = self;
        let assistant = match awaiting {
            Some(m) => m,
            None => {
                assert(false);
                ChatMessage { role: Role::Assistant, content: String::new(), tool_calls: None, tool_call_id: None, name: None }
            },
        };
        let mut messages = messages;
        let mut new_messages = new_messages;
        let mut steps = steps;
        let ghost mv = msgs_view(messages@);
        let ghost nv = msgs_view(new_messages@);
        let mut a = copy_messages(&results);
        let mut b = copy_messages(&results);
        messages.append(&mut a);
        new_messages.append(&mut b);
        assert(msgs_view(messages@) =~= mv + msgs_view(results@));
        assert(msgs_view(new_messages@) =~= nv + msgs_view(results@));
        let ghost sv = steps_view(steps@);
        let ghost av = msg_view(assistant);
        steps.push(AgentStep { assistant_message: assistant, tool_results: results });
        assert(steps_view(steps@) =~= sv.push((av, msgs_view(results@))));
        let next_iteration = iteration + 1;
        if next_iteration >= max_iterations {
            let mut note = owned("（达到最大工具调用轮数 ");
            push_str(&mut note, decimal_string(max_iterations as u64).as_str());
            push_str(&mut note, "，强制停止。可能任务过于复杂，或工具结果反复无法收敛。）");
            let ghost before = msgs_view(new_messages@);
            new_messages.push(assistant_text(note));
            assert(msgs_view(new_messages@) =~= before.push(assistant_text_view(stop_text(max_iterations as nat))));
            return AgentNext::Done(RunAgentResult { new_messages, steps, tokens_in, tokens_out, truncated: true });
        }
        AgentNext::CallModel(
            AgentLoop { max_iterations, iteration: next_iteration, messages, new_messages, steps, tokens_in, tokens_out, awaiting: None },
        )
    }
}

/// The preview of a tool result shown while streaming: its first 80
/// characters, line breaks turned into spaces.
pub open spec fn preview_spec(content: Seq<char>) -> Seq<char> {
    let head = if content.len() <= 80 {
        content
    } else {
        content.take(80)
    };
    head.map_values(|c: char| if c == '\n' { ' ' } else { c })
}

/// The streamed preview of a tool result.
pub fn tool_preview(content: &str) -> (r: String)
    ensures
        r@ == preview_spec(content@),
{
    let v = chars_of(content);
    let n = if v.len() <= 80 {
        v.len()
    } else {
        80
    };
    let mut out = String::new();
    let mut i: usize = 0;
    while i < n
        invariant
            i <= n <= v.len(),
            n == (if v.len() <= 80 { v.len() } else { 80 }),
            out@ == v@.take(i as int).map_values(|c: char| if c == '\n' { ' ' } else { c }),
        decreases n - i,
    {
        let c = v[i];
        crate::text::push_char(&mut out, if c == '\n' { ' ' } else { c });
        i = i + 1;
        assert(out@ =~= v@.take(i as int).map_values(|c: char| if c == '\n' { ' ' } else { c }));
    }
    assert(v@.take(n as int) =~= if v@.len() <= 80 { v@ } else { v@.take(80) });
    out
}

/// The system prompt opens by naming the assistant and how it addresses the
/// user (`你是 <name>，<title>的个人任务助手。在对话里称呼用户为「<title>」。`
/// and a line break), and it names the effort-logging, cost-preview and
/// effort-report tools.
pub proof fn lemma_system_prompt_shape(name: Seq<char>, title: Seq<char>)
    ensures
        ({
            let s = prompt_head() + name + "，"@ + title + "的个人任务助手。在对话里称呼用户为「"@ + title + prompt_rules();
            let p = "你是 "@ + name + "，"@ + title + "的个人任务助手。在对话里称呼用户为「"@ + title + "」。\n"@;
            &&& crate::text::seq_starts_with(s, p)
            &&& crate::text::seq_contains(s, "prepare-log-task-effort"@)
            &&& crate::text::seq_contains(s, "cost_report_preview"@)
            &&& crate::text::seq_contains(s, "get_effort_report"@)
        }),
{
    let rules = prompt_rules();
    let pre = prompt_head() + name + "，"@ + title + "的个人任务助手。在对话里称呼用户为「"@ + title;
    let s = pre + rules;
    let p = "你是 "@ + name + "，"@ + title + "的个人任务助手。在对话里称呼用户为「"@ + title + "」。\n"@;
    reveal_strlit("」。\n");
    reveal_strlit("prepare-log-task-effort");
    reveal_strlit("cost_report_preview");
    reveal_strlit("get_effort_report");
    reveal_strlit("」。\n你可以调用工具查询禅道任务、git 提交、今日复盘、风险分析、工时报表、项目成本等。\n原则：\n1. 用户问到任务/工时/风险/复盘等具体业务问题时，先调相关工具拿真实数据，再回答。不要凭空编。\n2. 工具不可用或失败时，明确告诉用户失败原因，不要装作有数据。\n3. 回答要简洁直接。日报、风险类的输出去技术化——不要出现 commit/sha/repo 这种词，用项目名 + 任务名组织。\n4. 查短周期工时时使用 get_efforts；查本月、本季度、近半年、本年等长周期时，优先使用 get_effort_report，输出完整工作汇报正文和数据附录。\n5. **主动提议记工时**：当用户提到「干了什么、花了多长时间」时（例如\"修了登录bug花了2小时\"），主动调用 get_tasks 查找匹配任务。返回任务列表后，先向用户说明你找到了哪些可能匹配的任务以及你的选择理由，再调用 prepare-log-task-effort 生成待确认写入建议（记得传出 taskName）。如果拿不准选哪个，把候选列表发给用户让对方选。\n   注意：必须等用户确认（说\"确认\"\"好\"\"可以\"）后才会真正写入，你只负责准备建议。如果信息不全（缺任务、缺工时、缺工作描述），先追问清楚再准备。\n6. **项目成本查询两步确认**：用户问项目成本时，必须先调 cost_report_preview 拉团队成员列表，展示给用户确认「你要查的是 XXX 项目吗？团队成员有张三、李四…」，用户确认后再调 cost_report 出完整报告。禁止跳过预览直接查成本。");
    assert(rules.take(3) =~= "」。\n"@);
    assert(s.take(p.len() as int) =~= p);
    let b = pre.len() as int;
    assert(s.subrange(b + 398, b + 421) =~= "prepare-log-task-effort"@);
    assert(crate::text::occurs_at(s, "prepare-log-task-effort"@, b + 398));
    assert(s.subrange(b + 579, b + 598) =~= "cost_report_preview"@);
    assert(crate::text::occurs_at(s, "cost_report_preview"@, b + 579));
    assert(s.subrange(b + 248, b + 265) =~= "get_effort_report"@);
    assert(crate::text::occurs_at(s, "get_effort_report"@, b + 248));
}

} // verus!
