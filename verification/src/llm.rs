//! LLM wire formats: message and tool-call types, endpoint URLs, which
//! errors are retried, and the conversion of a conversation to the Anthropic
//! Messages shape (system prompt lifted out, tool results folded into user
//! turns) and back.

use vstd::prelude::*;
use crate::channels::strip_trailing;
use crate::text::{
    chars_of, contains_any, contains_any_of, ends_with_chars, owned, push_str, seq_ends_with,
    slice_chars, string_of, trim_chars, trim_seq,
};

verus! {

/// A piece of streamed assistant text.
#[derive(Debug, Clone)]
pub struct StreamDelta {
    pub text: String,
}

/// Who wrote a message.
#[derive(Debug, Clone, Copy, PartialEq, Eq, Structural)]
pub enum Role {
    System,
    User,
    Assistant,
    Tool,
}

/// A call of one tool made by the assistant.
#[derive(Debug, Clone)]
pub struct ToolCall {
    pub id: String,
    /// Always `function`.
    pub kind: String,
    pub function: ToolCallFunction,
}

/// The tool named in a call and its JSON arguments.
#[derive(Debug, Clone)]
pub struct ToolCallFunction {
    pub name: String,
    /// JSON text; models may produce invalid JSON.
    pub arguments: String,
}

/// One message of a conversation.
#[derive(Debug, Clone)]
pub struct ChatMessage {
    pub role: Role,
    pub content: String,
    /// Tool calls of an assistant message.
    pub tool_calls: Option<Vec<ToolCall>>,
    /// The call a tool message answers.
    pub tool_call_id: Option<String>,
    /// Tool name of a tool message.
    pub name: Option<String>,
}

/// Whether and which tool the model must call.
#[derive(Debug, Clone)]
pub enum ToolChoice {
    Auto,
    /// No tool may be called (`none` on the wire).
    Disabled,
    Function(String),
}

/// A model's reply.
#[derive(Debug, Clone)]
pub struct ChatResponse {
    pub text: String,
    pub tool_calls: Vec<ToolCall>,
    /// `stop`, `tool_calls`, `length`, ...
    pub finish_reason: String,
    pub tokens_in: u64,
    pub tokens_out: u64,
    pub model: String,
}

/// Error texts of transient failures: rate limiting, gateway errors, timeouts.
pub open spec fn retryable_markers() -> Seq<Seq<char>> {
    seq!["LLM HTTP 429"@, "LLM HTTP 502"@, "LLM HTTP 503"@, "LLM HTTP 504"@, "LLM 请求超时"@]
}

/// Whether a failed LLM call is worth another attempt.
pub fn should_retry_llm_error(e: &str) -> (r: bool)
    ensures
        r == contains_any(e@, retryable_markers()),
{
    let markers: Vec<&str> = vec!["LLM HTTP 429", "LLM HTTP 502", "LLM HTTP 503", "LLM HTTP 504", "LLM 请求超时"];
    assert(markers@.map_values(|m: &str| m@) =~= retryable_markers());
    contains_any_of(&chars_of(e), &markers)
}

/// After a failure on attempt `attempt` (0, 1, 2), whether to try again:
/// transient errors get up to three attempts in all.
pub fn retry_after_failure(attempt: u32, error: &str) -> (r: bool)
    ensures
        r == (contains_any(error@, retryable_markers()) && attempt < 2),
{
    should_retry_llm_error(error) && attempt < 2
}

/// The Anthropic Messages endpoint for a base URL: trailing `/` removed, then
/// `/messages` after a base ending in `/v1`, `/v1/messages` otherwise.
pub open spec fn anthropic_url_spec(raw_base: Seq<char>) -> Seq<char> {
    let t = strip_trailing(raw_base, '/');
    if seq_ends_with(t, "/v1"@) {
        t + "/messages"@
    } else {
        t + "/v1/messages"@
    }
}

fn strip_trailing_slashes(v: &Vec<char>) -> (r: Vec<char>)
    ensures
        r@ == strip_trailing(v@, '/'),
{
    let mut end = v.len();
    assert(v@.subrange(0, end as int) =~= v@);
    while end > 0 && v[end - 1] == '/'
        invariant
            end <= v.len(),
            strip_trailing(v@.subrange(0, end as int), '/') == strip_trailing(v@, '/'),
        decreases end,
    {
        assert(v@.subrange(0, end as int).drop_last() =~= v@.subrange(0, end - 1));
        end = end - 1;
    }
    slice_chars(v, 0, end)
}

/// The URL Anthropic-protocol requests go to.
pub fn build_anthropic_url(raw_base: &str) -> (r: String)
    ensures
        r@ == anthropic_url_spec(raw_base@),
{
    let t = strip_trailing_slashes(&chars_of(raw_base));
    let mut out = string_of(&t);
    if ends_with_chars(&t, &chars_of("/v1")) {
        push_str(&mut out, "/messages");
    } else {
        push_str(&mut out, "/v1/messages");
    }
    out
}

/// What `reqwest::Url::parse` finds in `s`: the scheme, the host, the
/// explicit non-default port and the path (`None` when `s` is not an
/// absolute URL).
pub uninterp spec fn url_parts_of(s: Seq<char>) -> Option<(Seq<char>, Option<Seq<char>>, Option<u16>, Seq<char>)>;

/// The parts of a URL as plain values.
pub open spec fn parts_view(p: (String, Option<String>, Option<u16>, String)) -> (Seq<char>, Option<Seq<char>>, Option<u16>, Seq<char>) {
    (p.0@, match p.1 {
        Some(h) => Some(h@),
        None => None,
    }, p.2, p.3@)
}

/// `reqwest::Url::parse(s)`, then its `scheme()`, `host_str()`, `port()`
/// and `path()`; the parse error is dropped. The result is named, not
/// stated.
#[verifier::external_body]
pub(crate) fn parse_url(s: &str) -> (r: Option<(String, Option<String>, Option<u16>, String)>)
    ensures
        match r {
            Some(p) => url_parts_of(s@) == Some(parts_view(p)),
            None => url_parts_of(s@).is_none(),
        },
{
    match reqwest::Url::parse(s) {
        Ok(u) => Some((u.scheme().to_string(), u.host_str().map(str::to_string), u.port(), u.path().to_string())),
        Err(_) => None,
    }
}

/// The path of a URL, if it parses.
pub open spec fn url_path_of(s: Seq<char>) -> Option<Seq<char>> {
    match url_parts_of(s) {
        Some(p) => Some(p.3),
        None => None,
    }
}

/// A base URL has its own path prefix (`/v1`, `/codex`, ...) when it parses
/// and its path is neither empty nor `/`.
pub open spec fn custom_prefix_spec(path: Option<Seq<char>>) -> bool {
    match path {
        Some(p) => !(p.len() == 0 || p == "/"@),
        None => false,
    }
}

/// Whether a parsed base URL path is a prefix of its own.
pub fn has_custom_prefix(path: &Option<String>) -> (r: bool)
    ensures
        r == custom_prefix_spec(match path {
            Some(p) => Some(p@),
            None => None,
        }),
{
    match path {
        Some(p) => {
            let v = chars_of(p.as_str());
            proof {
                reveal_strlit("/");
            }
            let r = !(v.len() == 0 || (v.len() == 1 && v[0] == '/'));
            assert(v@.len() == 1 && v@[0] == '/' ==> v@ =~= "/"@);
            assert(v@ == "/"@ ==> v@.len() == 1 && v@[0] == '/');
            r
        },
        None => false,
    }
}

/// The URL of an OpenAI-style endpoint (`chat/completions`, `responses`):
/// a bare host gets `/v1/` before the endpoint, a base with its own path
/// prefix gets only `/`.
pub open spec fn endpoint_url_spec(raw_base: Seq<char>, endpoint: Seq<char>) -> Seq<char> {
    let t = strip_trailing(raw_base, '/');
    if custom_prefix_spec(url_path_of(t)) {
        t + "/"@ + endpoint
    } else {
        t + "/v1/"@ + endpoint
    }
}

/// Builds the URL of an OpenAI-style endpoint.
pub fn build_endpoint_url(raw_base: &str, endpoint: &str) -> (r: String)
    ensures
        r@ == endpoint_url_spec(raw_base@, endpoint@),
{
    let t = string_of(&strip_trailing_slashes(&chars_of(raw_base)));
    let path = match parse_url(t.as_str()) {
        Some(p) => Some(p.3),
        None => None,
    };
    endpoint_url_after_parse(t.as_str(), &path, endpoint)
}

/// The endpoint URL once the trimmed base has been parsed.
pub fn endpoint_url_after_parse(trimmed: &str, path: &Option<String>, endpoint: &str) -> (r: String)
    ensures
        r@ == if custom_prefix_spec(match path {
            Some(p) => Some(p@),
            None => None,
        }) {
            trimmed@ + "/"@ + endpoint@
        } else {
            trimmed@ + "/v1/"@ + endpoint@
        },
{
    let mut out = owned(trimmed);
    if has_custom_prefix(path) {
        push_str(&mut out, "/");
    } else {
        push_str(&mut out, "/v1/");
    }
    push_str(&mut out, endpoint);
    out
}

/// Checks that the credentials name a key and a server.
pub fn check_llm_credentials(api_key: &str, base_url: &str) -> (r: Result<(), String>)
    ensures
        api_key@.len() == 0 ==> r.is_err() && r->Err_0@
            == "LLM apiKey 未配置（检查 ~/.jarvis/config.json 的 llm.apiKey 或 env LLM_API_KEY）"@,
        api_key@.len() > 0 && base_url@.len() == 0 ==> r.is_err() && r->Err_0@ == "LLM baseUrl 未配置"@,
        api_key@.len() > 0 && base_url@.len() > 0 ==> r.is_ok(),
{
    if api_key.is_empty() {
        return Err(owned("LLM apiKey 未配置（检查 ~/.jarvis/config.json 的 llm.apiKey 或 env LLM_API_KEY）"));
    }
    if base_url.is_empty() {
        return Err(owned("LLM baseUrl 未配置"));
    }
    Ok(())
}

/// Whether `serde_json` parses `s` as JSON.
pub uninterp spec fn json_parses(s: Seq<char>) -> bool;

/// `serde_json::from_str::<Value>(s).is_ok()`. The answer is named, not
/// stated.
#[verifier::external_body]
fn is_valid_json(s: &str) -> (r: bool)
    ensures
        r == json_parses(s@),
{
    serde_json::from_str::<serde_json::Value>(s).is_ok()
}

/// A content block of an Anthropic message.
#[derive(Debug, Clone)]
pub enum AnthropicBlock {
    Text(String),
    /// A tool call; `input` is the JSON text of the arguments object.
    ToolUse { id: String, name: String, input: String },
    /// A tool's answer to the call `tool_use_id`.
    ToolResult { tool_use_id: String, content: String },
}

/// The content of an Anthropic message: plain text or blocks.
#[derive(Debug, Clone)]
pub enum AnthropicContent {
    Text(String),
    Blocks(Vec<AnthropicBlock>),
}

/// A message of an Anthropic Messages request (role user or assistant).
#[derive(Debug, Clone)]
pub struct AnthropicMessage {
    pub role: Role,
    pub content: AnthropicContent,
}

/// A block as plain values.
pub enum BlockView {
    Text(Seq<char>),
    ToolUse(Seq<char>, Seq<char>, Seq<char>),
    ToolResult(Seq<char>, Seq<char>),
}

/// Message content as plain values.
pub enum ContentView {
    Text(Seq<char>),
    Blocks(Seq<BlockView>),
}

/// A message as plain values.
pub struct MessageView {
    pub role: Role,
    pub content: ContentView,
}

pub open spec fn block_view(b: AnthropicBlock) -> BlockView {
    match b {
        AnthropicBlock::Text(t) => BlockView::Text(t@),
        AnthropicBlock::ToolUse { id, name, input } => BlockView::ToolUse(id@, name@, input@),
        AnthropicBlock::ToolResult { tool_use_id, content } => BlockView::ToolResult(
            tool_use_id@,
            content@,
        ),
    }
}

pub open spec fn message_view(m: AnthropicMessage) -> MessageView {
    MessageView {
        role: m.role,
        content: match m.content {
            AnthropicContent::Text(t) => ContentView::Text(t@),
            AnthropicContent::Blocks(bs) => ContentView::Blocks(
                bs@.map_values(|b: AnthropicBlock| block_view(b)),
            ),
        },
    }
}

pub open spec fn messages_view(ms: Seq<AnthropicMessage>) -> Seq<MessageView> {
    ms.map_values(|m: AnthropicMessage| message_view(m))
}

/// The `input` of a tool-use block: the call's arguments when they are JSON,
/// `{}` otherwise.
pub open spec fn tool_input(arguments: Seq<char>) -> Seq<char> {
    if json_parses(arguments) {
        arguments
    } else {
        "{}"@
    }
}

/// The tool-use blocks of a list of calls.
pub open spec fn tool_use_blocks(calls: Seq<ToolCall>) -> Seq<BlockView> {
    calls.map_values(|c: ToolCall| BlockView::ToolUse(c.id@, c.function.name@, tool_input(c.function.arguments@)))
}

/// One message folded into the request built so far (`sys`: system texts,
/// `out`: messages). System text is lifted out; a tool result joins the
/// previous user message when that one already holds blocks, else opens one;
/// an assistant message with tool calls becomes its text (when not blank)
/// and the calls as blocks; other messages are copied as text. A tool message
/// without the call id it answers is an error (`None`).
pub open spec fn fold_step(
    sys: Seq<Seq<char>>,
    out: Seq<MessageView>,
    m: ChatMessage,
) -> Option<(Seq<Seq<char>>, Seq<MessageView>)> {
    match m.role {
        Role::System => Some(
            (
                if trim_seq(m.content@).len() > 0 {
                    sys.push(m.content@)
                } else {
                    sys
                },
                out,
            ),
        ),
        Role::Tool => match m.tool_call_id {
            None => None,
            Some(id) => {
                let block = BlockView::ToolResult(id@, m.content@);
                if out.len() > 0 && out.last().role == Role::User && out.last().content is Blocks {
                    Some(
                        (
                            sys,
                            out.update(
                                out.len() - 1,
                                MessageView {
                                    role: Role::User,
                                    content: ContentView::Blocks(
                                        out.last().content->Blocks_0.push(block),
                                    ),
                                },
                            ),
                        ),
                    )
                } else {
                    Some(
                        (
                            sys,
                            out.push(
                                MessageView {
                                    role: Role::User,
                                    content: ContentView::Blocks(seq![block]),
                                },
                            ),
                        ),
                    )
                }
            },
        },
        Role::Assistant => match m.tool_calls {
            Some(calls) => if calls@.len() > 0 {
                let text: Seq<BlockView> = if trim_seq(m.content@).len() > 0 {
                    seq![BlockView::Text(m.content@)]
                } else {
                    Seq::empty()
                };
                Some(
                    (
                        sys,
                        out.push(
                            MessageView {
                                role: Role::Assistant,
                                content: ContentView::Blocks(text + tool_use_blocks(calls@)),
                            },
                        ),
                    ),
                )
            } else {
                Some(
                    (
                        sys,
                        out.push(
                            MessageView { role: Role::Assistant, content: ContentView::Text(m.content@) },
                        ),
                    ),
                )
            },
            None => Some(
                (
                    sys,
                    out.push(
                        MessageView { role: Role::Assistant, content: ContentView::Text(m.content@) },
                    ),
                ),
            ),
        },
        Role::User => Some(
            (sys, out.push(MessageView { role: Role::User, content: ContentView::Text(m.content@) })),
        ),
    }
}

/// A whole conversation folded, message by message.
pub open spec fn anthropic_fold(ms: Seq<ChatMessage>) -> Option<(Seq<Seq<char>>, Seq<MessageView>)>
    decreases ms.len(),
{
    if ms.len() == 0 {
        Some((Seq::empty(), Seq::empty()))
    } else {
        match anthropic_fold(ms.drop_last()) {
            Some((sys, out)) => fold_step(sys, out, ms.last()),
            None => None,
        }
    }
}

/// Parts joined by `sep`.
pub open spec fn join_sep(parts: Seq<Seq<char>>, sep: Seq<char>) -> Seq<char>
    decreases parts.len(),
{
    if parts.len() == 0 {
        Seq::empty()
    } else if parts.len() == 1 {
        parts[0]
    } else {
        join_sep(parts.drop_last(), sep) + sep + parts.last()
    }
}

proof fn lemma_fold_none_extends(ms: Seq<ChatMessage>, k: int)
    requires
        0 <= k <= ms.len(),
        anthropic_fold(ms.take(k)).is_none(),
    ensures
        anthropic_fold(ms).is_none(),
    decreases ms.len() - k,
{
    if k < ms.len() {
        assert(ms.take(k + 1).drop_last() =~= ms.take(k));
        lemma_fold_none_extends(ms, k + 1);
    } else {
        assert(ms.take(k) =~= ms);
    }
}

fn tool_use_block_list(calls: &Vec<ToolCall>) -> (r: Vec<AnthropicBlock>)
    ensures
        r@.map_values(|b: AnthropicBlock| block_view(b)) == tool_use_blocks(calls@),
{
    let mut out: Vec<AnthropicBlock> = Vec::new();
    let mut i: usize = 0;
    while i < calls.len()
        invariant
            i <= calls.len(),
            out@.map_values(|b: AnthropicBlock| block_view(b)) == tool_use_blocks(calls@.take(i as int)),
        decreases calls.len() - i,
    {
        let c = &calls[i];
        let input = if is_valid_json(c.function.arguments.as_str()) {
            c.function.arguments.clone()
        } else {
            owned("{}")
        };
        assert(input@ == tool_input(c.function.arguments@));
        let ghost before = out@.map_values(|b: AnthropicBlock| block_view(b));
        let ghost bv = BlockView::ToolUse(c.id@, c.function.name@, tool_input(c.function.arguments@));
        out.push(AnthropicBlock::ToolUse { id: c.id.clone(), name: c.function.name.clone(), input });
        assert(out@.map_values(|b: AnthropicBlock| block_view(b)) =~= before.push(bv));
        assert(tool_use_blocks(calls@.take(i + 1)) =~= tool_use_blocks(calls@.take(i as int)).push(bv));
        i = i + 1;
        assert(out@.map_values(|b: AnthropicBlock| block_view(b)) =~= tool_use_blocks(
            calls@.take(i as int),
        ));
    }
    assert(calls@.take(calls.len() as int) =~= calls@);
    out
}

fn join_parts(parts: &Vec<String>, sep: &str) -> (r: String)
    ensures
        r@ == join_sep(parts@.map_values(|s: String| s@), sep@),
{
    let ghost ps = parts@.map_values(|s: String| s@);
    let mut out = String::new();
    let mut i: usize = 0;
    assert(ps.take(0) =~= Seq::<Seq<char>>::empty());
    while i < parts.len()
        invariant
            i <= parts.len(),
            ps == parts@.map_values(|s: String| s@),
            out@ == join_sep(ps.take(i as int), sep@),
        decreases parts.len() - i,
    {
        assert(ps.take(i + 1).drop_last() =~= ps.take(i as int));
        assert(ps.take(i + 1).last() == parts@[i as int]@);
        if i > 0 {
            push_str(&mut out, sep);
        }
        push_str(&mut out, parts[i].as_str());
        i = i + 1;
        assert(out@ =~= join_sep(ps.take(i as int), sep@));
    }
    assert(ps.take(parts.len() as int) =~= ps);
    out
}

/// Converts a conversation to an Anthropic Messages request: the system
/// text (system messages joined by blank lines) and the messages.
pub fn messages_to_anthropic(messages: &Vec<ChatMessage>) -> (r: Result<(String, Vec<AnthropicMessage>), String>)
    ensures
        match anthropic_fold(messages@) {
            Some((sys, out)) => r.is_ok() && r->Ok_0.0@ == join_sep(sys, "\n\n"@) && messages_view(
                r->Ok_0.1@,
            ) == out,
            None => r.is_err() && r->Err_0@ == "tool 消息缺少 tool_call_id，Anthropic 无法定位 tool_result"@,
        },
{
    let mut sys: Vec<String> = Vec::new();
    let mut out: Vec<AnthropicMessage> = Vec::new();
    let mut i: usize = 0;
    assert(messages@.take(0) =~= Seq::<ChatMessage>::empty());
    assert(sys@.map_values(|s: String| s@) =~= Seq::<Seq<char>>::empty());
    assert(messages_view(out@) =~= Seq::<MessageView>::empty());
    while i < messages.len()
        invariant
            i <= messages.len(),
            anthropic_fold(messages@.take(i as int)) == Some(
                (sys@.map_values(|s: String| s@), messages_view(out@)),
            ),
        decreases messages.len() - i,
    {
        let m = &messages[i];
        assert(messages@.take(i + 1).drop_last() =~= messages@.take(i as int));
        assert(messages@.take(i + 1).last() == *m);
        let ghost sv = sys@.map_values(|s: String| s@);
        let ghost ov = messages_view(out@);
        assert(anthropic_fold(messages@.take(i + 1)) == fold_step(sv, ov, *m));
        match m.role {
            Role::System => {
                let t = trim_chars(&chars_of(m.content.as_str()));
                if t.len() > 0 {
                    sys.push(m.content.clone());
                    assert(sys@.map_values(|s: String| s@) =~= sv.push(m.content@));
                }
            },
            Role::Tool => {
                let id = match &m.tool_call_id {
                    Some(id) => id,
                    None => {
                        proof {
                            lemma_fold_none_extends(messages@, i + 1);
                        }
                        return Err(owned("tool 消息缺少 tool_call_id，Anthropic 无法定位 tool_result"));
                    },
                };
                let block = AnthropicBlock::ToolResult { tool_use_id: id.clone(), content: m.content.clone() };
                let n = out.len();
                let fold_into = n > 0 && out[n - 1].role == Role::User && match &out[n - 1].content {
                    AnthropicContent::Blocks(_) => true,
                    AnthropicContent::Text(_) => false,
                };
                if fold_into {
                    let ghost lastv = ov[ov.len() - 1];
                    let last = out.pop().unwrap();
                    assert(messages_view(out@) =~= ov.drop_last());
                    assert(message_view(last) == lastv);
                    match last.content {
                        AnthropicContent::Blocks(bs) => {
                            let mut bs = bs;
                            let ghost old_bs = bs@.map_values(|b: AnthropicBlock| block_view(b));
                            bs.push(block);
                            assert(bs@.map_values(|b: AnthropicBlock| block_view(b)) =~= old_bs.push(
                                BlockView::ToolResult(id@, m.content@),
                            ));
                            assert(lastv.content->Blocks_0 == old_bs);
                            out.push(AnthropicMessage { role: Role::User, content: AnthropicContent::Blocks(bs) });
                            assert(messages_view(out@) =~= ov.update(
                                ov.len() - 1,
                                MessageView {
                                    role: Role::User,
                                    content: ContentView::Blocks(old_bs.push(BlockView::ToolResult(id@, m.content@))),
                                },
                            ));
                        },
                        AnthropicContent::Text(_) => {
                            assert(false);
                        },
                    }
                } else {
                    let mut bs: Vec<AnthropicBlock> = Vec::new();
                    bs.push(block);
                    assert(bs@.map_values(|b: AnthropicBlock| block_view(b)) =~= seq![BlockView::ToolResult(id@, m.content@)]);
                    out.push(AnthropicMessage { role: Role::User, content: AnthropicContent::Blocks(bs) });
                    assert(messages_view(out@) =~= ov.push(
                        MessageView {
                            role: Role::User,
                            content: ContentView::Blocks(seq![BlockView::ToolResult(id@, m.content@)]),
                        },
                    ));
                }
            },
            Role::Assistant => {
                let with_calls = match &m.tool_calls {
                    Some(calls) => calls.len() > 0,
                    None => false,
                };
                if with_calls {
                    let calls = match &m.tool_calls {
                        Some(calls) => calls,
                        None => {
                            assert(false);
                            return Err(String::new());
                        },
                    };
                    let mut bs: Vec<AnthropicBlock> = Vec::new();
                    let t = trim_chars(&chars_of(m.content.as_str()));
                    if t.len() > 0 {
                        bs.push(AnthropicBlock::Text(m.content.clone()));
                    }
                    let ghost text_part = bs@.map_values(|b: AnthropicBlock| block_view(b));
                    assert(text_part =~= (if trim_seq(m.content@).len() > 0 {
                        seq![BlockView::Text(m.content@)]
                    } else {
                        Seq::<BlockView>::empty()
                    }));
                    let mut uses = tool_use_block_list(calls);
                    let ghost use_part = uses@.map_values(|b: AnthropicBlock| block_view(b));
                    assert(m.tool_calls == Some(*calls));
                    bs.append(&mut uses);
                    assert(bs@.map_values(|b: AnthropicBlock| block_view(b)) =~= text_part + use_part);
                    out.push(AnthropicMessage { role: Role::Assistant, content: AnthropicContent::Blocks(bs) });
                    assert(messages_view(out@) =~= ov.push(
                        MessageView {
                            role: Role::Assistant,
                            content: ContentView::Blocks(text_part + tool_use_blocks(calls@)),
                        },
                    ));
                } else {
                    out.push(AnthropicMessage { role: Role::Assistant, content: AnthropicContent::Text(m.content.clone()) });
                    assert(messages_view(out@) =~= ov.push(
                        MessageView { role: Role::Assistant, content: ContentView::Text(m.content@) },
                    ));
                }
            },
            Role::User => {
                out.push(AnthropicMessage { role: Role::User, content: AnthropicContent::Text(m.content.clone()) });
                assert(messages_view(out@) =~= ov.push(
                    MessageView { role: Role::User, content: ContentView::Text(m.content@) },
                ));
            },
        }
        assert(fold_step(sv, ov, *m) == Some((sys@.map_values(|s: String| s@), messages_view(out@))));
        i = i + 1;
    }
    assert(messages@.take(messages.len() as int) =~= messages@);
    let system = join_parts(&sys, "\n\n");
    Ok((system, out))
}

/// A content block of an Anthropic reply, as read from the response JSON.
#[derive(Debug, Clone)]
pub struct ReplyBlock {
    /// `type`: `text`, `tool_use`, `thinking`, ...
    pub kind: String,
    pub text: Option<String>,
    pub id: Option<String>,
    pub name: Option<String>,
    /// JSON text of a tool call's `input`, when present.
    pub input: Option<String>,
}

/// The parts of an Anthropic reply the client reads.
#[derive(Debug, Clone)]
pub struct AnthropicReply {
    pub blocks: Vec<ReplyBlock>,
    pub stop_reason: Option<String>,
    pub input_tokens: Option<u64>,
    pub output_tokens: Option<u64>,
    pub model: Option<String>,
    /// The reply text shortened for error messages.
    pub snippet: String,
}

/// The reply text: the text blocks, in order, concatenated.
pub open spec fn reply_text(bs: Seq<ReplyBlock>) -> Seq<char>
    decreases bs.len(),
{
    if bs.len() == 0 {
        Seq::empty()
    } else {
        let b = bs.last();
        reply_text(bs.drop_last()) + if b.kind@ == "text"@ && b.text.is_some() {
            b.text.unwrap()@
        } else {
            Seq::empty()
        }
    }
}

/// A tool call as plain values: id, type, name, arguments.
pub open spec fn call_view(c: ToolCall) -> (Seq<char>, Seq<char>, Seq<char>, Seq<char>) {
    (c.id@, c.kind@, c.function.name@, c.function.arguments@)
}

/// The tool calls of a reply: its `tool_use` blocks with a non-empty id and
/// name, the input as JSON text (`{}` when missing).
pub open spec fn reply_calls(bs: Seq<ReplyBlock>) -> Seq<(Seq<char>, Seq<char>, Seq<char>, Seq<char>)>
    decreases bs.len(),
{
    if bs.len() == 0 {
        Seq::empty()
    } else {
        let b = bs.last();
        let id = match b.id {
            Some(x) => x@,
            None => Seq::empty(),
        };
        let name = match b.name {
            Some(x) => x@,
            None => Seq::empty(),
        };
        let args = match b.input {
            Some(x) => x@,
            None => "{}"@,
        };
        reply_calls(bs.drop_last()) + if b.kind@ == "tool_use"@ && id.len() > 0 && name.len() > 0 {
            seq![(id, "function"@, name, args)]
        } else {
            Seq::empty()
        }
    }
}

/// Anthropic's stop reasons map to chat finish reasons: `tool_use` to
/// `tool_calls`, `max_tokens` to `length`, any other (or none) to `stop`.
pub proof fn lemma_anthropic_finish_reasons(stop: Option<Seq<char>>)
    ensures
        stop == Some("tool_use"@) ==> finish_reason_spec(stop) == "tool_calls"@,
        stop == Some("max_tokens"@) ==> finish_reason_spec(stop) == "length"@,
        stop != Some("tool_use"@) && stop != Some("max_tokens"@) ==> finish_reason_spec(stop) == "stop"@,
{
    reveal_strlit("tool_use");
    reveal_strlit("max_tokens");
    assert("tool_use"@.len() != "max_tokens"@.len());
}

/// A reply block that carries a tool call: a `tool_use` block with a
/// non-empty id and a non-empty name.
pub open spec fn is_call_block(b: ReplyBlock) -> bool {
    &&& b.kind@ == "tool_use"@
    &&& b.id matches Some(x) && x@.len() > 0
    &&& b.name matches Some(y) && y@.len() > 0
}

/// The call such a block carries: its id, type `function`, its name and its
/// input (`{}` when it has none).
pub open spec fn block_call(b: ReplyBlock) -> (Seq<char>, Seq<char>, Seq<char>, Seq<char>) {
    (b.id.unwrap()@, "function"@, b.name.unwrap()@, match b.input {
        Some(x) => x@,
        None => "{}"@,
    })
}

/// The tool calls of a reply are exactly its call blocks, each once, in
/// order: a block added at the end adds its call (if it carries one) after
/// all the others, and the number of calls is the number of call blocks.
pub proof fn lemma_reply_calls_are_call_blocks(bs: Seq<ReplyBlock>)
    ensures
        reply_calls(bs) == bs.filter(|b: ReplyBlock| is_call_block(b)).map_values(|b: ReplyBlock| block_call(b)),
        reply_calls(bs).len() == bs.filter(|b: ReplyBlock| is_call_block(b)).len(),
        forall|b: ReplyBlock|
            #[trigger] reply_calls(bs.push(b)) == reply_calls(bs) + if is_call_block(b) {
                seq![block_call(b)]
            } else {
                Seq::empty()
            },
        forall|b: ReplyBlock|
            #[trigger] reply_text(bs.push(b)) == reply_text(bs) + if b.kind@ == "text"@ && b.text.is_some() {
                b.text.unwrap()@
            } else {
                Seq::empty()
            },
    decreases bs.len(),
{
    reveal(Seq::filter);
    let f = bs.filter(|b: ReplyBlock| is_call_block(b));
    if bs.len() > 0 {
        lemma_reply_calls_are_call_blocks(bs.drop_last());
        let g = bs.drop_last().filter(|b: ReplyBlock| is_call_block(b));
        let m = g.map_values(|b: ReplyBlock| block_call(b));
        if is_call_block(bs.last()) {
            assert(f == g.push(bs.last()));
            assert(f.map_values(|b: ReplyBlock| block_call(b)) =~= m.push(block_call(bs.last())));
        } else {
            assert(f == g);
        }
    } else {
        assert(f =~= Seq::<ReplyBlock>::empty());
        assert(reply_calls(bs) =~= f.map_values(|b: ReplyBlock| block_call(b)));
    }
    assert forall|b: ReplyBlock|
        #[trigger] reply_calls(bs.push(b)) == reply_calls(bs) + if is_call_block(b) {
            seq![block_call(b)]
        } else {
            Seq::empty()
        } by {
        assert(bs.push(b).drop_last() =~= bs);
        assert(bs.push(b).last() == b);
    }
    assert forall|b: ReplyBlock|
        #[trigger] reply_text(bs.push(b)) == reply_text(bs) + if b.kind@ == "text"@ && b.text.is_some() {
            b.text.unwrap()@
        } else {
            Seq::empty()
        } by {
        assert(bs.push(b).drop_last() =~= bs);
    }
}

/// `tool_use` → `tool_calls`, `max_tokens` → `length`, anything else → `stop`.
pub open spec fn finish_reason_spec(stop: Option<Seq<char>>) -> Seq<char> {
    match stop {
        Some(s) => if s == "tool_use"@ {
            "tool_calls"@
        } else if s == "max_tokens"@ {
            "length"@
        } else {
            "stop"@
        },
        None => "stop"@,
    }
}

fn reply_parts(bs: &Vec<ReplyBlock>) -> (r: (String, Vec<ToolCall>))
    ensures
        r.0@ == reply_text(bs@),
        r.1@.map_values(|c: ToolCall| call_view(c)) == reply_calls(bs@),
{
    let mut text = String::new();
    let mut calls: Vec<ToolCall> = Vec::new();
    let mut i: usize = 0;
    assert(bs@.take(0) =~= Seq::<ReplyBlock>::empty());
    while i < bs.len()
        invariant
            i <= bs.len(),
            text@ == reply_text(bs@.take(i as int)),
            calls@.map_values(|c: ToolCall| call_view(c)) == reply_calls(bs@.take(i as int)),
        decreases bs.len() - i,
    {
        let b = &bs[i];
        assert(bs@.take(i + 1).drop_last() =~= bs@.take(i as int));
        assert(bs@.take(i + 1).last() == *b);
        let kind = chars_of(b.kind.as_str());
        let ghost text_before = text@;
        if crate::text::seq_eq(&kind, &chars_of("text")) {
            match &b.text {
                Some(t) => push_str(&mut text, t.as_str()),
                None => {},
            }
        }
        assert(text@ =~= reply_text(bs@.take(i + 1)));
        if crate::text::seq_eq(&kind, &chars_of("tool_use")) {
            let id = match &b.id {
                Some(x) => x.clone(),
                None => String::new(),
            };
            let name = match &b.name {
                Some(x) => x.clone(),
                None => String::new(),
            };
            let args = match &b.input {
                Some(x) => x.clone(),
                None => owned("{}"),
            };
            if !id.as_str().is_empty() && !name.as_str().is_empty() {
                let ghost before = calls@.map_values(|c: ToolCall| call_view(c));
                calls.push(ToolCall { id, kind: owned("function"), function: ToolCallFunction { name, arguments: args } });
                assert(calls@.map_values(|c: ToolCall| call_view(c)) =~= before.push(
                    call_view(calls@[calls.len() - 1]),
                ));
            }
        }
        i = i + 1;
        assert(calls@.map_values(|c: ToolCall| call_view(c)) =~= reply_calls(bs@.take(i as int)));
    }
    assert(bs@.take(bs.len() as int) =~= bs@);
    (text, calls)
}

/// Reads an Anthropic reply into a `ChatResponse`. A reply with neither text
/// nor tool calls is an error.
pub fn parse_anthropic_output(data: &AnthropicReply, fallback_model: &str) -> (r: Result<ChatResponse, String>)
    ensures
        ({
            let text = reply_text(data.blocks@);
            let calls = reply_calls(data.blocks@);
            if text.len() == 0 && calls.len() == 0 {
                r.is_err() && r->Err_0@ == "Anthropic 响应既无文本也无 tool_calls: "@ + data.snippet@
            } else {
                &&& r.is_ok()
                &&& r->Ok_0.text@ == text
                &&& r->Ok_0.tool_calls@.map_values(|c: ToolCall| call_view(c)) == calls
                &&& r->Ok_0.finish_reason@ == finish_reason_spec(match data.stop_reason {
                    Some(s) => Some(s@),
                    None => None,
                })
                &&& r->Ok_0.tokens_in == data.input_tokens.unwrap_or(0)
                &&& r->Ok_0.tokens_out == data.output_tokens.unwrap_or(0)
                &&& r->Ok_0.model@ == match data.model {
                    Some(m) => m@,
                    None => fallback_model@,
                }
            }
        }),
{
    let (text, tool_calls) = reply_parts(&data.blocks);
    if text.as_str().is_empty() && tool_calls.len() == 0 {
        let mut msg = owned("Anthropic 响应既无文本也无 tool_calls: ");
        push_str(&mut msg, data.snippet.as_str());
        return Err(msg);
    }
    let finish_reason = match &data.stop_reason {
        Some(s) => {
            let v = chars_of(s.as_str());
            if crate::text::seq_eq(&v, &chars_of("tool_use")) {
                owned("tool_calls")
            } else if crate::text::seq_eq(&v, &chars_of("max_tokens")) {
                owned("length")
            } else {
                owned("stop")
            }
        },
        None => owned("stop"),
    };
    let model = match &data.model {
        Some(m) => m.clone(),
        None => owned(fallback_model),
    };
    let tokens_in = match data.input_tokens {
        Some(n) => n,
        None => 0,
    };
    let tokens_out = match data.output_tokens {
        Some(n) => n,
        None => 0,
    };
    Ok(ChatResponse { text, tool_calls, finish_reason, tokens_in, tokens_out, model })
}

/// Only user and assistant turns reach an Anthropic request: system text is
/// always lifted into the separate system field, and tool results travel
/// inside user turns.
pub proof fn lemma_anthropic_roles(ms: Seq<ChatMessage>)
    requires
        anthropic_fold(ms).is_some(),
    ensures
        forall|k: int|
            0 <= k < anthropic_fold(ms).unwrap().1.len() ==> (#[trigger] anthropic_fold(ms).unwrap().1[k]).role
                == Role::User || anthropic_fold(ms).unwrap().1[k].role == Role::Assistant,
    decreases ms.len(),
{
    if ms.len() > 0 {
        lemma_anthropic_roles(ms.drop_last());
        let (sys, out) = anthropic_fold(ms.drop_last()).unwrap();
        let out2 = anthropic_fold(ms).unwrap().1;
        assert forall|k: int| 0 <= k < out2.len() implies (#[trigger] out2[k]).role == Role::User
            || out2[k].role == Role::Assistant by {
            if k < out.len() && k != out.len() - 1 {
                assert(out2[k] == out[k]);
            } else if k < out.len() {
                assert(out2[k] == out[k] || out2[k].role == Role::User);
            }
        }
    }
}

/// A tool result that follows another tool result joins the same user turn:
/// the request gains no new message, and that turn ends with the new result.
pub proof fn lemma_tool_results_share_turn(ms: Seq<ChatMessage>)
    requires
        ms.len() >= 2,
        ms[ms.len() - 2].role == Role::Tool,
        ms.last().role == Role::Tool,
        anthropic_fold(ms).is_some(),
    ensures
        ({
            let before = anthropic_fold(ms.drop_last()).unwrap().1;
            let after = anthropic_fold(ms).unwrap().1;
            &&& after.len() == before.len()
            &&& after.last().role == Role::User
            &&& after.last().content matches ContentView::Blocks(bs) && bs.last() == BlockView::ToolResult(
                ms.last().tool_call_id.unwrap()@,
                ms.last().content@,
            )
        }),
{
    let prev = ms.drop_last();
    assert(prev.last() == ms[ms.len() - 2]);
    assert(anthropic_fold(prev).is_some());
    let out1 = anthropic_fold(prev).unwrap().1;
    assert(out1.len() > 0 && out1.last().role == Role::User && out1.last().content is Blocks);
}

/// The `tool_choice` of an Anthropic request.
#[derive(Debug, Clone)]
pub enum AnthropicToolChoice {
    /// `{"type": "auto"}`
    Auto,
    /// `{"type": "tool", "name": ...}`
    Tool(String),
}

/// A named function is forced; anything else (including "no tool", which not
/// every relay supports) lets the model choose.
pub fn tool_choice_to_anthropic(tc: Option<&ToolChoice>) -> (r: AnthropicToolChoice)
    ensures
        match tc {
            Some(ToolChoice::Function(name)) => r matches AnthropicToolChoice::Tool(n) && n@ == name@,
            _ => r is Auto,
        },
{
    match tc {
        Some(ToolChoice::Function(name)) => AnthropicToolChoice::Tool(name.clone()),
        _ => AnthropicToolChoice::Auto,
    }
}

} // verus!
