//! Chat channels (Telegram / QQ Bot): configuration, which channels run,
//! where proactive notifications go, and the per-message rules the router
//! applies before anything reaches the network.

use vstd::prelude::*;
use crate::text::{chars_of, owned, push_char, push_str, seq_eq, slice_chars, string_of, trim, trim_chars, trim_seq};

verus! {

/// Outcome of a proactive notification broadcast.
#[derive(Debug, Clone, Default)]
pub struct ChannelsNotifyResult {
    pub sent: usize,
    pub skipped: Vec<String>,
}

/// What a Telegram bot check found.
#[derive(Debug, Clone)]
pub struct TelegramProbeResult {
    pub ok: bool,
    pub bot_username: Option<String>,
    pub bot_name: Option<String>,
    pub recent_chats: Vec<TelegramRecentChat>,
    pub message: String,
}

/// A chat seen among a Telegram bot's recent updates.
#[derive(Debug, Clone)]
pub struct TelegramRecentChat {
    pub chat_id: String,
    pub chat_type: Option<String>,
    pub title: Option<String>,
    pub from_id: Option<String>,
    pub from_name: Option<String>,
    pub text: Option<String>,
}

/// What a QQ Bot credentials check found.
#[derive(Debug, Clone)]
pub struct QqBotProbeResult {
    pub ok: bool,
    pub token_ok: bool,
    pub gateway_ok: bool,
    pub gateway_url: Option<String>,
    pub message: String,
}

/// Text the assistant sends back on a channel.
#[derive(Debug, Clone)]
pub struct AgentReply {
    pub text: String,
}

/// Telegram bot settings.
#[derive(Debug, Clone, Default)]
pub struct TelegramConfig {
    pub enabled: bool,
    pub bot_token: String,
    pub api_base_url: String,
    pub proxy: String,
    pub allow_chat_ids: Vec<String>,
    pub notify_chat_ids: Vec<String>,
}

/// QQ Bot settings.
#[derive(Debug, Clone, Default)]
pub struct QqBotConfig {
    pub enabled: bool,
    pub app_id: String,
    pub app_secret: String,
    pub sandbox: bool,
    pub allow_user_ids: Vec<String>,
    pub allow_group_ids: Vec<String>,
    pub notify_user_ids: Vec<String>,
    pub notify_group_ids: Vec<String>,
}

/// The `channels` section of the configuration.
#[derive(Debug, Clone, Default)]
pub struct ChannelsConfig {
    pub auto_start: bool,
    pub telegram: TelegramConfig,
    pub qqbot: QqBotConfig,
}

/// Running state of the channel service shown in the settings page.
#[derive(Debug, Clone, Default)]
pub struct ChannelServiceStatus {
    pub running: bool,
    pub message: String,
}

impl ChannelServiceStatus {
    /// The status of a service that has not been started.
    pub fn initial() -> (r: Self)
        ensures
            !r.running,
            r.message@ == "未启动"@,
    {
        ChannelServiceStatus { running: false, message: owned("未启动") }
    }

    /// Records a new running flag and message.
    pub fn set_status(&mut self, running: bool, message: &str)
        ensures
            final(self).running == running,
            final(self).message@ == message@,
    {
        self.running = running;
        self.message = owned(message);
    }
}

/// Where a proactive notification is delivered.
#[derive(Debug, Clone)]
pub struct NotificationTarget {
    pub channel: String,
    pub chat_id: String,
}

/// A reply queued for one channel and chat.
#[derive(Debug, Clone)]
pub struct OutboundMessage {
    pub channel: String,
    pub chat_id: String,
    pub text: String,
}

/// Display names of the enabled channels, Telegram first.
pub open spec fn enabled_names_spec(cfg: ChannelsConfig) -> Seq<Seq<char>> {
    let t: Seq<Seq<char>> = if cfg.telegram.enabled { seq!["Telegram"@] } else { seq![] };
    if cfg.qqbot.enabled { t.push("QQ Bot"@) } else { t }
}

/// Names of the channels that are switched on.
pub fn enabled_names(cfg: &ChannelsConfig) -> (r: Vec<&'static str>)
    ensures
        r@.map_values(|s: &str| s@) == enabled_names_spec(*cfg),
{
    let mut out: Vec<&'static str> = Vec::new();
    if cfg.telegram.enabled {
        out.push("Telegram");
    }
    if cfg.qqbot.enabled {
        out.push("QQ Bot");
    }
    assert(out@.map_values(|s: &str| s@) =~= enabled_names_spec(*cfg));
    out
}

/// The channel service starts by itself when auto-start is on and some
/// channel is enabled.
pub fn should_auto_start(cfg: &ChannelsConfig) -> (r: bool)
    ensures
        r == (cfg.auto_start && (cfg.telegram.enabled || cfg.qqbot.enabled)),
{
    let names = enabled_names(cfg);
    assert(names@.map_values(|s: &str| s@).len() == names@.len());
    assert(enabled_names_spec(*cfg).len() > 0 <==> (cfg.telegram.enabled || cfg.qqbot.enabled));
    cfg.auto_start && names.len() > 0
}

/// The id list to notify: explicit notify ids, or the allow list when none
/// are given (older configurations).
pub open spec fn pick_ids(notify: Seq<Seq<char>>, allow: Seq<Seq<char>>) -> Seq<Seq<char>> {
    if notify.len() == 0 { allow } else { notify }
}

/// One `(channel, chat id)` pair per id that is not blank after trimming,
/// the chat id being `prefix` followed by the trimmed id.
pub open spec fn targets_from(ids: Seq<Seq<char>>, channel: Seq<char>, prefix: Seq<char>) -> Seq<
    (Seq<char>, Seq<char>),
>
    decreases ids.len(),
{
    if ids.len() == 0 {
        seq![]
    } else {
        let rest = targets_from(ids.drop_last(), channel, prefix);
        let t = trim_seq(ids.last());
        if t.len() == 0 { rest } else { rest.push((channel, prefix + t)) }
    }
}

/// Every notification target of a configuration, in delivery order.
pub open spec fn notification_targets_spec(cfg: ChannelsConfig) -> Seq<(Seq<char>, Seq<char>)> {
    let tg = if cfg.telegram.enabled {
        targets_from(
            pick_ids(cfg.telegram.notify_chat_ids.deep_view(), cfg.telegram.allow_chat_ids.deep_view()),
            "telegram"@,
            ""@,
        )
    } else {
        seq![]
    };
    let qq = if cfg.qqbot.enabled {
        targets_from(
            pick_ids(cfg.qqbot.notify_user_ids.deep_view(), cfg.qqbot.allow_user_ids.deep_view()),
            "qqbot"@,
            "c2c:"@,
        ) + targets_from(
            pick_ids(cfg.qqbot.notify_group_ids.deep_view(), cfg.qqbot.allow_group_ids.deep_view()),
            "qqbot"@,
            "group:"@,
        )
    } else {
        seq![]
    };
    tg + qq
}

/// A target as a pair of character sequences.
pub open spec fn target_view(t: NotificationTarget) -> (Seq<char>, Seq<char>) {
    (t.channel@, t.chat_id@)
}

/// Appends the targets for `ids` to `out`.
fn push_targets(out: &mut Vec<NotificationTarget>, ids: &Vec<String>, channel: &str, prefix: &str)
    ensures
        final(out)@.map_values(|t: NotificationTarget| target_view(t)) == old(out)@.map_values(
            |t: NotificationTarget| target_view(t),
        ) + targets_from(ids.deep_view(), channel@, prefix@),
{
    let ghost start = old(out)@.map_values(|t: NotificationTarget| target_view(t));
    let ghost dv = ids.deep_view();
    let mut i: usize = 0;
    assert(dv.take(0) =~= Seq::<Seq<char>>::empty());
    assert(start + targets_from(dv.take(0), channel@, prefix@) =~= start);
    while i < ids.len()
        invariant
            i <= ids.len(),
            dv == ids.deep_view(),
            dv.len() == ids.len(),
            out@.map_values(|t: NotificationTarget| target_view(t)) == start + targets_from(
                dv.take(i as int),
                channel@,
                prefix@,
            ),
        decreases ids.len() - i,
    {
        let id = trim(ids[i].as_str());
        assert(dv.take(i + 1).drop_last() =~= dv.take(i as int));
        assert(dv.take(i + 1).last() == ids@[i as int]@);
        if !id.as_str().is_empty() {
            let mut chat = owned(prefix);
            push_str(&mut chat, id.as_str());
            let ghost before = out@.map_values(|t: NotificationTarget| target_view(t));
            out.push(NotificationTarget { channel: owned(channel), chat_id: chat });
            assert(out@.map_values(|t: NotificationTarget| target_view(t)) =~= before.push(
                (channel@, prefix@ + id@),
            ));
        }
        i = i + 1;
    }
    assert(dv.take(ids.len() as int) =~= dv);
}

/// Where proactive reminders are sent: Telegram chats, then QQ users
/// (`c2c:`), then QQ groups (`group:`), each list falling back to its allow
/// list when no explicit notify ids are configured.
pub fn notification_targets(cfg: &ChannelsConfig) -> (r: Vec<NotificationTarget>)
    ensures
        r@.map_values(|t: NotificationTarget| target_view(t)) == notification_targets_spec(*cfg),
{
    let mut out: Vec<NotificationTarget> = Vec::new();
    assert(out@.map_values(|t: NotificationTarget| target_view(t)) =~= Seq::<(Seq<char>, Seq<char>)>::empty());
    if cfg.telegram.enabled {
        let ids = if cfg.telegram.notify_chat_ids.len() == 0 {
            &cfg.telegram.allow_chat_ids
        } else {
            &cfg.telegram.notify_chat_ids
        };
        push_targets(&mut out, ids, "telegram", "");
    }
    if cfg.qqbot.enabled {
        let user_ids = if cfg.qqbot.notify_user_ids.len() == 0 {
            &cfg.qqbot.allow_user_ids
        } else {
            &cfg.qqbot.notify_user_ids
        };
        push_targets(&mut out, user_ids, "qqbot", "c2c:");
        let group_ids = if cfg.qqbot.notify_group_ids.len() == 0 {
            &cfg.qqbot.allow_group_ids
        } else {
            &cfg.qqbot.notify_group_ids
        };
        push_targets(&mut out, group_ids, "qqbot", "group:");
    }
    assert(out@.map_values(|t: NotificationTarget| target_view(t)) =~= notification_targets_spec(*cfg));
    out
}

/// A message received on a channel.
#[derive(Debug, Clone)]
pub struct ChannelMessage {
    pub channel: String,
    pub chat_id: String,
    pub sender_id: String,
    pub sender_name: Option<String>,
    pub text: String,
    pub timestamp: i64,
}

/// ASCII letter or digit.
pub open spec fn is_ascii_alnum(c: char) -> bool {
    ('0' <= c && c <= '9') || ('a' <= c && c <= 'z') || ('A' <= c && c <= 'Z')
}

/// `c` itself when it is an ASCII letter or digit, `_` otherwise.
pub open spec fn file_safe_char(c: char) -> char {
    if is_ascii_alnum(c) {
        c
    } else {
        '_'
    }
}

/// Session file stem for a chat: `channel-chat_id` with every character that
/// is not an ASCII letter or digit replaced by `_`.
pub open spec fn session_id_spec(channel: Seq<char>, chat_id: Seq<char>) -> Seq<char> {
    (channel + seq!['-'] + chat_id).map_values(|c: char| file_safe_char(c))
}

/// Name of the session file of the chat a message came from.
pub fn session_id(msg: &ChannelMessage) -> (r: String)
    ensures
        r@ == session_id_spec(msg.channel@, msg.chat_id@),
{
    let mut raw = chars_of(msg.channel.as_str());
    raw.push('-');
    let tail = chars_of(msg.chat_id.as_str());
    let mut k: usize = 0;
    while k < tail.len()
        invariant
            k <= tail.len(),
            raw@ == msg.channel@ + seq!['-'] + tail@.take(k as int),
        decreases tail.len() - k,
    {
        raw.push(tail[k]);
        k = k + 1;
        assert(raw@ =~= msg.channel@ + seq!['-'] + tail@.take(k as int));
    }
    assert(tail@.take(tail.len() as int) =~= tail@);
    let mut out = String::new();
    let mut i: usize = 0;
    while i < raw.len()
        invariant
            i <= raw.len(),
            out@ == raw@.take(i as int).map_values(|c: char| file_safe_char(c)),
        decreases raw.len() - i,
    {
        let c = raw[i];
        let safe = if ('0' <= c && c <= '9') || ('a' <= c && c <= 'z') || ('A' <= c && c <= 'Z') {
            c
        } else {
            '_'
        };
        push_char(&mut out, safe);
        i = i + 1;
        assert(out@ =~= raw@.take(i as int).map_values(|c: char| file_safe_char(c)));
    }
    assert(raw@.take(raw.len() as int) =~= raw@);
    out
}

/// Keeps only the last `MAX_HISTORY_MESSAGES` (20) entries of a chat history.
pub fn trim_history<T>(messages: &mut Vec<T>)
    ensures
        old(messages).len() <= 20 ==> final(messages)@ == old(messages)@,
        old(messages).len() > 20 ==> final(messages)@ == old(messages)@.subrange(
            old(messages).len() - 20,
            old(messages).len() as int,
        ),
{
    if messages.len() > 20 {
        let drain = messages.len() - 20;
        let tail = messages.split_off(drain);
        *messages = tail;
    }
}

/// A chat is allowed when the allow list is empty or holds its id (entries
/// compared after trimming).
pub open spec fn is_allowed_spec(allow: Seq<Seq<char>>, chat_id: Seq<char>) -> bool {
    allow.len() == 0 || exists|i: int| 0 <= i < allow.len() && trim_seq(#[trigger] allow[i]) == chat_id
}

/// Whether messages from `chat_id` are accepted.
pub fn is_allowed(allow: &Vec<String>, chat_id: &str) -> (r: bool)
    ensures
        r == is_allowed_spec(allow@.map_values(|s: String| s@), chat_id@),
{
    let ghost av = allow@.map_values(|s: String| s@);
    if allow.len() == 0 {
        return true;
    }
    let idv = chars_of(chat_id);
    let mut i: usize = 0;
    while i < allow.len()
        invariant
            i <= allow.len(),
            av == allow@.map_values(|s: String| s@),
            idv@ == chat_id@,
            forall|j: int| 0 <= j < i ==> trim_seq(#[trigger] av[j]) != chat_id@,
        decreases allow.len() - i,
    {
        let t = trim_chars(&chars_of(allow[i].as_str()));
        if seq_eq(&t, &idv) {
            assert(trim_seq(av[i as int]) == chat_id@);
            return true;
        }
        i = i + 1;
    }
    false
}

/// `s` with every trailing `c` removed.
pub open spec fn strip_trailing(s: Seq<char>, c: char) -> Seq<char>
    decreases s.len(),
{
    if s.len() > 0 && s.last() == c {
        strip_trailing(s.drop_last(), c)
    } else {
        s
    }
}

/// A Telegram API base URL without surrounding white space or trailing `/`.
pub fn normalize_api_base(raw: &str) -> (r: String)
    ensures
        r@ == strip_trailing(trim_seq(raw@), '/'),
{
    let t = trim_chars(&chars_of(raw));
    let mut end = t.len();
    assert(t@.subrange(0, end as int) =~= t@);
    while end > 0 && t[end - 1] == '/'
        invariant
            end <= t.len(),
            strip_trailing(t@.subrange(0, end as int), '/') == strip_trailing(t@, '/'),
        decreases end,
    {
        assert(t@.subrange(0, end as int).drop_last() =~= t@.subrange(0, end - 1));
        end = end - 1;
    }
    string_of(&slice_chars(&t, 0, end))
}

/// QQ Bot OpenAPI host: the sandbox one when the bot runs in sandbox mode.
pub fn base_url(config: &QqBotConfig) -> (r: &'static str)
    ensures
        config.sandbox ==> r@ == "https://sandbox.api.sgroup.qq.com"@,
        !config.sandbox ==> r@ == "https://api.sgroup.qq.com"@,
{
    if config.sandbox {
        "https://sandbox.api.sgroup.qq.com"
    } else {
        "https://api.sgroup.qq.com"
    }
}

/// `s` cut into pieces of `max` characters, the last one possibly shorter.
pub open spec fn chunks(s: Seq<char>, max: nat) -> Seq<Seq<char>>
    decreases s.len(),
{
    if max == 0 || s.len() <= max {
        seq![s]
    } else {
        seq![s.take(max as int)] + chunks(s.skip(max as int), max)
    }
}

/// Every character as a piece of its own.
pub open spec fn singletons(s: Seq<char>) -> Seq<Seq<char>> {
    Seq::new(s.len(), |i: int| seq![s[i]])
}

/// How an outgoing text is cut into messages of at most `max` characters: a
/// text that fits is sent whole; otherwise it is cut every `max` characters.
/// With `max == 0` an empty piece comes first, then one piece per character.
pub open spec fn split_spec(s: Seq<char>, max: nat) -> Seq<Seq<char>> {
    if s.len() <= max {
        seq![s]
    } else if max == 0 {
        seq![Seq::<char>::empty()] + singletons(s)
    } else {
        chunks(s, max)
    }
}

/// The pieces written one after the other.
pub open spec fn concat_all(parts: Seq<Seq<char>>) -> Seq<char>
    decreases parts.len(),
{
    if parts.len() == 0 {
        Seq::empty()
    } else {
        parts[0] + concat_all(parts.drop_first())
    }
}

proof fn lemma_concat_chunks(s: Seq<char>, max: nat)
    requires
        max > 0,
    ensures
        concat_all(chunks(s, max)) == s,
        forall|i: int|
            0 <= i < chunks(s, max).len() ==> (#[trigger] chunks(s, max)[i]).len() <= max,
        s.len() > 0 ==> forall|i: int|
            0 <= i < chunks(s, max).len() ==> (#[trigger] chunks(s, max)[i]).len() > 0,
    decreases s.len(),
{
    if s.len() <= max {
        assert(seq![s].drop_first() =~= Seq::<Seq<char>>::empty());
        assert(concat_all(seq![s].drop_first()) =~= Seq::<char>::empty());
        assert(seq![s][0] == s);
        assert(concat_all(seq![s]) =~= s);
    } else {
        let rest = s.skip(max as int);
        lemma_concat_chunks(rest, max);
        let c = chunks(s, max);
        assert(c.drop_first() =~= chunks(rest, max));
        assert(s.take(max as int) + rest =~= s);
        assert forall|i: int| 0 <= i < c.len() implies (#[trigger] c[i]).len() <= max && c[i].len() > 0 by {
            if i > 0 {
                assert(c[i] == chunks(rest, max)[i - 1]);
            }
        }
    }
}

proof fn lemma_concat_singletons(s: Seq<char>)
    ensures
        concat_all(singletons(s)) == s,
    decreases s.len(),
{
    if s.len() > 0 {
        lemma_concat_singletons(s.drop_first());
        assert(singletons(s).drop_first() =~= singletons(s.drop_first()));
        assert(seq![s[0]] + s.drop_first() =~= s);
    } else {
        assert(singletons(s).len() == 0);
        assert(s =~= Seq::<char>::empty());
    }
}

/// Splitting loses and reorders nothing: the pieces of an outgoing text,
/// written one after the other, give the text back, and for a positive limit
/// every piece holds at most `max` characters and none is empty.
pub proof fn lemma_split_message_round_trip(s: Seq<char>, max: nat)
    ensures
        concat_all(split_spec(s, max)) == s,
        max > 0 ==> forall|i: int|
            0 <= i < split_spec(s, max).len() ==> (#[trigger] split_spec(s, max)[i]).len() <= max,
        max > 0 && s.len() > 0 ==> forall|i: int|
            0 <= i < split_spec(s, max).len() ==> (#[trigger] split_spec(s, max)[i]).len() > 0,
{
    if s.len() <= max {
        assert(seq![s].drop_first() =~= Seq::<Seq<char>>::empty());
        assert(concat_all(seq![s].drop_first()) =~= Seq::<char>::empty());
        assert(seq![s][0] == s);
        assert(concat_all(seq![s]) =~= s);
    } else if max == 0 {
        let parts = seq![Seq::<char>::empty()] + singletons(s);
        assert(parts.drop_first() =~= singletons(s));
        lemma_concat_singletons(s);
        assert(concat_all(parts) =~= s);
    } else {
        lemma_concat_chunks(s, max);
    }
}

/// Cuts `text` into messages of at most `max_chars` characters.
pub fn split_message(text: &str, max_chars: usize) -> (r: Vec<String>)
    ensures
        r@.map_values(|p: String| p@) == split_spec(text@, max_chars as nat),
{
    let v = chars_of(text);
    if v.len() <= max_chars {
        let mut out: Vec<String> = Vec::new();
        out.push(owned(text));
        assert(out@.map_values(|p: String| p@) =~= seq![text@]);
        return out;
    }
    let mut out: Vec<String> = Vec::new();
    if max_chars == 0 {
        out.push(String::new());
        let mut i: usize = 0;
        while i < v.len()
            invariant
                i <= v.len(),
                v@ == text@,
                out@.map_values(|p: String| p@) == seq![Seq::<char>::empty()] + singletons(
                    v@.take(i as int),
                ),
            decreases v.len() - i,
        {
            let mut piece = String::new();
            push_char(&mut piece, v[i]);
            assert(piece@ =~= seq![v@[i as int]]);
            let ghost before = out@.map_values(|p: String| p@);
            out.push(piece);
            assert(out@.map_values(|p: String| p@) =~= before.push(seq![v@[i as int]]));
            assert(singletons(v@.take(i + 1)) =~= singletons(v@.take(i as int)).push(
                seq![v@[i as int]],
            ));
            i = i + 1;
            assert(out@.map_values(|p: String| p@) =~= seq![Seq::<char>::empty()] + singletons(
                v@.take(i as int),
            ));
        }
        assert(v@.take(v.len() as int) =~= v@);
        return out;
    }
    let mut pos: usize = 0;
    assert(v@.skip(0) =~= v@);
    while pos < v.len()
        invariant
            pos <= v.len(),
            max_chars > 0,
            v@ == text@,
            v.len() > max_chars,
            pos < v.len() ==> out@.map_values(|p: String| p@) + chunks(
                v@.skip(pos as int),
                max_chars as nat,
            ) == chunks(v@, max_chars as nat),
            pos == v.len() ==> out@.map_values(|p: String| p@) == chunks(v@, max_chars as nat),
        decreases v.len() - pos,
    {
        let ghost rest = v@.skip(pos as int);
        let end = if v.len() - pos > max_chars {
            pos + max_chars
        } else {
            v.len()
        };
        let piece = string_of(&slice_chars(&v, pos, end));
        let ghost before = out@.map_values(|p: String| p@);
        out.push(piece);
        assert(out@.map_values(|p: String| p@) =~= before.push(piece@));
        if end < v.len() {
            assert(rest.take(max_chars as int) =~= piece@);
            assert(rest.skip(max_chars as int) =~= v@.skip(end as int));
            assert(chunks(rest, max_chars as nat) =~= seq![piece@] + chunks(
                v@.skip(end as int),
                max_chars as nat,
            ));
            assert(out@.map_values(|p: String| p@) + chunks(v@.skip(end as int), max_chars as nat)
                =~= chunks(v@, max_chars as nat));
        } else {
            assert(rest =~= piece@);
            assert(chunks(rest, max_chars as nat) =~= seq![piece@]);
            assert(out@.map_values(|p: String| p@) =~= chunks(v@, max_chars as nat));
        }
        pos = end;
    }
    out
}

} // verus!
