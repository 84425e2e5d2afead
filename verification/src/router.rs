//! Rules the chat-channel router applies to an incoming message before any
//! tool or LLM is involved: intent detection, effort-query ranges, reminder
//! commands, session naming, history trimming and outgoing message splitting.

use vstd::prelude::*;
use crate::text::{
    is_digit, seq_contains,
    chars_of, contains_any, contains_any_of, decimal_seq, decimal_string, lowercase_of, owned, push_char, push_str, string_of, to_lowercase,
    trim_chars, trim_seq,
};

use crate::fine_report::{parse_u32_radix, parse_u32_spec};

verus! {

/// Number of chat turns kept per channel session.
pub const MAX_HISTORY_MESSAGES: usize = 20;

/// Words that mark a message as being about effort (work hours).
pub open spec fn effort_words() -> Seq<Seq<char>> {
    seq!["工时"@, "耗时"@, "小时"@, "effort"@]
}

/// Words that mark an intent to write effort rather than read it.
pub open spec fn write_words() -> Seq<Seq<char>> {
    seq!["写"@, "写入"@, "记录"@, "新增"@, "填"@, "补"@, "提交"@]
}

/// Words that mark a query.
pub open spec fn query_words() -> Seq<Seq<char>> {
    seq![
        "查"@, "查询"@, "看"@, "统计"@, "汇总"@, "多少"@, "明细"@, "本周"@, "上周"@, "今天"@,
        "昨天"@, "本月"@, "本季度"@, "季度"@, "半年"@, "近半年"@, "今年"@,
    ]
}

/// A lower-cased message asks to look up effort records.
pub open spec fn effort_query_spec(lower: Seq<char>) -> bool {
    contains_any(lower, effort_words()) && !contains_any(lower, write_words()) && contains_any(
        lower,
        query_words(),
    )
}

/// A lower-cased message asks to look up effort exactly when it names
/// effort (工时, 耗时, 小时, `effort`), has none of the writing words
/// (写, 写入, 记录, 新增, 填, 补, 提交), and has a query word (查, 查询, 看,
/// 统计, 汇总, 多少, 明细, 本周, 上周, 今天, 昨天, 本月, 本季度, 季度, 半年,
/// 近半年, 今年).
pub proof fn lemma_effort_query_words(lower: Seq<char>)
    ensures
        effort_query_spec(lower) <==> (contains_any(lower, seq!["工时"@, "耗时"@, "小时"@, "effort"@]) && !contains_any(
            lower,
            seq!["写"@, "写入"@, "记录"@, "新增"@, "填"@, "补"@, "提交"@],
        ) && contains_any(
            lower,
            seq![
                "查"@, "查询"@, "看"@, "统计"@, "汇总"@, "多少"@, "明细"@, "本周"@, "上周"@, "今天"@,
                "昨天"@, "本月"@, "本季度"@, "季度"@, "半年"@, "近半年"@, "今年"@,
            ],
        )),
{
    assert(effort_words() =~= seq!["工时"@, "耗时"@, "小时"@, "effort"@]);
    assert(write_words() =~= seq!["写"@, "写入"@, "记录"@, "新增"@, "填"@, "补"@, "提交"@]);
    assert(query_words() =~= seq![
        "查"@, "查询"@, "看"@, "统计"@, "汇总"@, "多少"@, "明细"@, "本周"@, "上周"@, "今天"@,
        "昨天"@, "本月"@, "本季度"@, "季度"@, "半年"@, "近半年"@, "今年"@,
    ]);
}

/// Whether a message asks to look up effort (and not to record it).
pub fn is_effort_query(text: &str) -> (r: bool)
    ensures
        r == effort_query_spec(lowercase_of(text@)),
{
    let lower = to_lowercase(text);
    effort_query_in_lowercase(lower.as_str())
}

/// The effort-query test on a message already lower-cased.
pub fn effort_query_in_lowercase(lower: &str) -> (r: bool)
    ensures
        r == effort_query_spec(lower@),
{
    let lv = chars_of(lower);
    let effort: Vec<&str> = vec!["工时", "耗时", "小时", "effort"];
    assert(effort@.map_values(|p: &str| p@) =~= effort_words());
    if !contains_any_of(&lv, &effort) {
        return false;
    }
    let write: Vec<&str> = vec!["写", "写入", "记录", "新增", "填", "补", "提交"];
    assert(write@.map_values(|p: &str| p@) =~= write_words());
    if contains_any_of(&lv, &write) {
        return false;
    }
    let query: Vec<&str> = vec![
        "查", "查询", "看", "统计", "汇总", "多少", "明细", "本周", "上周", "今天", "昨天", "本月",
        "本季度", "季度", "半年", "近半年", "今年",
    ];
    assert(query@.map_values(|p: &str| p@) =~= query_words());
    contains_any_of(&lv, &query)
}

/// Whether `s` holds `a` or `b`.
pub open spec fn has_either(s: Seq<char>, a: Seq<char>, b: Seq<char>) -> bool {
    crate::text::seq_contains(s, a) || crate::text::seq_contains(s, b)
}

/// The `(range, label)` an effort query asks for, checked in this order:
/// yesterday, today, last week, this month, this quarter, last six months,
/// this year; otherwise this week.
pub open spec fn effort_range_spec(lower: Seq<char>) -> (Seq<char>, Seq<char>) {
    if has_either(lower, "昨天"@, "昨日"@) {
        ("yesterday"@, "昨天"@)
    } else if has_either(lower, "今天"@, "今日"@) {
        ("today"@, "今天"@)
    } else if has_either(lower, "上周"@, "上一周"@) {
        ("lastWeek"@, "上周"@)
    } else if has_either(lower, "本月"@, "这个月"@) {
        ("thisMonth"@, "本月"@)
    } else if has_either(lower, "本季度"@, "这个季度"@) || crate::text::seq_contains(
        lower,
        "季度"@,
    ) {
        ("thisQuarter"@, "本季度"@)
    } else if has_either(lower, "近半年"@, "半年"@) || crate::text::seq_contains(
        lower,
        "半年度"@,
    ) {
        ("last6Months"@, "近半年"@)
    } else if has_either(lower, "今年"@, "本年"@) {
        ("thisYear"@, "今年"@)
    } else {
        ("thisWeek"@, "本周"@)
    }
}

/// Every word that picks a range other than this week.
pub open spec fn range_keywords() -> Seq<Seq<char>> {
    seq![
        "昨天"@, "昨日"@, "今天"@, "今日"@, "上周"@, "上一周"@, "本月"@, "这个月"@, "本季度"@,
        "这个季度"@, "季度"@, "近半年"@, "半年"@, "半年度"@, "今年"@, "本年"@,
    ]
}

/// An effort query asks for exactly one of eight ranges, each with its own
/// label, and for this week exactly when none of the range words occurs.
pub proof fn lemma_effort_range_cases(lower: Seq<char>)
    ensures
        ({
            let r = effort_range_spec(lower);
            ||| r == ("yesterday"@, "昨天"@)
            ||| r == ("today"@, "今天"@)
            ||| r == ("lastWeek"@, "上周"@)
            ||| r == ("thisMonth"@, "本月"@)
            ||| r == ("thisQuarter"@, "本季度"@)
            ||| r == ("last6Months"@, "近半年"@)
            ||| r == ("thisYear"@, "今年"@)
            ||| r == ("thisWeek"@, "本周"@)
        }),
        effort_range_spec(lower).0 == "thisWeek"@ <==> !contains_any(lower, range_keywords()),
{
    let ks = range_keywords();
    let r = effort_range_spec(lower);
    reveal_strlit("thisWeek");
    reveal_strlit("yesterday");
    reveal_strlit("today");
    reveal_strlit("lastWeek");
    reveal_strlit("thisMonth");
    reveal_strlit("thisQuarter");
    reveal_strlit("last6Months");
    reveal_strlit("thisYear");
    assert("lastWeek"@[0] != "thisWeek"@[0]);
    assert("thisYear"@[4] != "thisWeek"@[4]);
    assert("thisWeek"@.len() == 8);
    if contains_any(lower, ks) {
        let i = choose|i: int| 0 <= i < ks.len() && crate::text::seq_contains(lower, #[trigger] ks[i]);
        assert(0 <= i < 16);
        assert(r.0 != "thisWeek"@);
    } else {
        assert(!crate::text::seq_contains(lower, ks[0]));
        assert(!crate::text::seq_contains(lower, ks[1]));
        assert(!crate::text::seq_contains(lower, ks[2]));
        assert(!crate::text::seq_contains(lower, ks[3]));
        assert(!crate::text::seq_contains(lower, ks[4]));
        assert(!crate::text::seq_contains(lower, ks[5]));
        assert(!crate::text::seq_contains(lower, ks[6]));
        assert(!crate::text::seq_contains(lower, ks[7]));
        assert(!crate::text::seq_contains(lower, ks[8]));
        assert(!crate::text::seq_contains(lower, ks[9]));
        assert(!crate::text::seq_contains(lower, ks[10]));
        assert(!crate::text::seq_contains(lower, ks[11]));
        assert(!crate::text::seq_contains(lower, ks[12]));
        assert(!crate::text::seq_contains(lower, ks[13]));
        assert(!crate::text::seq_contains(lower, ks[14]));
        assert(!crate::text::seq_contains(lower, ks[15]));
    }
}

/// Each range word picks its own range, the earlier groups first:
/// 昨天/昨日 → yesterday; else 今天/今日 → today; else 上周/上一周 →
/// last week; else 本月/这个月 → this month; else 本季度/这个季度/季度 →
/// this quarter; else 近半年/半年/半年度 → the last six months; else
/// 今年/本年 → this year.
pub proof fn lemma_effort_range_keywords(lower: Seq<char>)
    ensures
        contains_any(lower, seq!["昨天"@, "昨日"@]) ==> effort_range_spec(lower) == ("yesterday"@, "昨天"@),
        !contains_any(lower, seq!["昨天"@, "昨日"@]) && contains_any(lower, seq!["今天"@, "今日"@])
            ==> effort_range_spec(lower) == ("today"@, "今天"@),
        !contains_any(lower, seq!["昨天"@, "昨日"@, "今天"@, "今日"@]) && contains_any(lower, seq!["上周"@, "上一周"@])
            ==> effort_range_spec(lower) == ("lastWeek"@, "上周"@),
        !contains_any(lower, seq!["昨天"@, "昨日"@, "今天"@, "今日"@, "上周"@, "上一周"@]) && contains_any(
            lower,
            seq!["本月"@, "这个月"@],
        ) ==> effort_range_spec(lower) == ("thisMonth"@, "本月"@),
        !contains_any(lower, seq!["昨天"@, "昨日"@, "今天"@, "今日"@, "上周"@, "上一周"@, "本月"@, "这个月"@])
            && contains_any(lower, seq!["本季度"@, "这个季度"@, "季度"@]) ==> effort_range_spec(lower) == (
            "thisQuarter"@,
            "本季度"@,
        ),
        !contains_any(
            lower,
            seq!["昨天"@, "昨日"@, "今天"@, "今日"@, "上周"@, "上一周"@, "本月"@, "这个月"@, "本季度"@, "这个季度"@, "季度"@],
        ) && contains_any(lower, seq!["近半年"@, "半年"@, "半年度"@]) ==> effort_range_spec(lower) == (
            "last6Months"@,
            "近半年"@,
        ),
        !contains_any(
            lower,
            seq![
                "昨天"@, "昨日"@, "今天"@, "今日"@, "上周"@, "上一周"@, "本月"@, "这个月"@, "本季度"@,
                "这个季度"@, "季度"@, "近半年"@, "半年"@, "半年度"@,
            ],
        ) && contains_any(lower, seq!["今年"@, "本年"@]) ==> effort_range_spec(lower) == ("thisYear"@, "今年"@),
{
    if contains_any(lower, seq!["昨天"@, "昨日"@]) {
        let ks = seq!["昨天"@, "昨日"@];
        let j = choose|j: int| 0 <= j < ks.len() && seq_contains(lower, #[trigger] ks[j]);
        assert(j == 0 || j == 1);
    }
}

/// Whether `s` holds one of two words.
fn has_word(s: &Vec<char>, a: &str, b: &str) -> (r: bool)
    ensures
        r == has_either(s@, a@, b@),
{
    let av = chars_of(a);
    let bv = chars_of(b);
    crate::text::contains_chars(s, &av) || crate::text::contains_chars(s, &bv)
}

/// The date range and its label for an effort query.
pub fn effort_query_range(text: &str) -> (r: (&'static str, String))
    ensures
        (r.0@, r.1@) == effort_range_spec(lowercase_of(text@)),
{
    let lower = to_lowercase(text);
    effort_range_in_lowercase(lower.as_str())
}

/// The date range and its label for an effort query already lower-cased.
pub fn effort_range_in_lowercase(lower: &str) -> (r: (&'static str, String))
    ensures
        (r.0@, r.1@) == effort_range_spec(lower@),
{
    let l = chars_of(lower);
    if has_word(&l, "昨天", "昨日") {
        ("yesterday", owned("昨天"))
    } else if has_word(&l, "今天", "今日") {
        ("today", owned("今天"))
    } else if has_word(&l, "上周", "上一周") {
        ("lastWeek", owned("上周"))
    } else if has_word(&l, "本月", "这个月") {
        ("thisMonth", owned("本月"))
    } else if has_word(&l, "本季度", "这个季度") || has_word(&l, "季度", "季度") {
        ("thisQuarter", owned("本季度"))
    } else if has_word(&l, "近半年", "半年") || has_word(&l, "半年度", "半年度") {
        ("last6Months", owned("近半年"))
    } else if has_word(&l, "今年", "本年") {
        ("thisYear", owned("今年"))
    } else {
        ("thisWeek", owned("本周"))
    }
}

/// Long ranges are answered with a full report, short ones with the record list.
pub open spec fn is_long_range(range: Seq<char>) -> bool {
    range == "thisMonth"@ || range == "thisQuarter"@ || range == "last6Months"@ || range
        == "thisYear"@
}

/// This month, this quarter, the last six months and this year are long
/// ranges, answered with the full report; yesterday, today, this week and
/// last week are answered with the record list.
pub proof fn lemma_long_ranges(range: Seq<char>)
    ensures
        range == "thisMonth"@ || range == "thisQuarter"@ || range == "last6Months"@ || range == "thisYear"@
            ==> is_long_range(range),
        range == "yesterday"@ || range == "today"@ || range == "thisWeek"@ || range == "lastWeek"@
            ==> !is_long_range(range),
{
    reveal_strlit("thisMonth");
    reveal_strlit("thisQuarter");
    reveal_strlit("last6Months");
    reveal_strlit("thisYear");
    reveal_strlit("yesterday");
    reveal_strlit("today");
    reveal_strlit("thisWeek");
    reveal_strlit("lastWeek");
    assert("thisWeek"@[4] != "thisYear"@[4]);
    assert("lastWeek"@[0] != "thisYear"@[0]);
    assert("yesterday"@[0] != "thisMonth"@[0]);
    assert("yesterday"@ != "thisMonth"@);
    assert("thisWeek"@ != "thisYear"@);
    assert("lastWeek"@ != "thisYear"@);
    assert("today"@.len() == 5 && "thisMonth"@.len() == 9 && "thisQuarter"@.len() == 11);
    assert("last6Months"@.len() == 11 && "thisYear"@.len() == 8 && "yesterday"@.len() == 9);
    assert("thisWeek"@.len() == 8 && "lastWeek"@.len() == 8);
}

/// The effort tool that answers a query over `range`.
pub fn effort_tool_for_range(range: &str) -> (r: &'static str)
    ensures
        r@ == (if is_long_range(range@) { "get_effort_report"@ } else { "get_efforts"@ }),
{
    let rv = chars_of(range);
    let a = chars_of("thisMonth");
    let b = chars_of("thisQuarter");
    let c = chars_of("last6Months");
    let d = chars_of("thisYear");
    if crate::text::seq_eq(&rv, &a) || crate::text::seq_eq(&rv, &b) || crate::text::seq_eq(&rv, &c)
        || crate::text::seq_eq(&rv, &d) {
        "get_effort_report"
    } else {
        "get_efforts"
    }
}

/// Keywords that send a channel message through the tool-using agent.
pub open spec fn agent_keywords() -> Seq<Seq<char>> {
    seq![
        "禅道"@, "任务"@, "工时"@, "耗时"@, "小时"@, "风险"@, "延期"@, "逾期"@, "复盘"@,
        "日报"@, "周报"@, "项目"@, "进展"@, "本周"@, "今天"@, "昨天"@, "明天"@, "写入"@,
        "记录"@, "提交"@, "commit"@, "bug"@, "需求"@,
    ]
}

/// Whether a channel message is about work and needs the agent's tools.
pub fn should_use_agent_tools(text: &str) -> (r: bool)
    ensures
        r == contains_any(lowercase_of(text@), agent_keywords()),
{
    let lower = to_lowercase(text);
    agent_keyword_in_lowercase(lower.as_str())
}

/// The agent-keyword test on a message already lower-cased.
pub fn agent_keyword_in_lowercase(lower: &str) -> (r: bool)
    ensures
        r == contains_any(lower@, agent_keywords()),
{
    let lv = chars_of(lower);
    let kws: Vec<&str> = vec![
        "禅道", "任务", "工时", "耗时", "小时", "风险", "延期", "逾期", "复盘", "日报", "周报",
        "项目", "进展", "本周", "今天", "昨天", "明天", "写入", "记录", "提交", "commit", "bug",
        "需求",
    ];
    assert(kws@.map_values(|p: &str| p@) =~= agent_keywords());
    contains_any_of(&lv, &kws)
}

/// The agent's keywords: 禅道, 任务, 工时, 耗时, 小时, 风险, 延期, 逾期, 复盘,
/// 日报, 周报, 项目, 进展, 本周, 今天, 昨天, 明天, 写入, 记录, 提交, `commit`,
/// `bug`, 需求; a lower-cased message holding any of them goes to the agent.
pub proof fn lemma_agent_keyword_list(lower: Seq<char>)
    ensures
        contains_any(lower, agent_keywords()) <==> contains_any(
            lower,
            seq![
                "禅道"@, "任务"@, "工时"@, "耗时"@, "小时"@, "风险"@, "延期"@, "逾期"@, "复盘"@,
                "日报"@, "周报"@, "项目"@, "进展"@, "本周"@, "今天"@, "昨天"@, "明天"@, "写入"@,
                "记录"@, "提交"@, "commit"@, "bug"@, "需求"@,
            ],
        ),
{
    assert(agent_keywords() =~= seq![
        "禅道"@, "任务"@, "工时"@, "耗时"@, "小时"@, "风险"@, "延期"@, "逾期"@, "复盘"@,
        "日报"@, "周报"@, "项目"@, "进展"@, "本周"@, "今天"@, "昨天"@, "明天"@, "写入"@,
        "记录"@, "提交"@, "commit"@, "bug"@, "需求"@,
    ]);
}

proof fn lemma_contains_grows(a: Seq<char>, b: Seq<char>, x: Seq<char>)
    ensures
        seq_contains(a, x) ==> seq_contains(a + b, x) && seq_contains(b + a, x),
{
    if seq_contains(a, x) {
        let i = choose|i: int| crate::text::occurs_at(a, x, i);
        assert((a + b).subrange(i, i + x.len()) =~= a.subrange(i, i + x.len()));
        assert(crate::text::occurs_at(a + b, x, i));
        assert((b + a).subrange(b.len() + i, b.len() + i + x.len()) =~= a.subrange(i, i + x.len()));
        assert(crate::text::occurs_at(b + a, x, b.len() + i));
    }
}

/// On lower-cased text, a message that goes to the agent still does with
/// any text added before or after it.
pub proof fn lemma_agent_keywords_grow(lower: Seq<char>, more: Seq<char>)
    requires
        contains_any(lower, agent_keywords()),
    ensures
        contains_any(lower + more, agent_keywords()),
        contains_any(more + lower, agent_keywords()),
{
    let ks = agent_keywords();
    let i = choose|i: int| 0 <= i < ks.len() && seq_contains(lower, #[trigger] ks[i]);
    lemma_contains_grows(lower, more, ks[i]);
}

/// Read-only tools the channel agent may call.
pub open spec fn channel_tools_spec() -> Seq<Seq<char>> {
    seq![
        "get_tasks"@, "get_today_tasks"@, "get_task_detail"@, "get_task_commits"@,
        "analyze_risk"@, "get_daily_review"@, "get_efforts"@, "get_effort_report"@,
    ]
}

/// The tools a chat channel may use; writing tools are not among them.
pub fn allowed_channel_tools() -> (r: Vec<&'static str>)
    ensures
        r@.map_values(|s: &str| s@) == channel_tools_spec(),
{
    let v: Vec<&'static str> = vec![
        "get_tasks",
        "get_today_tasks",
        "get_task_detail",
        "get_task_commits",
        "analyze_risk",
        "get_daily_review",
        "get_efforts",
        "get_effort_report",
    ];
    assert(v@.map_values(|s: &str| s@) =~= channel_tools_spec());
    v
}


/// A character allowed in a cron field.
pub open spec fn is_cron_char(c: char) -> bool {
    is_digit(c) || c == '*' || c == '-' || c == ',' || c == '/'
}

/// A cron field made only of digits and `* - , /`.
pub open spec fn cron_field_ok(f: Seq<char>) -> bool {
    forall|k: int| 0 <= k < f.len() ==> is_cron_char(#[trigger] f[k])
}

/// The first five fields use cron characters only.
pub open spec fn all_cron_fields(fv: Seq<Seq<char>>) -> bool {
    forall|i: int| 0 <= i < 5 ==> cron_field_ok(#[trigger] fv[i])
}

/// Fields joined by single spaces.
pub open spec fn join_space(fs: Seq<Seq<char>>) -> Seq<char>
    decreases fs.len(),
{
    if fs.len() == 0 {
        seq![]
    } else if fs.len() == 1 {
        fs[0]
    } else {
        join_space(fs.drop_last()) + seq![' '] + fs.last()
    }
}

/// A cron line: five fields separated by white space, then the message.
pub open spec fn cron_pattern() -> Seq<char> {
    "^(\\S+)\\s+(\\S+)\\s+(\\S+)\\s+(\\S+)\\s+(\\S+)\\s+(.+)$"@
}

/// A daily line: `H:MM` or `HH:MM`, white space, then the message.
pub open spec fn time_pattern() -> Seq<char> {
    "^([0-9]{1,2}):([0-9]{2})\\s+(.+)$"@
}

/// The capture groups of the first match of `pattern` in `text`, as the
/// `regex` crate's `captures` gives them (group 0 is the whole match; a
/// group that took no part is `None`); `None` when nothing matches.
pub uninterp spec fn regex_first_captures(pattern: Seq<char>, text: Seq<char>) -> Option<Seq<Option<Seq<char>>>>;

/// The views of optional strings.
pub open spec fn opt_views(v: Seq<Option<String>>) -> Seq<Option<Seq<char>>> {
    v.map_values(|o: Option<String>| match o {
        Some(x) => Some(x@),
        None => None,
    })
}

/// `Regex::new(pattern)`, `captures(text)` and each group's text. Only the
/// two reminder patterns are passed, and both compile. The result is named,
/// not stated.
#[verifier::external_body]
fn regex_captures(pattern: &str, text: &str) -> (r: Option<Vec<Option<String>>>)
    requires
        pattern@ == cron_pattern() || pattern@ == time_pattern(),
    ensures
        match r {
            Some(v) => regex_first_captures(pattern@, text@) == Some(opt_views(v@)),
            None => regex_first_captures(pattern@, text@).is_none(),
        },
{
    let re = regex::Regex::new(pattern).unwrap();
    re.captures(text).map(|c| c.iter().map(|m| m.map(|x| x.as_str().to_string())).collect())
}

/// Group `i`, as `Captures::get` gives it (`None` past the last group).
pub open spec fn group(g: Seq<Option<Seq<char>>>, i: int) -> Option<Seq<char>> {
    if 0 <= i < g.len() {
        g[i]
    } else {
        None
    }
}

/// The groups among `1..=n` that took part, in order.
pub open spec fn present_groups(g: Seq<Option<Seq<char>>>, n: int) -> Seq<Seq<char>>
    decreases n,
{
    if n <= 0 {
        seq![]
    } else {
        present_groups(g, n - 1) + match group(g, n) {
            Some(f) => seq![f],
            None => seq![],
        }
    }
}

/// A group's text trimmed, or empty when it took no part.
pub open spec fn trimmed_group(g: Seq<Option<Seq<char>>>, i: int) -> Seq<char> {
    match group(g, i) {
        Some(t) => trim_seq(t),
        None => seq![],
    }
}

/// A group read as a decimal `u32`, 0 when it is absent or not a number.
pub open spec fn group_number(g: Seq<Option<Seq<char>>>, i: int) -> nat {
    match group(g, i) {
        Some(t) => match parse_u32_spec(t, 10) {
            Some(n) => n,
            None => 0,
        },
        None => 0,
    }
}

/// The cron reading of the groups of a cron-line match: the five fields
/// joined by single spaces and the trimmed message, when every field uses
/// cron characters only and the message is not blank.
pub open spec fn cron_from(cg: Option<Seq<Option<Seq<char>>>>) -> Option<(Seq<char>, Seq<char>)> {
    match cg {
        Some(g) => {
            let fs = present_groups(g, 5);
            let m = trimmed_group(g, 6);
            if fs.len() == 5 && all_cron_fields(fs) && m.len() > 0 {
                Some((join_space(fs), m))
            } else {
                None
            }
        },
        None => None,
    }
}

/// `(cron, message)` from the groups of the cron-line match and of the
/// daily-line match: the cron reading, else the daily `H:MM` reading
/// (`MM H * * *`) when the hour is below 24, the minute below 60 and the
/// message not blank; else two empty strings.
pub open spec fn reminder_from(cg: Option<Seq<Option<Seq<char>>>>, tg: Option<Seq<Option<Seq<char>>>>) -> (Seq<char>, Seq<char>) {
    match cron_from(cg) {
        Some((c, m)) => (c, m),
        None => match tg {
            Some(g) => {
                let h = group_number(g, 1);
                let mi = group_number(g, 2);
                let m = trimmed_group(g, 3);
                if m.len() > 0 && h < 24 && mi < 60 {
                    (decimal_seq(mi) + seq![' '] + decimal_seq(h) + " * * *"@, m)
                } else {
                    (seq![], seq![])
                }
            },
            None => (seq![], seq![]),
        },
    }
}

/// `(cron, message)` for a reminder command body.
pub open spec fn reminder_spec(s: Seq<char>) -> (Seq<char>, Seq<char>) {
    reminder_from(regex_first_captures(cron_pattern(), s), regex_first_captures(time_pattern(), s))
}

/// The views of an optional list of groups.
pub open spec fn groups_view(g: Option<Vec<Option<String>>>) -> Option<Seq<Option<Seq<char>>>> {
    match g {
        Some(v) => Some(opt_views(v@)),
        None => None,
    }
}

/// Whether every field uses cron characters only.
fn cron_fields_ok(fs: &Vec<Vec<char>>) -> (r: bool)
    requires
        fs.len() == 5,
    ensures
        r == all_cron_fields(fs@.map_values(|f: Vec<char>| f@)),
{
    let ghost fv = fs@.map_values(|f: Vec<char>| f@);
    let mut i: usize = 0;
    while i < 5
        invariant
            i <= 5,
            fs.len() == 5,
            fv == fs@.map_values(|f: Vec<char>| f@),
            forall|j: int| 0 <= j < i ==> cron_field_ok(#[trigger] fv[j]),
        decreases 5 - i,
    {
        let f = &fs[i];
        let mut k: usize = 0;
        assert(f@ == fv[i as int]);
        while k < f.len()
            invariant
                k <= f.len(),
                i < 5,
                fs.len() == 5,
                fv == fs@.map_values(|f: Vec<char>| f@),
                f@ == fv[i as int],
                forall|m: int| 0 <= m < k ==> is_cron_char(#[trigger] f@[m]),
            decreases f.len() - k,
        {
            let c = f[k];
            if !((c >= '0' && c <= '9') || c == '*' || c == '-' || c == ',' || c == '/') {
                assert(!is_cron_char(f@[k as int]));
                assert(!cron_field_ok(fv[i as int]));
                return false;
            }
            k = k + 1;
        }
        assert(cron_field_ok(fv[i as int]));
        i = i + 1;
    }
    true
}

/// Fields joined by single spaces.
fn join_space_exec(fs: &Vec<Vec<char>>) -> (r: Vec<char>)
    ensures
        r@ == join_space(fs@.map_values(|f: Vec<char>| f@)),
{
    let ghost fv = fs@.map_values(|f: Vec<char>| f@);
    let mut out: Vec<char> = Vec::new();
    let mut i: usize = 0;
    assert(fv.take(0) =~= Seq::<Seq<char>>::empty());
    while i < fs.len()
        invariant
            i <= fs.len(),
            fv == fs@.map_values(|f: Vec<char>| f@),
            out@ == join_space(fv.take(i as int)),
        decreases fs.len() - i,
    {
        assert(fv.take(i + 1).drop_last() =~= fv.take(i as int));
        if i > 0 {
            out.push(' ');
        }
        let f = &fs[i];
        let mut k: usize = 0;
        let ghost base = out@;
        while k < f.len()
            invariant
                k <= f.len(),
                out@ == base + f@.take(k as int),
            decreases f.len() - k,
        {
            out.push(f[k]);
            k = k + 1;
            assert(out@ =~= base + f@.take(k as int));
        }
        assert(f@.take(f.len() as int) =~= f@);
        if i == 0 {
            assert(fv.take(1) =~= seq![fv[0]]);
            assert(out@ =~= fv[0]);
        } else {
            assert(out@ =~= join_space(fv.take(i as int)) + seq![' '] + fv[i as int]);
        }
        i = i + 1;
    }
    assert(fv.take(fs.len() as int) =~= fv);
    out
}

/// Group `i` of a match.
fn group_at(g: &Vec<Option<String>>, i: usize) -> (r: Option<Vec<char>>)
    ensures
        match r {
            Some(t) => group(opt_views(g@), i as int) == Some(t@),
            None => group(opt_views(g@), i as int).is_none(),
        },
{
    if i < g.len() {
        match &g[i] {
            Some(x) => Some(chars_of(x.as_str())),
            None => None,
        }
    } else {
        None
    }
}

/// The groups among `1..=n` that took part.
fn present_groups_exec(g: &Vec<Option<String>>, n: usize) -> (r: Vec<Vec<char>>)
    ensures
        r@.map_values(|f: Vec<char>| f@) == present_groups(opt_views(g@), n as int),
{
    let ghost gv = opt_views(g@);
    let mut out: Vec<Vec<char>> = Vec::new();
    let mut i: usize = 0;
    while i < n
        invariant
            i <= n,
            gv == opt_views(g@),
            out@.map_values(|f: Vec<char>| f@) == present_groups(gv, i as int),
        decreases n - i,
    {
        let ghost before = out@.map_values(|f: Vec<char>| f@);
        match group_at(g, i + 1) {
            Some(f) => {
                out.push(f);
                assert(out@.map_values(|f: Vec<char>| f@) =~= before + seq![group(gv, i + 1).unwrap()]);
            },
            None => {
                assert(before + Seq::<Seq<char>>::empty() =~= before);
            },
        }
        i = i + 1;
    }
    out
}

/// A group's text trimmed, or empty.
fn trimmed_group_exec(g: &Vec<Option<String>>, i: usize) -> (r: Vec<char>)
    ensures
        r@ == trimmed_group(opt_views(g@), i as int),
{
    match group_at(g, i) {
        Some(t) => trim_chars(&t),
        None => Vec::new(),
    }
}

/// A group read as a decimal `u32`, or 0.
fn group_number_exec(g: &Vec<Option<String>>, i: usize) -> (r: u32)
    ensures
        r as nat == group_number(opt_views(g@), i as int),
{
    match group_at(g, i) {
        Some(t) => match parse_u32_radix(&t, 10) {
            Some(n) => n,
            None => 0,
        },
        None => 0,
    }
}

/// The cron reading of a cron-line match.
fn cron_from_exec(cg: &Option<Vec<Option<String>>>) -> (r: Option<(Vec<char>, Vec<char>)>)
    ensures
        match r {
            Some((c, m)) => cron_from(groups_view(*cg)) == Some((c@, m@)),
            None => cron_from(groups_view(*cg)).is_none(),
        },
{
    match cg {
        Some(g) => {
            let fs = present_groups_exec(g, 5);
            if fs.len() != 5 {
                return None;
            }
            if !cron_fields_ok(&fs) {
                return None;
            }
            let m = trimmed_group_exec(g, 6);
            if m.len() == 0 {
                return None;
            }
            let c = join_space_exec(&fs);
            Some((c, m))
        },
        None => None,
    }
}

/// Turns a reminder body into `(cron, message)`:
/// `17:30 写日报` gives `("30 17 * * *", "写日报")`, `30 8 * * 1-5 晨会`
/// gives `("30 8 * * 1-5", "晨会")`; anything else gives two empty strings.
pub fn parse_reminder_input(input: &str) -> (r: (String, String))
    ensures
        (r.0@, r.1@) == reminder_spec(input@),
{
    let cg = regex_captures("^(\\S+)\\s+(\\S+)\\s+(\\S+)\\s+(\\S+)\\s+(\\S+)\\s+(.+)$", input);
    let tg = regex_captures("^([0-9]{1,2}):([0-9]{2})\\s+(.+)$", input);
    reminder_from_groups(&cg, &tg)
}

/// `(cron, message)` from what the cron-line and daily-line patterns
/// captured in a reminder body.
pub fn reminder_from_groups(cg: &Option<Vec<Option<String>>>, tg: &Option<Vec<Option<String>>>) -> (r: (String, String))
    ensures
        (r.0@, r.1@) == reminder_from(groups_view(*cg), groups_view(*tg)),
{
    match cron_from_exec(cg) {
        Some((c, m)) => {
            return (string_of(&c), string_of(&m));
        },
        None => {},
    }
    match tg {
        Some(g) => {
            let h = group_number_exec(g, 1);
            let mi = group_number_exec(g, 2);
            let m = trimmed_group_exec(g, 3);
            if m.len() > 0 && h < 24 && mi < 60 {
                let mut cron = decimal_string(mi as u64);
                push_char(&mut cron, ' ');
                let hs = decimal_string(h as u64);
                push_str(&mut cron, hs.as_str());
                push_str(&mut cron, " * * *");
                (cron, string_of(&m))
            } else {
                (String::new(), String::new())
            }
        },
        None => (String::new(), String::new()),
    }
}

} // verus!
