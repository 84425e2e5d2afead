//! The FineReport effort report session, apart from the HTTP calls: the
//! request addresses and bodies, the login token in the login reply, the
//! report session id in the report page, and how an expired login shows in
//! each reply.

use vstd::prelude::*;
use crate::config_json::{Json, JsonView, jview, member, fields_of, str_member, member_of};
use crate::conversations::utf8_size;
use crate::fine_report::{filter_time_bounds, is_login_page, with_time_spec};
use crate::text::{
    chars_of, decimal_seq, decimal_string, is_ws, lowercase_of, owned, push_str, seq_contains,
    signed_decimal_seq, signed_decimal_string, trim_start_seq,
};

verus! {

/// The first capture group of the first match of `pattern` in `text`, as
/// the `regex` crate finds it.
pub uninterp spec fn regex_first_group(pattern: Seq<char>, text: Seq<char>) -> Option<Seq<char>>;

/// `FR.SessionMgr.register('<uuid>'`.
pub open spec fn register_pattern() -> Seq<char> {
    "FR\\.SessionMgr\\.register\\(\\s*['\"]([0-9a-f]{8}-[0-9a-f]{4}-[0-9a-f]{4}-[0-9a-f]{4}-[0-9a-f]{12})['\"]"@
}

/// `currentSessionID = '<uuid>'`.
pub open spec fn current_pattern() -> Seq<char> {
    "currentSessionID\\s*=\\s*['\"]([0-9a-f]{8}-[0-9a-f]{4}-[0-9a-f]{4}-[0-9a-f]{4}-[0-9a-f]{12})['\"]"@
}

/// Any lower-case UUID.
pub open spec fn uuid_pattern() -> Seq<char> {
    "([0-9a-f]{8}-[0-9a-f]{4}-[0-9a-f]{4}-[0-9a-f]{4}-[0-9a-f]{12})"@
}

/// `Regex::new(pattern)`, `captures(text)` and its group 1. Only the three
/// session-id patterns are passed; each compiles and has a first group
/// that takes part in every match. The result is named, not stated.
#[verifier::external_body]
fn regex_first_capture(pattern: &str, text: &str) -> (r: Option<String>)
    requires
        pattern@ == register_pattern() || pattern@ == current_pattern() || pattern@ == uuid_pattern(),
    ensures
        match r {
            Some(s) => regex_first_group(pattern@, text@) == Some(s@),
            None => regex_first_group(pattern@, text@).is_none(),
        },
{
    let re = regex::Regex::new(pattern).unwrap();
    re.captures(text).map(|c| c[1].to_string())
}

/// `str::len`: the number of bytes of the UTF-8 encoding.
#[verifier::external_body]
fn byte_len(s: &str) -> (r: usize)
    ensures
        r == utf8_size(s@),
{
    s.len()
}

/// The report session id in the report page: a `FR.SessionMgr.register`
/// call, else a `currentSessionID` assignment, else any UUID; an error
/// naming the page's length in bytes when there is none.
pub open spec fn session_id_spec(html: Seq<char>) -> Result<Seq<char>, Seq<char>> {
    match regex_first_group(register_pattern(), html) {
        Some(s) => Ok(s),
        None => match regex_first_group(current_pattern(), html) {
            Some(s) => Ok(s),
            None => match regex_first_group(uuid_pattern(), html) {
                Some(s) => Ok(s),
                None => Err("未抓到 sessionID。HTML 总长 "@ + decimal_seq(utf8_size(html)) + " 字符"@),
            },
        },
    }
}

/// Finds the report session id in the report page.
pub fn session_id_from_html(html: &str) -> (r: Result<String, String>)
    ensures
        match r {
            Ok(s) => session_id_spec(html@) == Ok::<Seq<char>, Seq<char>>(s@),
            Err(e) => session_id_spec(html@) == Err::<Seq<char>, Seq<char>>(e@),
        },
{
    let register = "FR\\.SessionMgr\\.register\\(\\s*['\"]([0-9a-f]{8}-[0-9a-f]{4}-[0-9a-f]{4}-[0-9a-f]{4}-[0-9a-f]{12})['\"]";
    let current = "currentSessionID\\s*=\\s*['\"]([0-9a-f]{8}-[0-9a-f]{4}-[0-9a-f]{4}-[0-9a-f]{4}-[0-9a-f]{12})['\"]";
    let uuid = "([0-9a-f]{8}-[0-9a-f]{4}-[0-9a-f]{4}-[0-9a-f]{4}-[0-9a-f]{12})";
    if let Some(s) = regex_first_capture(register, html) {
        return Ok(s);
    }
    if let Some(s) = regex_first_capture(current, html) {
        return Ok(s);
    }
    if let Some(s) = regex_first_capture(uuid, html) {
        return Ok(s);
    }
    let n = byte_len(html);
    let mut e = owned("未抓到 sessionID。HTML 总长 ");
    let d = decimal_string(n as u64);
    push_str(&mut e, d.as_str());
    push_str(&mut e, " 字符");
    Err(e)
}

/// What the report page says of the login: an empty page or the login page
/// means the token expired.
pub open spec fn open_report_error_spec(html: Seq<char>) -> Option<Seq<char>> {
    if html.len() == 0 {
        Some("AUTH_EXPIRED: 打开报表返回空内容，JWT 可能已过期"@)
    } else if seq_contains(lowercase_of(html), "decision/login"@) {
        Some("AUTH_EXPIRED: 打开报表返回登录页 HTML，JWT 已过期"@)
    } else {
        None
    }
}

/// The error the report page stands for, if any.
pub fn open_report_error(html: &str) -> (r: Option<String>)
    ensures
        match r {
            Some(e) => open_report_error_spec(html@) == Some(e@),
            None => open_report_error_spec(html@).is_none(),
        },
{
    if html.is_empty() {
        Some(owned("AUTH_EXPIRED: 打开报表返回空内容，JWT 可能已过期"))
    } else if is_login_page(html) {
        Some(owned("AUTH_EXPIRED: 打开报表返回登录页 HTML，JWT 已过期"))
    } else {
        None
    }
}

/// The error the editor handshake reply stands for: the login page means
/// the token expired.
pub fn editor_config_error(body: &str) -> (r: Option<String>)
    ensures
        match r {
            Some(e) => seq_contains(lowercase_of(body@), "decision/login"@)
                && e@ == "AUTH_EXPIRED: getEditorConfig 返回登录页 HTML，JWT 已过期"@,
            None => !seq_contains(lowercase_of(body@), "decision/login"@),
        },
{
    if is_login_page(body) {
        Some(owned("AUTH_EXPIRED: getEditorConfig 返回登录页 HTML，JWT 已过期"))
    } else {
        None
    }
}

/// What a report-content reply says of the session: it is JSON when the
/// session holds; an empty reply, or HTML (a `<` first, or the login page),
/// means it expired.
pub open spec fn read_content_error_spec(text: Seq<char>) -> Option<Seq<char>> {
    let t = trim_start_seq(text);
    if t.len() == 0 {
        Some("AUTH_EXPIRED: read_w_content 返回空响应，会话可能已失效"@)
    } else if t[0] == '<' || seq_contains(lowercase_of(text), "decision/login"@) {
        Some("AUTH_EXPIRED: read_w_content 返回 HTML（非 JSON），会话已失效"@)
    } else {
        None
    }
}

/// The error a report-content reply stands for, if any.
pub fn read_content_error(text: &str) -> (r: Option<String>)
    ensures
        match r {
            Some(e) => read_content_error_spec(text@) == Some(e@),
            None => read_content_error_spec(text@).is_none(),
        },
{
    let v = chars_of(text);
    let mut i: usize = 0;
    assert(v@.skip(0) =~= v@);
    while i < v.len() && crate::text::is_whitespace(v[i])
        invariant
            i <= v.len(),
            v@ == text@,
            trim_start_seq(text@) == trim_start_seq(v@.skip(i as int)),
        decreases v.len() - i,
    {
        assert(v@.skip(i as int).drop_first() =~= v@.skip(i + 1));
        i = i + 1;
    }
    assert(trim_start_seq(text@) == v@.skip(i as int));
    if i == v.len() {
        Some(owned("AUTH_EXPIRED: read_w_content 返回空响应，会话可能已失效"))
    } else if v[i] == '<' || is_login_page(text) {
        Some(owned("AUTH_EXPIRED: read_w_content 返回 HTML（非 JSON），会话已失效"))
    } else {
        None
    }
}

/// The value at a path of member names, if every step exists.
pub open spec fn at_path2(v: JsonView, a: Seq<char>, b: Seq<char>) -> Option<JsonView> {
    match member(fields_of(v), a) {
        Some(x) => member(fields_of(x), b),
        None => None,
    }
}

/// The first of the login reply's token places that exists:
/// `data.accessToken`, `data.token`, `data.fine_auth_token`,
/// `accessToken`, `token`.
pub open spec fn token_slot(v: JsonView) -> Option<JsonView> {
    match at_path2(v, "data"@, "accessToken"@) {
        Some(x) => Some(x),
        None => match at_path2(v, "data"@, "token"@) {
            Some(x) => Some(x),
            None => match at_path2(v, "data"@, "fine_auth_token"@) {
                Some(x) => Some(x),
                None => match member(fields_of(v), "accessToken"@) {
                    Some(x) => Some(x),
                    None => member(fields_of(v), "token"@),
                },
            },
        },
    }
}

/// The login token of a login reply (`raw` its text), or the error to
/// report: the reply's `errorMsg` (else `description`) and the raw reply.
pub open spec fn login_token_spec(v: JsonView, raw: Seq<char>) -> Result<Seq<char>, Seq<char>> {
    match token_slot(v) {
        Some(JsonView::Str(t)) if t.len() > 0 => Ok(t),
        _ => {
            let msg = match member(fields_of(v), "errorMsg"@) {
                Some(JsonView::Str(m)) => m,
                Some(_) => Seq::empty(),
                None => match str_member(v, "description"@) {
                    Some(m) => m,
                    None => Seq::empty(),
                },
            };
            let shown = if msg.len() == 0 {
                "未知错误"@
            } else {
                msg
            };
            Err("帆软登录未拿到 JWT："@ + shown + "（原文："@ + raw + "）"@)
        },
    }
}

fn at_path2_exec<'a>(v: &'a Json, a: &str, b: &str) -> (r: Option<&'a Json>)
    ensures
        match r {
            Some(x) => at_path2(jview(*v), a@, b@) == Some(jview(*x)),
            None => at_path2(jview(*v), a@, b@).is_none(),
        },
{
    match member_of(v, a) {
        Some(x) => member_of(x, b),
        None => None,
    }
}

/// Reads the login token out of a login reply.
pub fn login_token(v: &Json, raw: &str) -> (r: Result<String, String>)
    ensures
        match r {
            Ok(t) => login_token_spec(jview(*v), raw@) == Ok::<Seq<char>, Seq<char>>(t@),
            Err(e) => login_token_spec(jview(*v), raw@) == Err::<Seq<char>, Seq<char>>(e@),
        },
{
    let slot: Option<&Json> = match at_path2_exec(v, "data", "accessToken") {
        Some(x) => Some(x),
        None => match at_path2_exec(v, "data", "token") {
            Some(x) => Some(x),
            None => match at_path2_exec(v, "data", "fine_auth_token") {
                Some(x) => Some(x),
                None => match member_of(v, "accessToken") {
                    Some(x) => Some(x),
                    None => member_of(v, "token"),
                },
            },
        },
    };
    match slot {
        Some(Json::Str(t)) => {
            if !t.as_str().is_empty() {
                return Ok(owned(t.as_str()));
            }
        },
        _ => {},
    }
    let msg: String = match member_of(v, "errorMsg") {
        Some(Json::Str(m)) => owned(m.as_str()),
        Some(_) => String::new(),
        None => match member_of(v, "description") {
            Some(Json::Str(m)) => owned(m.as_str()),
            _ => String::new(),
        },
    };
    let mut e = owned("帆软登录未拿到 JWT：");
    if msg.as_str().is_empty() {
        push_str(&mut e, "未知错误");
    } else {
        push_str(&mut e, msg.as_str());
    }
    push_str(&mut e, "（原文：");
    push_str(&mut e, raw);
    push_str(&mut e, "）");
    Err(e)
}

/// The UTF-8 encoding of a character.
pub open spec fn utf8_bytes(c: char) -> Seq<u8> {
    let u = c as nat;
    if u < 0x80 {
        seq![u as u8]
    } else if u < 0x800 {
        seq![(0xC0 + u / 64) as u8, (0x80 + u % 64) as u8]
    } else if u < 0x10000 {
        seq![(0xE0 + u / 4096) as u8, (0x80 + (u / 64) % 64) as u8, (0x80 + u % 64) as u8]
    } else {
        seq![
            (0xF0 + u / 262144) as u8,
            (0x80 + (u / 4096) % 64) as u8,
            (0x80 + (u / 64) % 64) as u8,
            (0x80 + u % 64) as u8,
        ]
    }
}

/// An upper-case hexadecimal digit.
pub open spec fn hex_upper(d: nat) -> char {
    if d < 10 {
        (48 + d) as char
    } else {
        (55 + d) as char
    }
}

/// A byte left as it is: an ASCII letter or digit, `-`, `.`, `_` or `~`.
pub open spec fn url_safe(b: u8) -> bool {
    (48 <= b <= 57) || (65 <= b <= 90) || (97 <= b <= 122) || b == 45 || b == 46 || b == 95 || b == 126
}

/// One byte, percent-encoded unless it is safe.
pub open spec fn encode_byte(b: u8) -> Seq<char> {
    if url_safe(b) {
        seq![b as char]
    } else {
        seq!['%', hex_upper((b / 16) as nat), hex_upper((b % 16) as nat)]
    }
}

/// Bytes, each encoded.
pub open spec fn encode_bytes(bs: Seq<u8>) -> Seq<char>
    decreases bs.len(),
{
    if bs.len() == 0 {
        Seq::empty()
    } else {
        encode_bytes(bs.drop_last()) + encode_byte(bs.last())
    }
}

/// Percent-encoding of the UTF-8 bytes of `s`: every byte but ASCII
/// letters, digits, `-`, `_`, `.` and `~` becomes `%` and two upper-case
/// hexadecimal digits.
pub open spec fn url_encoded(s: Seq<char>) -> Seq<char>
    decreases s.len(),
{
    if s.len() == 0 {
        Seq::empty()
    } else {
        url_encoded(s.drop_last()) + encode_bytes(utf8_bytes(s.last()))
    }
}

/// `urlencoding::encode`: the percent-encoding of the UTF-8 bytes of `s`,
/// every byte but ASCII letters, digits, `-`, `_`, `.` and `~`, with
/// upper-case hexadecimal digits.
#[verifier::external_body]
fn url_encode(s: &str) -> (r: String)
    ensures
        r@ == url_encoded(s@),
{
    urlencoding::encode(s).into_owned()
}

/// The report page address.
pub fn open_report_url(base: &str, viewlet: &str) -> (r: String)
    ensures
        r@ == base@ + "/webroot/decision/view/report?op=write&viewlet="@ + url_encoded(viewlet@),
{
    let mut u = owned(base);
    push_str(&mut u, "/webroot/decision/view/report?op=write&viewlet=");
    let e = url_encode(viewlet);
    push_str(&mut u, e.as_str());
    u
}

/// The editor handshake address for one report sheet at time `ts_ms`.
pub fn editor_config_url(base: &str, report_index: u32, ts_ms: i64) -> (r: String)
    ensures
        r@ == base@ + "/webroot/decision/view/report?op=fr_write&cmd=getEditorConfig&reportIndex="@
            + decimal_seq(report_index as nat) + "&_="@ + signed_decimal_seq(ts_ms as int),
{
    let mut u = owned(base);
    push_str(&mut u, "/webroot/decision/view/report?op=fr_write&cmd=getEditorConfig&reportIndex=");
    let idx = decimal_string(report_index as u64);
    push_str(&mut u, idx.as_str());
    push_str(&mut u, "&_=");
    let ts = signed_decimal_string(ts_ms);
    push_str(&mut u, ts.as_str());
    u
}

/// The filter submission address.
pub fn parameters_url(base: &str, session_id: &str) -> (r: String)
    ensures
        r@ == base@ + "/webroot/decision/view/report?op=fr_dialog&cmd=parameters_d&sessionID="@ + url_encoded(
            session_id@,
        ),
{
    let mut u = owned(base);
    push_str(&mut u, "/webroot/decision/view/report?op=fr_dialog&cmd=parameters_d&sessionID=");
    let e = url_encode(session_id);
    push_str(&mut u, e.as_str());
    u
}

/// The form body of the filter submission: the parameters' JSON text,
/// encoded, and the time stamp.
pub fn parameters_form_body(params_json: &str, ts_ms: i64) -> (r: String)
    ensures
        r@ == "__parameters__="@ + url_encoded(params_json@) + "&_="@ + signed_decimal_seq(ts_ms as int),
{
    let mut b = owned("__parameters__=");
    let e = url_encode(params_json);
    push_str(&mut b, e.as_str());
    push_str(&mut b, "&_=");
    let ts = signed_decimal_string(ts_ms);
    push_str(&mut b, ts.as_str());
    b
}

/// The address of one report sheet's content.
pub fn read_content_url(base: &str, ts_ms: i64, session_id: &str, cid: &str, report_index: u32) -> (r: String)
    ensures
        r@ == base@ + "/webroot/decision/view/report?_="@ + signed_decimal_seq(ts_ms as int)
            + "&__boxModel__=true&op=fr_write&cmd=read_w_content&sessionID="@ + url_encoded(session_id@)
            + "&cid="@ + url_encoded(cid@) + "&reportIndex="@ + decimal_seq(report_index as nat)
            + "&browserWidth=1920&__cutpage__=&pn=1&__webpage__=true&_paperWidth=1920&_paperHeight=1000&__fit__=false"@,
{
    let mut u = owned(base);
    push_str(&mut u, "/webroot/decision/view/report?_=");
    let ts = signed_decimal_string(ts_ms);
    push_str(&mut u, ts.as_str());
    push_str(&mut u, "&__boxModel__=true&op=fr_write&cmd=read_w_content&sessionID=");
    let s = url_encode(session_id);
    push_str(&mut u, s.as_str());
    push_str(&mut u, "&cid=");
    let c = url_encode(cid);
    push_str(&mut u, c.as_str());
    push_str(&mut u, "&reportIndex=");
    let idx = decimal_string(report_index as u64);
    push_str(&mut u, idx.as_str());
    push_str(
        &mut u,
        "&browserWidth=1920&__cutpage__=&pn=1&__webpage__=true&_paperWidth=1920&_paperHeight=1000&__fit__=false",
    );
    u
}

/// The report filter's parameters: the time bounds (a bare date gets the
/// start or end of the day), the name as a one-element array (empty for
/// none), the employee status, the project, and the empty text filters and
/// labels the report form carries.
pub open spec fn filter_parameters_spec(begin: Seq<char>, end: Seq<char>, real_name: Seq<char>, project: Seq<char>, user_status: Seq<char>) -> JsonView {
    JsonView::Object(
        seq![
            ("BEGIN_TIME"@, JsonView::Str(with_time_spec(begin, " 00:00:00"@))),
            ("END_TIME"@, JsonView::Str(with_time_spec(end, " 23:59:59"@))),
            (
                "REAL_NAME"@,
                JsonView::Array(
                    if real_name.len() == 0 {
                        Seq::empty()
                    } else {
                        seq![JsonView::Str(real_name)]
                    },
                ),
            ),
            ("USER_STATUS"@, JsonView::Str(user_status)),
            ("PJ_NAME"@, JsonView::Str(project)),
            ("TASK_NAME"@, JsonView::Str(Seq::empty())),
            ("EFFORT_WORK"@, JsonView::Str(Seq::empty())),
            ("ROLE_NAME"@, JsonView::Str(Seq::empty())),
            ("LABELSTARTTIME_C_C"@, JsonView::Str("日期："@)),
            ("LABELENDTIME_C"@, JsonView::Str("结日："@)),
            ("LABELENDTIME_C_C"@, JsonView::Str("结工状态"@)),
            ("LABELSTARTTIME_C_C_C"@, JsonView::Str("项目名："@)),
            ("LABELSTARTTIME_C_C_C_C"@, JsonView::Str("任务名："@)),
            ("LABELSTARTTIME_C_C_C_C_C"@, JsonView::Str("工作内容："@)),
            ("LABELSTARTTIME_C_C_C_C_C_C"@, JsonView::Str("角色："@)),
        ],
    )
}

fn str_field(k: &str, v: &str) -> (r: (String, Json))
    ensures
        r.0@ == k@,
        jview(r.1) == JsonView::Str(v@),
{
    (owned(k), Json::Str(owned(v)))
}

/// The parameters of the report filter submission.
pub fn filter_parameters(begin: &str, end: &str, real_name: &str, project: &str, user_status: &str) -> (r: Json)
    ensures
        jview(r) == filter_parameters_spec(begin@, end@, real_name@, project@, user_status@),
{
    let (b, e) = filter_time_bounds(begin, end);
    let mut names: Vec<Json> = Vec::new();
    if !real_name.is_empty() {
        names.push(Json::Str(owned(real_name)));
    }
    proof {
        crate::config_json::lemma_jviews(names@);
        if real_name@.len() == 0 {
            assert(crate::config_json::jviews(names@) =~= Seq::<JsonView>::empty());
        } else {
            assert(crate::config_json::jviews(names@) =~= seq![JsonView::Str(real_name@)]);
        }
    }
    let names_json = Json::Array(names);
    assert(jview(names_json) == JsonView::Array(
        if real_name@.len() == 0 {
            Seq::<JsonView>::empty()
        } else {
            seq![JsonView::Str(real_name@)]
        },
    ));
    let mut fs: Vec<(String, Json)> = Vec::new();
    fs.push(str_field("BEGIN_TIME", b.as_str()));
    fs.push(str_field("END_TIME", e.as_str()));
    fs.push((owned("REAL_NAME"), names_json));
    fs.push(str_field("USER_STATUS", user_status));
    fs.push(str_field("PJ_NAME", project));
    fs.push(str_field("TASK_NAME", ""));
    fs.push(str_field("EFFORT_WORK", ""));
    fs.push(str_field("ROLE_NAME", ""));
    fs.push(str_field("LABELSTARTTIME_C_C", "日期："));
    fs.push(str_field("LABELENDTIME_C", "结日："));
    fs.push(str_field("LABELENDTIME_C_C", "结工状态"));
    fs.push(str_field("LABELSTARTTIME_C_C_C", "项目名："));
    fs.push(str_field("LABELSTARTTIME_C_C_C_C", "任务名："));
    fs.push(str_field("LABELSTARTTIME_C_C_C_C_C", "工作内容："));
    fs.push(str_field("LABELSTARTTIME_C_C_C_C_C_C", "角色："));
    proof {
        crate::config_json::lemma_fviews(fs@);
        reveal_strlit("");
        assert(""@ =~= Seq::<char>::empty());
        let target = fields_of(filter_parameters_spec(begin@, end@, real_name@, project@, user_status@));
        let got = crate::config_json::fviews(fs@);
        assert(got.len() == target.len());
        assert(got =~= target);
    }
    Json::Object(fs)
}

} // verus!
