//! FineReport (BI) access: the settings and results exchanged with the
//! settings panel, the cleanup of report cell text (HTML entities and rich
//! text), and the small decisions around login and report filters.

use vstd::prelude::*;
use base64::Engine;
use md5::Digest;
use crate::channels::strip_trailing;
use crate::channel_flow::{regex_remove_all, regex_removed};
use crate::text::{chars_of, contains_chars, seq_starts_with, signed_decimal_seq, signed_decimal_string, starts_with_chars, lowercase_of, owned, push_str, seq_contains, to_lowercase, replace_chars, replace_seq, run_end, run_end_exec, seq_eq, slice_chars, string_of, trim_chars, trim_seq};

verus! {

/// FineReport connection settings with the password from the key store.
#[derive(Debug, Clone)]
pub struct FineReportCredentials {
    pub base_url: String,
    pub account: String,
    pub password: String,
    /// Display name used to filter the report to one person.
    pub real_name: String,
}

/// A connection test asked for in the settings panel.
#[derive(Debug, Clone)]
pub struct FineReportTestRequest {
    pub base_url: String,
    pub account: String,
    pub password: String,
}

/// What a connection test found.
#[derive(Debug, Clone)]
pub struct FineReportTestResult {
    pub ok: bool,
    pub message: String,
}

/// Value of a digit in base 10 or 16.
pub open spec fn digit_value(c: char, radix: nat) -> Option<nat> {
    if '0' <= c && c <= '9' {
        Some((c as nat - 48) as nat)
    } else if radix == 16 && 'a' <= c && c <= 'f' {
        Some((c as nat - 87) as nat)
    } else if radix == 16 && 'A' <= c && c <= 'F' {
        Some((c as nat - 55) as nat)
    } else {
        None
    }
}

/// Every character is a digit of the base.
pub open spec fn all_radix_digits(s: Seq<char>, radix: nat) -> bool {
    forall|k: int| 0 <= k < s.len() ==> (#[trigger] digit_value(s[k], radix)).is_some()
}

/// Value of a run of digits, most significant first.
pub open spec fn radix_value(s: Seq<char>, radix: nat) -> nat
    decreases s.len(),
{
    if s.len() == 0 {
        0
    } else {
        radix_value(s.drop_last(), radix) * radix + digit_value(s.last(), radix).unwrap_or(0)
    }
}

/// What `u32::from_str_radix` (and `str::parse::<u32>` for base 10) accepts:
/// an optional `+`, at least one digit, a value that fits in `u32`.
pub open spec fn parse_u32_spec(s: Seq<char>, radix: nat) -> Option<nat> {
    let d = if s.len() > 0 && s[0] == '+' {
        s.drop_first()
    } else {
        s
    };
    if d.len() > 0 && all_radix_digits(d, radix) && radix_value(d, radix) <= u32::MAX {
        Some(radix_value(d, radix))
    } else {
        None
    }
}

proof fn lemma_radix_value_grows(s: Seq<char>, radix: nat, k: nat)
    requires
        k < s.len(),
        radix >= 1,
    ensures
        radix_value(s.take(k as int + 1), radix) <= radix_value(s, radix),
    decreases s.len(),
{
    if k + 1 < s.len() {
        assert(s.drop_last().take(k as int + 1) =~= s.take(k as int + 1));
        lemma_radix_value_grows(s.drop_last(), radix, k);
        let a = radix_value(s.drop_last(), radix);
        assert(a * radix >= a) by (nonlinear_arith)
            requires
                radix >= 1,
        ;
    } else {
        assert(s.take(k as int + 1) =~= s);
    }
}

/// `u32::from_str_radix(s, radix)` for base 10 or 16.
pub fn parse_u32_radix(v: &Vec<char>, radix: u32) -> (r: Option<u32>)
    requires
        radix == 10 || radix == 16,
    ensures
        match r {
            Some(n) => parse_u32_spec(v@, radix as nat) == Some(n as nat),
            None => parse_u32_spec(v@, radix as nat).is_none(),
        },
{
    let start: usize = if v.len() > 0 && v[0] == '+' {
        1
    } else {
        0
    };
    let ghost d = if v@.len() > 0 && v@[0] == '+' {
        v@.drop_first()
    } else {
        v@
    };
    assert(v@.subrange(start as int, v.len() as int) =~= d);
    if start >= v.len() {
        return None;
    }
    let mut acc: u64 = 0;
    let mut k = start;
    while k < v.len()
        invariant
            start <= k <= v.len(),
            radix == 10 || radix == 16,
            d == v@.subrange(start as int, v.len() as int),
            d == (if v@.len() > 0 && v@[0] == '+' {
                v@.drop_first()
            } else {
                v@
            }),
            acc <= u32::MAX,
            all_radix_digits(v@.subrange(start as int, k as int), radix as nat),
            acc == radix_value(v@.subrange(start as int, k as int), radix as nat),
        decreases v.len() - k,
    {
        let c = v[k];
        let dv: u64 = if '0' <= c && c <= '9' {
            (c as u32 - 48) as u64
        } else if radix == 16 && 'a' <= c && c <= 'f' {
            (c as u32 - 87) as u64
        } else if radix == 16 && 'A' <= c && c <= 'F' {
            (c as u32 - 55) as u64
        } else {
            assert(digit_value(d[k - start], radix as nat).is_none());
            assert(!all_radix_digits(d, radix as nat));
            return None;
        };
        assert(v@.subrange(start as int, k + 1).drop_last() =~= v@.subrange(start as int, k as int));
        assert(digit_value(c, radix as nat) == Some(dv as nat));
        assert(acc * (radix as u64) <= 0xffff_ffffu64 * 16) by (nonlinear_arith)
            requires
                acc <= 0xffff_ffffu64,
                radix <= 16,
        ;
        assert(dv <= 15);
        let next = acc * (radix as u64) + dv;
        assert(all_radix_digits(v@.subrange(start as int, k + 1), radix as nat)) by {
            assert forall|m: int| 0 <= m < k + 1 - start implies (#[trigger] digit_value(
                v@.subrange(start as int, k + 1)[m],
                radix as nat,
            )).is_some() by {
                if m < k - start {
                    assert(v@.subrange(start as int, k + 1)[m] == v@.subrange(start as int, k as int)[m]);
                }
            }
        }
        if next > 0xffff_ffff {
            proof {
                assert(d.take(k - start + 1) =~= v@.subrange(start as int, k + 1));
                if all_radix_digits(d, radix as nat) {
                    lemma_radix_value_grows(d, radix as nat, (k - start) as nat);
                }
            }
            return None;
        }
        acc = next;
        k = k + 1;
    }
    assert(v@.subrange(start as int, k as int) =~= d);
    Some(acc as u32)
}

/// A Unicode scalar value: what `char::from_u32` accepts.
pub open spec fn is_scalar(n: nat) -> bool {
    n < 0xD800 || (0xE000 <= n && n <= 0x10FFFF)
}

/// `char::from_u32`: the character with that code when it is a Unicode
/// scalar value (not a surrogate, at most `0x10FFFF`), `None` otherwise.
#[verifier::external_body]
fn char_from_u32(n: u32) -> (r: Option<char>)
    ensures
        is_scalar(n as nat) ==> r == Some(n as char),
        !is_scalar(n as nat) ==> r.is_none(),
{
    char::from_u32(n)
}

/// The character an entity body (between `&` and `;`) stands for: `#NNN`
/// and `#xHH` numeric references, and `amp lt gt quot apos nbsp` (the last
/// decoded as a plain space).
pub open spec fn entity_char(ent: Seq<char>) -> Option<char> {
    if ent.len() > 0 && ent[0] == '#' {
        let rest = ent.drop_first();
        let n = if rest.len() > 0 && (rest[0] == 'x' || rest[0] == 'X') {
            parse_u32_spec(rest.drop_first(), 16)
        } else {
            parse_u32_spec(rest, 10)
        };
        match n {
            Some(v) => if is_scalar(v) {
                Some(v as char)
            } else {
                None
            },
            None => None,
        }
    } else if ent == "amp"@ {
        Some('&')
    } else if ent == "lt"@ {
        Some('<')
    } else if ent == "gt"@ {
        Some('>')
    } else if ent == "quot"@ {
        Some('"')
    } else if ent == "apos"@ {
        Some('\'')
    } else if ent == "nbsp"@ {
        Some(' ')
    } else {
        None
    }
}

/// Position of the first `;` at or after `i`.
pub open spec fn semicolon_from(s: Seq<char>, i: nat) -> Option<nat>
    decreases s.len() - i,
{
    if i >= s.len() {
        None
    } else if s[i as int] == ';' {
        Some(i)
    } else {
        semicolon_from(s, i + 1)
    }
}

/// `s[i..]` with entities decoded: an `&` followed (up to the next `;`) by a
/// known entity becomes its character; anything else is copied.
pub open spec fn decode_from(s: Seq<char>, i: nat) -> Seq<char>
    decreases s.len() - i,
{
    if i >= s.len() {
        Seq::empty()
    } else if s[i as int] == '&' && semicolon_from(s, i + 1).is_some() && semicolon_from(
        s,
        i + 1,
    ).unwrap() > i && semicolon_from(s, i + 1).unwrap() < s.len() && entity_char(
        s.subrange(i as int + 1, semicolon_from(s, i + 1).unwrap() as int),
    ).is_some() {
        let e = semicolon_from(s, i + 1).unwrap();
        seq![entity_char(s.subrange(i as int + 1, e as int)).unwrap()] + decode_from(s, e + 1)
    } else {
        seq![s[i as int]] + decode_from(s, i + 1)
    }
}

fn semicolon_exec(v: &Vec<char>, from: usize) -> (r: Option<usize>)
    requires
        from <= v.len(),
    ensures
        match r {
            Some(e) => semicolon_from(v@, from as nat) == Some(e as nat) && from <= e < v.len(),
            None => semicolon_from(v@, from as nat).is_none(),
        },
{
    let mut i = from;
    while i < v.len() && v[i] != ';'
        invariant
            from <= i <= v.len(),
            semicolon_from(v@, i as nat) == semicolon_from(v@, from as nat),
        decreases v.len() - i,
    {
        i = i + 1;
    }
    if i < v.len() {
        Some(i)
    } else {
        None
    }
}

fn entity_char_exec(ent: &Vec<char>) -> (r: Option<char>)
    ensures
        r == entity_char(ent@),
{
    if ent.len() > 0 && ent[0] == '#' {
        let rest = slice_chars(ent, 1, ent.len());
        assert(rest@ =~= ent@.drop_first());
        let n = if rest.len() > 0 && (rest[0] == 'x' || rest[0] == 'X') {
            let hex = slice_chars(&rest, 1, rest.len());
            assert(hex@ =~= rest@.drop_first());
            parse_u32_radix(&hex, 16)
        } else {
            parse_u32_radix(&rest, 10)
        };
        return match n {
            Some(v) => char_from_u32(v),
            None => None,
        };
    }
    if seq_eq(ent, &chars_of("amp")) {
        Some('&')
    } else if seq_eq(ent, &chars_of("lt")) {
        Some('<')
    } else if seq_eq(ent, &chars_of("gt")) {
        Some('>')
    } else if seq_eq(ent, &chars_of("quot")) {
        Some('"')
    } else if seq_eq(ent, &chars_of("apos")) {
        Some('\'')
    } else if seq_eq(ent, &chars_of("nbsp")) {
        Some(' ')
    } else {
        None
    }
}

/// Decodes the HTML entities in report cell text (`&amp;` → `&`,
/// `&#37096;` → `部`, `&#x8F6F;` → `软`); unknown or malformed entities stay as
/// they are.
pub fn decode_html_entities(s: &str) -> (r: String)
    ensures
        r@ == decode_from(s@, 0),
{
    let v = chars_of(s);
    let mut out: Vec<char> = Vec::new();
    let mut i: usize = 0;
    while i < v.len()
        invariant
            i <= v.len(),
            v@ == s@,
            out@ + decode_from(v@, i as nat) == decode_from(v@, 0),
        decreases v.len() - i,
    {
        let ghost before = out@;
        if v[i] == '&' {
            match semicolon_exec(&v, i + 1) {
                Some(e) => {
                    let ent = slice_chars(&v, i + 1, e);
                    match entity_char_exec(&ent) {
                        Some(c) => {
                            out.push(c);
                            assert(out@ + decode_from(v@, (e + 1) as nat) =~= before + decode_from(
                                v@,
                                i as nat,
                            ));
                            i = e + 1;
                            continue;
                        },
                        None => {},
                    }
                },
                None => {},
            }
        }
        out.push(v[i]);
        assert(out@ + decode_from(v@, (i + 1) as nat) =~= before + decode_from(v@, i as nat));
        i = i + 1;
    }
    string_of(&out)
}

/// An HTML tag: `<`, anything but `>`, then `>`.
pub open spec fn tag_pattern() -> Seq<char> {
    "<[^>]*>"@
}

/// The white-space separated words of `s[i..]`.
pub open spec fn words_from(s: Seq<char>, i: nat) -> Seq<Seq<char>>
    decreases s.len() - i,
{
    let a = run_end(s, i, true);
    if a >= s.len() || a < i {
        Seq::empty()
    } else {
        let e = run_end(s, a, false);
        if e > a && e <= s.len() {
            seq![s.subrange(a as int, e as int)] + words_from(s, e)
        } else {
            Seq::empty()
        }
    }
}

/// Words joined by single spaces.
pub open spec fn join_words(ws: Seq<Seq<char>>) -> Seq<char>
    decreases ws.len(),
{
    if ws.len() == 0 {
        Seq::empty()
    } else if ws.len() == 1 {
        ws[0]
    } else {
        ws[0] + seq![' '] + join_words(ws.drop_first())
    }
}

proof fn lemma_join_words_push(ws: Seq<Seq<char>>, w: Seq<char>)
    ensures
        ws.len() == 0 ==> join_words(ws.push(w)) == w,
        ws.len() > 0 ==> join_words(ws.push(w)) == join_words(ws) + seq![' '] + w,
    decreases ws.len(),
{
    if ws.len() == 0 {
        assert(ws.push(w) =~= seq![w]);
    } else if ws.len() == 1 {
        assert(ws.push(w).drop_first() =~= seq![w]);
        assert(join_words(ws.push(w).drop_first()) == w);
    } else {
        lemma_join_words_push(ws.drop_first(), w);
        assert(ws.push(w).drop_first() =~= ws.drop_first().push(w));
        assert(join_words(ws) == ws[0] + seq![' '] + join_words(ws.drop_first()));
        assert(join_words(ws.push(w)) =~= join_words(ws) + seq![' '] + w);
    }
}

/// Visible text of a rich-text report cell: tags removed, white space runs
/// collapsed to single spaces, literal `\r\n` and `\n` escapes removed,
/// double spaces made single, trimmed.
pub open spec fn plain_text_spec(s: Seq<char>) -> Seq<char> {
    untagged_text_spec(regex_removed(tag_pattern(), s))
}

/// Visible text of a cell once its tags are removed: white space runs
/// collapsed to single spaces, literal `\r\n` and `\n` escapes removed,
/// double spaces made single, trimmed.
pub open spec fn untagged_text_spec(u: Seq<char>) -> Seq<char> {
    let collapsed = join_words(words_from(u, 0));
    trim_seq(
        replace_seq(
            replace_seq(replace_seq(collapsed, "\\r\\n"@, Seq::empty()), "\\n"@, Seq::empty()),
            "  "@,
            " "@,
        ),
    )
}

proof fn lemma_run_end_stop(s: Seq<char>, i: nat, ws: bool)
    ensures
        run_end(s, i, ws) >= i,
        run_end(s, i, ws) < s.len() ==> crate::text::is_ws(s[run_end(s, i, ws) as int]) != ws,
    decreases s.len() - i,
{
    if i < s.len() && crate::text::is_ws(s[i as int]) == ws {
        lemma_run_end_stop(s, i + 1, ws);
    }
}

fn collapse_whitespace(v: &Vec<char>) -> (r: Vec<char>)
    ensures
        r@ == join_words(words_from(v@, 0)),
{
    let mut out: Vec<char> = Vec::new();
    let ghost mut done: Seq<Seq<char>> = Seq::empty();
    let mut nwords: usize = 0;
    let mut i: usize = 0;
    while i < v.len()
        invariant
            i <= v.len(),
            nwords == done.len(),
            nwords <= i,
            done + words_from(v@, i as nat) == words_from(v@, 0),
            out@ == join_words(done),
        decreases v.len() - i,
    {
        let a = run_end_exec(v, i, true);
        if a >= v.len() {
            assert(words_from(v@, i as nat) =~= Seq::<Seq<char>>::empty());
            i = v.len();
            assert(words_from(v@, i as nat) =~= Seq::<Seq<char>>::empty());
            continue;
        }
        let e = run_end_exec(v, a, false);
        assert(e > a) by {
            lemma_run_end_stop(v@, i as nat, true);
            lemma_run_end_stop(v@, (a + 1) as nat, false);
        }
        let w = slice_chars(v, a, e);
        proof {
            lemma_join_words_push(done, w@);
            assert(words_from(v@, i as nat) =~= seq![w@] + words_from(v@, e as nat));
            assert(done.push(w@) + words_from(v@, e as nat) =~= done + words_from(v@, i as nat));
        }
        if nwords > 0 {
            out.push(' ');
        }
        let mut k: usize = 0;
        let ghost base = out@;
        while k < w.len()
            invariant
                k <= w.len(),
                out@ == base + w@.take(k as int),
            decreases w.len() - k,
        {
            out.push(w[k]);
            k = k + 1;
            assert(out@ =~= base + w@.take(k as int));
        }
        assert(w@.take(w.len() as int) =~= w@);
        proof {
            done = done.push(w@);
        }
        nwords = nwords + 1;
        i = e;
    }
    assert(words_from(v@, i as nat) =~= Seq::<Seq<char>>::empty());
    assert(done + words_from(v@, i as nat) =~= done);
    out
}

/// The visible text of a report cell holding rich text
/// (`<p><span style="...">完成页面改造</span></p>` gives `完成页面改造`).
pub fn html_to_plain_text(s: &str) -> (r: String)
    ensures
        r@ == plain_text_spec(s@),
{
    proof {
        reveal_strlit("<[^>]*>");
    }
    let stripped = regex_remove_all("<[^>]*>", s);
    untagged_to_plain_text(stripped.as_str())
}

/// The visible text of a cell whose tags are already removed.
pub fn untagged_to_plain_text(u: &str) -> (r: String)
    ensures
        r@ == untagged_text_spec(u@),
{
    let stripped = chars_of(u);
    let collapsed = collapse_whitespace(&stripped);
    let empty: Vec<char> = Vec::new();
    proof {
        reveal_strlit("\\r\\n");
        reveal_strlit("\\n");
        reveal_strlit("  ");
    }
    let a = replace_chars(&collapsed, &chars_of("\\r\\n"), &empty);
    let b = replace_chars(&a, &chars_of("\\n"), &empty);
    let c = replace_chars(&b, &chars_of("  "), &chars_of(" "));
    string_of(&trim_chars(&c))
}

/// The page is FineReport's login page (it answers an expired token with
/// the login page and status 200): the lower-cased text names the login
/// endpoint `decision/login`.
pub fn is_login_page(html: &str) -> (r: bool)
    ensures
        r == seq_contains(lowercase_of(html@), "decision/login"@),
{
    let lower = to_lowercase(html);
    login_page_in_lowercase(lower.as_str())
}

/// The login-page test on text already lower-cased.
pub fn login_page_in_lowercase(lower: &str) -> (r: bool)
    ensures
        r == seq_contains(lower@, "decision/login"@),
{
    contains_chars(&chars_of(lower), &chars_of("decision/login"))
}

/// A login token kept between runs.
#[derive(Debug, Clone)]
pub struct CachedAuth {
    pub account: String,
    pub base_url: String,
    pub jwt: String,
    /// Expiry, unix seconds.
    pub expires_at: i64,
    pub session_id: Option<String>,
}

/// A cached token is reused when it belongs to this account and server and
/// has more than 30 minutes left.
pub fn cached_auth_usable(cached: &CachedAuth, account: &String, base_url: &String, now: i64) -> (r: bool)
    ensures
        r == (cached.account@ == account@ && cached.base_url@ == base_url@ && cached.expires_at - now
            > 1800),
{
    let matches_identity = cached.account == *account && cached.base_url == *base_url;
    let still_fresh = (cached.expires_at as i128) - (now as i128) > 1800;
    matches_identity && still_fresh
}

/// The name an effort query filters by: the one given (trimmed) when not
/// blank, else the configured one. With neither, the name is empty and the
/// query goes out without a name filter.
pub open spec fn real_name_spec(explicit: Option<Seq<char>>, configured: Seq<char>) -> Seq<char> {
    match explicit {
        Some(n) => if trim_seq(n).len() > 0 {
            trim_seq(n)
        } else {
            configured
        },
        None => configured,
    }
}

/// Chooses the name an effort query filters by.
pub fn effective_real_name(explicit: &Option<String>, configured: &String) -> (r: String)
    ensures
        r@ == real_name_spec(
            match explicit {
                Some(n) => Some(n@),
                None => None,
            },
            configured@,
        ),
{
    match explicit {
        Some(n) => {
            let t = trim_chars(&chars_of(n.as_str()));
            if t.len() > 0 {
                string_of(&t)
            } else {
                configured.clone()
            }
        },
        None => configured.clone(),
    }
}

/// A filter bound with its time of day: a bare date gets `suffix`
/// (` 00:00:00` for the start, ` 23:59:59` for the end), so that a one-day
/// range covers the whole day.
pub open spec fn with_time_spec(d: Seq<char>, suffix: Seq<char>) -> Seq<char> {
    if d.contains(' ') {
        d
    } else {
        d + suffix
    }
}

/// The report filter's start and end times.
pub fn filter_time_bounds(begin: &str, end: &str) -> (r: (String, String))
    ensures
        r.0@ == with_time_spec(begin@, " 00:00:00"@),
        r.1@ == with_time_spec(end@, " 23:59:59"@),
{
    let bv = chars_of(begin);
    let ev = chars_of(end);
    let sp = chars_of(" ");
    proof {
        reveal_strlit(" ");
    }
    let b_has = contains_chars(&bv, &sp);
    let e_has = contains_chars(&ev, &sp);
    assert(b_has == begin@.contains(' ')) by {
        if b_has {
            let i = choose|i: int| crate::text::occurs_at(bv@, sp@, i);
            assert(bv@.subrange(i, i + 1)[0] == bv@[i]);
        }
        if begin@.contains(' ') {
            let i = choose|i: int| 0 <= i < begin@.len() && begin@[i] == ' ';
            assert(bv@.subrange(i, i + 1) =~= sp@);
            assert(crate::text::occurs_at(bv@, sp@, i));
        }
    }
    assert(e_has == end@.contains(' ')) by {
        if e_has {
            let i = choose|i: int| crate::text::occurs_at(ev@, sp@, i);
            assert(ev@.subrange(i, i + 1)[0] == ev@[i]);
        }
        if end@.contains(' ') {
            let i = choose|i: int| 0 <= i < end@.len() && end@[i] == ' ';
            assert(ev@.subrange(i, i + 1) =~= sp@);
            assert(crate::text::occurs_at(ev@, sp@, i));
        }
    }
    let mut b = owned(begin);
    if !b_has {
        push_str(&mut b, " 00:00:00");
    }
    let mut e = owned(end);
    if !e_has {
        push_str(&mut e, " 23:59:59");
    }
    (b, e)
}

/// Position of the first `.` at or after `i`.
pub open spec fn dot_from(s: Seq<char>, i: nat) -> Option<nat>
    decreases s.len() - i,
{
    if i >= s.len() {
        None
    } else if s[i as int] == '.' {
        Some(i)
    } else {
        dot_from(s, i + 1)
    }
}

/// The payload of a JWT: the middle part when the token has exactly three
/// `.`-separated parts.
pub open spec fn jwt_payload_spec(s: Seq<char>) -> Option<Seq<char>> {
    match dot_from(s, 0) {
        Some(a) => match dot_from(s, a + 1) {
            Some(b) => if dot_from(s, b + 1).is_none() && a < b {
                Some(s.subrange(a as int + 1, b as int))
            } else {
                None
            },
            None => None,
        },
        None => None,
    }
}

fn dot_exec(v: &Vec<char>, from: usize) -> (r: Option<usize>)
    requires
        from <= v.len(),
    ensures
        match r {
            Some(e) => dot_from(v@, from as nat) == Some(e as nat) && from <= e < v.len(),
            None => dot_from(v@, from as nat).is_none(),
        },
{
    let mut i = from;
    while i < v.len() && v[i] != '.'
        invariant
            from <= i <= v.len(),
            dot_from(v@, i as nat) == dot_from(v@, from as nat),
        decreases v.len() - i,
    {
        i = i + 1;
    }
    if i < v.len() {
        Some(i)
    } else {
        None
    }
}

/// The payload part of a JWT.
pub fn jwt_payload(jwt: &str) -> (r: Option<String>)
    ensures
        match r {
            Some(p) => jwt_payload_spec(jwt@) == Some(p@),
            None => jwt_payload_spec(jwt@).is_none(),
        },
{
    let v = chars_of(jwt);
    let a = match dot_exec(&v, 0) {
        Some(a) => a,
        None => return None,
    };
    let b = match dot_exec(&v, a + 1) {
        Some(b) => b,
        None => return None,
    };
    match dot_exec(&v, b + 1) {
        Some(_) => None,
        None => Some(string_of(&slice_chars(&v, a + 1, b))),
    }
}

/// What URL-safe base64 without padding decodes `s` to (`None` when it is
/// not valid base64).
pub uninterp spec fn base64url_nopad_decoded(s: Seq<char>) -> Option<Seq<u8>>;

/// `base64::engine::general_purpose::URL_SAFE_NO_PAD.decode(s)`, the error
/// dropped. The decoded bytes are named, not stated.
#[verifier::external_body]
fn base64_url_decode(s: &str) -> (r: Option<Vec<u8>>)
    ensures
        match r {
            Some(b) => base64url_nopad_decoded(s@) == Some(b@),
            None => base64url_nopad_decoded(s@).is_none(),
        },
{
    base64::engine::general_purpose::URL_SAFE_NO_PAD.decode(s).ok()
}

/// The integer member `key` of the JSON object in `json`, as `serde_json`
/// reads it (`None` when the bytes are not JSON, the member is missing or is
/// not an integer that fits in `i64`).
pub uninterp spec fn json_i64_member(json: Seq<u8>, key: Seq<char>) -> Option<i64>;

/// `serde_json::from_slice::<Value>(json)`, then `get(key)` and `as_i64()`.
/// The result is named, not stated.
#[verifier::external_body]
fn json_i64_field(json: &Vec<u8>, key: &str) -> (r: Option<i64>)
    ensures
        r == json_i64_member(json@, key@),
{
    serde_json::from_slice::<serde_json::Value>(json.as_slice()).ok().and_then(|v| v.get(key).and_then(|e| e.as_i64()))
}

/// The expiry (`exp`, unix seconds) written in a JWT's payload.
pub open spec fn jwt_exp_spec(jwt: Seq<char>) -> Option<i64> {
    match jwt_payload_spec(jwt) {
        Some(p) => match base64url_nopad_decoded(p) {
            Some(b) => json_i64_member(b, "exp"@),
            None => None,
        },
        None => None,
    }
}

/// Reads the expiry a JWT carries.
pub fn decode_jwt_exp(jwt: &str) -> (r: Option<i64>)
    ensures
        r == jwt_exp_spec(jwt@),
{
    let payload = match jwt_payload(jwt) {
        Some(p) => p,
        None => return None,
    };
    let bytes = match base64_url_decode(payload.as_str()) {
        Some(b) => b,
        None => return None,
    };
    json_i64_field(&bytes, "exp")
}

/// Expiry recorded for a new token: the one it carries, else 14 days less an
/// hour from now.
pub fn expiry_or_default(decoded: Option<i64>, now: i64) -> (r: i64)
    requires
        now <= i64::MAX - 1209600,
    ensures
        r == match decoded {
            Some(e) => e as int,
            None => now + 1206000,
        },
{
    match decoded {
        Some(e) => e,
        None => now + 14 * 86400 - 3600,
    }
}

/// Days and hours a token has left (zero once expired).
pub open spec fn time_left(secs: int) -> (int, int) {
    if secs >= 0 {
        (secs / 86400, (secs % 86400) / 3600)
    } else {
        (0, 0)
    }
}

/// Message after a successful connection test.
pub open spec fn login_ok_text(expires_at: i64, now: i64) -> Seq<char> {
    let (d, h) = time_left(expires_at - now);
    "登录成功。exp="@ + signed_decimal_seq(expires_at as int) + ", now="@ + signed_decimal_seq(now as int)
        + ", 剩 "@ + signed_decimal_seq(d) + " 天 "@ + signed_decimal_seq(h) + " 小时"@
}

/// The success message of a connection test, with the time the token has left.
pub fn login_ok_message(expires_at: i64, now: i64) -> (r: String)
    requires
        i64::MIN <= expires_at - now <= i64::MAX,
    ensures
        r@ == login_ok_text(expires_at, now),
{
    let secs = expires_at - now;
    let (d, h): (i64, i64) = if secs >= 0 {
        (secs / 86400, (secs % 86400) / 3600)
    } else {
        (0, 0)
    };
    let mut t = owned("登录成功。exp=");
    push_str(&mut t, signed_decimal_string(expires_at).as_str());
    push_str(&mut t, ", now=");
    push_str(&mut t, signed_decimal_string(now).as_str());
    push_str(&mut t, ", 剩 ");
    push_str(&mut t, signed_decimal_string(d).as_str());
    push_str(&mut t, " 天 ");
    push_str(&mut t, signed_decimal_string(h).as_str());
    push_str(&mut t, " 小时");
    t
}

/// A base URL with `http://` added when it names no scheme (judged on its
/// lower-cased form).
pub fn with_http_scheme(base: &str, lower: &str) -> (r: String)
    ensures
        r@ == if seq_starts_with(lower@, "http"@) {
            base@
        } else {
            "http://"@ + base@
        },
{
    if starts_with_chars(&chars_of(lower), &chars_of("http")) {
        owned(base)
    } else {
        let mut r = owned("http://");
        push_str(&mut r, base);
        r
    }
}

/// The server address a FineReport client uses: trimmed, without trailing
/// `/`, with `http://` added when no scheme is given; an empty setting is an
/// error.
pub fn fine_report_base(base_url: &str) -> (r: Result<String, String>)
    ensures
        base_url@.len() == 0 ==> r.is_err() && r->Err_0@ == "帆软 baseUrl 未配置"@,
        base_url@.len() > 0 ==> r.is_ok() && ({
            let b = strip_trailing(trim_seq(base_url@), '/');
            r.unwrap()@ == if seq_starts_with(lowercase_of(b), "http"@) {
                b
            } else {
                "http://"@ + b
            }
        }),
{
    if base_url.is_empty() {
        return Err(owned("帆软 baseUrl 未配置"));
    }
    let t = trim_chars(&chars_of(base_url));
    let mut end = t.len();
    assert(t@.subrange(0, end as int) =~= t@);
    while end > 0 && t[end - 1] == '/'
        invariant
            end <= t.len(),
            strip_trailing(t@.subrange(0, end as int), '/') == strip_trailing(t@, '/'),
        decreases end,
    {
        assert(t@.subrange(0, end as int).drop_last() =~= t@.subrange(0, end - 1));
        end = end - 1;
    }
    let b = string_of(&slice_chars(&t, 0, end));
    let lower = to_lowercase(b.as_str());
    Ok(with_http_scheme(b.as_str(), lower.as_str()))
}

/// Lower-case hexadecimal digit of `d < 16`.
pub open spec fn hex_digit(d: nat) -> char {
    if d < 10 {
        ((d + 48) as u8) as char
    } else {
        ((d + 87) as u8) as char
    }
}

/// Bytes in lower-case hexadecimal, two digits per byte (what `hex::encode`
/// returns).
pub open spec fn hex_spec(b: Seq<u8>) -> Seq<char>
    decreases b.len(),
{
    if b.len() == 0 {
        Seq::empty()
    } else {
        hex_spec(b.drop_last()) + seq![hex_digit((b.last() / 16) as nat), hex_digit((b.last() % 16) as nat)]
    }
}

proof fn lemma_hex_len(b: Seq<u8>)
    ensures
        hex_spec(b).len() == 2 * b.len(),
    decreases b.len(),
{
    if b.len() > 0 {
        lemma_hex_len(b.drop_last());
    }
}

/// `hex::encode(bytes)`: two lower-case hexadecimal digits per byte.
#[verifier::external_body]
fn hex_encode(bytes: &Vec<u8>) -> (r: String)
    ensures
        r@ == hex_spec(bytes@),
{
    hex::encode(bytes)
}

/// The MD5 digest of the UTF-8 encoding of `s`.
pub uninterp spec fn md5_of_text(s: Seq<char>) -> Seq<u8>;

/// `md5::Md5` fed the UTF-8 bytes of `s`, then `finalize()`. The digest is
/// named, not stated; it is 16 bytes long, as MD5 digests are.
#[verifier::external_body]
fn md5_digest(s: &str) -> (r: Vec<u8>)
    ensures
        r@ == md5_of_text(s@),
        r@.len() == 16,
{
    let mut h = md5::Md5::new();
    h.update(s.as_bytes());
    h.finalize().to_vec()
}

/// The report-session id FineReport checks: an MD5 fingerprint of the seed
/// and time stamp, the time stamp, and the last 8 hexadecimal digits of the
/// MD5 of those two, joined by `#`.
pub open spec fn cid_spec(seed: Seq<char>, ts_ms: u64) -> Seq<char> {
    let p2 = crate::text::decimal_seq(ts_ms as nat);
    let p1 = hex_spec(md5_of_text(seed + "_"@ + p2));
    let full = hex_spec(md5_of_text(p1 + "#"@ + p2));
    p1 + "#"@ + p2 + "#"@ + full.subrange(full.len() - 8, full.len() as int)
}

/// Builds the report-session id for a seed at time `ts_ms` (milliseconds).
pub fn generate_cid(seed: &str, ts_ms: u64) -> (r: String)
    ensures
        r@ == cid_spec(seed@, ts_ms),
{
    let p2 = crate::text::decimal_string(ts_ms);
    let mut first = owned(seed);
    push_str(&mut first, "_");
    push_str(&mut first, p2.as_str());
    let p1 = hex_encode(&md5_digest(first.as_str()));
    let mut second = p1.clone();
    push_str(&mut second, "#");
    push_str(&mut second, p2.as_str());
    let d2 = md5_digest(second.as_str());
    let full = chars_of(hex_encode(&d2).as_str());
    proof {
        lemma_hex_len(d2@);
    }
    let tail = string_of(&slice_chars(&full, full.len() - 8, full.len()));
    let mut r = p1;
    push_str(&mut r, "#");
    push_str(&mut r, p2.as_str());
    push_str(&mut r, "#");
    push_str(&mut r, tail.as_str());
    r
}

} // verus!
