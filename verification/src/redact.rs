//! Keeping credentials out of error messages: the bot's secret and any
//! `"access_token"`, `"clientSecret"` or `"token"` JSON value echoed back
//! by a server are replaced by `<redacted>`.

use vstd::prelude::*;
use crate::git_log::{index_of, index_of_exec};
use crate::text::{
    chars_of, occurs_at, owned, push_str, replace_chars, replace_seq, seq_contains, seq_starts_with, slice_chars,
    string_of, trim_chars, trim_seq,
};

verus! {

/// What one match is replaced by: the text before its first `:`, then
/// `:"<redacted>"`; `<redacted>` when it has no `:`.
pub open spec fn redacted_form(raw: Seq<char>) -> Seq<char> {
    match index_of(raw, ':', 0) {
        Some(i) => raw.take(i) + ":\"<redacted>\""@,
        None => "<redacted>"@,
    }
}

/// The replacement of one matched `"key": "value"` pair.
pub fn redacted_match(raw: &str) -> (r: String)
    ensures
        r@ == redacted_form(raw@),
{
    let v = chars_of(raw);
    match index_of_exec(&v, ':', 0) {
        Some(i) => {
            let key = slice_chars(&v, 0, i);
            assert(key@ =~= raw@.take(i as int));
            let mut s = string_of(&key);
            push_str(&mut s, ":\"<redacted>\"");
            s
        },
        None => owned("<redacted>"),
    }
}

/// An `"access_token": "…"` pair.
pub open spec fn access_token_pattern() -> Seq<char> {
    "\"access_token\"\\s*:\\s*\"[^\"]+\""@
}

/// A `"clientSecret": "…"` pair.
pub open spec fn client_secret_pattern() -> Seq<char> {
    "\"clientSecret\"\\s*:\\s*\"[^\"]+\""@
}

/// A `"token": "…"` pair.
pub open spec fn token_pattern() -> Seq<char> {
    "\"token\"\\s*:\\s*\"[^\"]+\""@
}

/// One of the three credential patterns.
pub open spec fn credential_pattern(p: Seq<char>) -> bool {
    p == access_token_pattern() || p == client_secret_pattern() || p == token_pattern()
}

/// The texts of the successive non-overlapping matches of `pattern` in
/// `text`, as `Regex::find_iter` finds them.
pub uninterp spec fn regex_matches(pattern: Seq<char>, text: Seq<char>) -> Seq<Seq<char>>;

/// The parts of `text` between those matches, as `Regex::split` gives them.
pub uninterp spec fn regex_parts(pattern: Seq<char>, text: Seq<char>) -> Seq<Seq<char>>;

/// `parts[0] + ms[0] + parts[1] + ms[1] + ... + parts[n]`.
pub open spec fn woven(parts: Seq<Seq<char>>, ms: Seq<Seq<char>>) -> Seq<char>
    decreases ms.len(),
{
    if ms.len() == 0 {
        if parts.len() > 0 {
            parts[0]
        } else {
            Seq::empty()
        }
    } else if parts.len() == 0 {
        Seq::empty()
    } else {
        parts[0] + ms[0] + woven(parts.drop_first(), ms.drop_first())
    }
}

/// `Regex::new(pattern)` and `find_iter(text)`, each match's text. Only the
/// three credential patterns are passed, and each compiles. The matches are
/// named, not stated.
#[verifier::external_body]
fn regex_find_all(pattern: &str, text: &str) -> (r: Vec<String>)
    requires
        credential_pattern(pattern@),
    ensures
        r@.map_values(|m: String| m@) == regex_matches(pattern@, text@),
{
    let re = regex::Regex::new(pattern).unwrap();
    re.find_iter(text).map(|m| m.as_str().to_string()).collect()
}

/// `Regex::new(pattern)` and `split(text)`. `split` runs the same search as
/// `find_iter` and yields the text before each match, then the rest after
/// the last one; so there is one part more than there are matches, and the
/// parts with the matches between them make up the text. The parts are
/// named.
#[verifier::external_body]
fn regex_split_all(pattern: &str, text: &str) -> (r: Vec<String>)
    requires
        credential_pattern(pattern@),
    ensures
        r@.map_values(|m: String| m@) == regex_parts(pattern@, text@),
        r.len() == regex_matches(pattern@, text@).len() + 1,
        woven(r@.map_values(|m: String| m@), regex_matches(pattern@, text@)) == text@,
{
    let re = regex::Regex::new(pattern).unwrap();
    re.split(text).map(|p| p.to_string()).collect()
}

/// The matches, each redacted.
pub open spec fn redacted_all(ms: Seq<Seq<char>>) -> Seq<Seq<char>> {
    ms.map_values(|m: Seq<char>| redacted_form(m))
}

/// `text` with every match of `pattern` replaced by `redacted_form` of it
/// (what `Regex::replace_all` with `redacted_match` gives).
pub open spec fn regex_redacted(pattern: Seq<char>, text: Seq<char>) -> Seq<char> {
    woven(regex_parts(pattern, text), redacted_all(regex_matches(pattern, text)))
}

/// The text between and around the matches, with each match redacted.
pub fn weave_redacted(parts: &Vec<String>, matches: &Vec<String>) -> (r: String)
    requires
        parts.len() == matches.len() + 1,
    ensures
        r@ == woven(parts@.map_values(|m: String| m@), redacted_all(matches@.map_values(|m: String| m@))),
{
    let ghost pv = parts@.map_values(|m: String| m@);
    let ghost mv = redacted_all(matches@.map_values(|m: String| m@));
    let n = matches.len();
    let mut out = owned(parts[n].as_str());
    let mut i: usize = n;
    assert(pv.skip(n as int) =~= seq![pv[n as int]]);
    assert(mv.skip(n as int) =~= Seq::<Seq<char>>::empty());
    while i > 0
        invariant
            i <= n == matches.len(),
            parts.len() == n + 1,
            pv == parts@.map_values(|m: String| m@),
            mv == redacted_all(matches@.map_values(|m: String| m@)),
            out@ == woven(pv.skip(i as int), mv.skip(i as int)),
        decreases i,
    {
        i = i - 1;
        let f = redacted_match(matches[i].as_str());
        let mut next = owned(parts[i].as_str());
        push_str(&mut next, f.as_str());
        push_str(&mut next, out.as_str());
        proof {
            let ps = pv.skip(i as int);
            let ms = mv.skip(i as int);
            assert(ps.drop_first() =~= pv.skip(i + 1));
            assert(ms.drop_first() =~= mv.skip(i + 1));
            assert(ps[0] == pv[i as int]);
            assert(ms[0] == mv[i as int]);
            assert(mv[i as int] == f@);
        }
        out = next;
    }
    assert(pv.skip(0) =~= pv);
    assert(mv.skip(0) =~= mv);
    out
}

/// A server reply with every `"access_token"`, `"clientSecret"` and
/// `"token"` string value replaced, in that order of patterns.
pub open spec fn redact_tokens_spec(text: Seq<char>) -> Seq<char> {
    regex_redacted(
        token_pattern(),
        regex_redacted(client_secret_pattern(), regex_redacted(access_token_pattern(), text)),
    )
}

/// A server reply is redacted for three kinds of pairs, in this order:
/// `"access_token": "…"`, then `"clientSecret": "…"`, then `"token": "…"`
/// (white space allowed around the colon, the value any non-empty text
/// without a quote).
pub proof fn lemma_redacted_pairs(text: Seq<char>)
    ensures
        redact_tokens_spec(text) == regex_redacted(
            "\"token\"\\s*:\\s*\"[^\"]+\""@,
            regex_redacted(
                "\"clientSecret\"\\s*:\\s*\"[^\"]+\""@,
                regex_redacted("\"access_token\"\\s*:\\s*\"[^\"]+\""@, text),
            ),
        ),
{
}

/// `text` with every match of a credential pattern redacted.
fn regex_redact_all(pattern: &str, text: &str) -> (r: String)
    requires
        credential_pattern(pattern@),
    ensures
        r@ == regex_redacted(pattern@, text@),
        forall|x: Seq<char>|
            x.len() > 0 && disjoint_chars(x, redaction_chars()) && !seq_contains(text@, x) ==> !seq_contains(
                r@,
                x,
            ),
{
    let parts = regex_split_all(pattern, text);
    let matches = regex_find_all(pattern, text);
    let r = weave_redacted(&parts, &matches);
    proof {
        let pv = parts@.map_values(|m: String| m@);
        let mv = matches@.map_values(|m: String| m@);
        assert forall|x: Seq<char>|
            x.len() > 0 && disjoint_chars(x, redaction_chars()) && !seq_contains(text@, x) implies !seq_contains(
                r@,
                x,
            ) by {
            lemma_pass_keeps_out(pv, mv, x);
        }
    }
    r
}

/// Redacts credential-looking JSON pairs in a server reply.
pub fn redact_tokenish_text(text: &str) -> (r: String)
    ensures
        r@ == redact_tokens_spec(text@),
        forall|x: Seq<char>|
            x.len() > 0 && disjoint_chars(x, redaction_chars()) && !seq_contains(text@, x) ==> !seq_contains(
                r@,
                x,
            ),
{
    let a = regex_redact_all("\"access_token\"\\s*:\\s*\"[^\"]+\"", text);
    let b = regex_redact_all("\"clientSecret\"\\s*:\\s*\"[^\"]+\"", a.as_str());
    regex_redact_all("\"token\"\\s*:\\s*\"[^\"]+\"", b.as_str())
}

/// A reply with the bot's own secret (trimmed, when not blank) replaced by
/// `<redacted>` everywhere, then the credential pairs redacted.
pub open spec fn redact_secret_spec(text: Seq<char>, secret: Seq<char>) -> Seq<char> {
    let s = trim_seq(secret);
    let t = if s.len() > 0 {
        replace_seq(text, s, "<redacted>"@)
    } else {
        text
    };
    redact_tokens_spec(t)
}

/// Redacts the bot's secret and credential pairs in a server reply.
///
/// The secret never comes back: when it is not blank and shares no
/// character with `:"<redacted>"`, it occurs nowhere in the result.
pub fn redact_qq_secret_echo(text: &str, app_secret: &str) -> (r: String)
    ensures
        r@ == redact_secret_spec(text@, app_secret@),
        trim_seq(app_secret@).len() > 0 && disjoint_chars(trim_seq(app_secret@), redaction_chars())
            ==> !seq_contains(r@, trim_seq(app_secret@)),
{
    let s = trim_chars(&chars_of(app_secret));
    if s.len() > 0 {
        let replaced = replace_chars(&chars_of(text), &s, &chars_of("<redacted>"));
        let t = string_of(&replaced);
        proof {
            if disjoint_chars(s@, redaction_chars()) {
                lemma_redaction_chars();
                lemma_secret_replaced_everywhere(text@, app_secret@);
            }
        }
        redact_tokenish_text(t.as_str())
    } else {
        redact_tokenish_text(text)
    }
}

/// No character of `s` occurs in `r`.
pub open spec fn disjoint_chars(s: Seq<char>, r: Seq<char>) -> bool {
    forall|i: int, j: int| 0 <= i < s.len() && 0 <= j < r.len() ==> s[i] != r[j]
}

proof fn lemma_replace_prefix(t: Seq<char>, pat: Seq<char>, rep: Seq<char>, k: int)
    requires
        pat.len() > 0,
        rep.len() > 0,
        disjoint_chars(pat, rep),
        0 <= k <= replace_seq(t, pat, rep).len(),
        forall|m: int| 0 <= m < k ==> pat.contains(#[trigger] replace_seq(t, pat, rep)[m]),
    ensures
        k <= t.len(),
        t.subrange(0, k) == replace_seq(t, pat, rep).subrange(0, k),
    decreases t.len(),
{
    let r = replace_seq(t, pat, rep);
    if k > 0 {
        if t.len() == 0 {
        } else if seq_starts_with(t, pat) {
            assert(r[0] == rep[0]);
            assert(pat.contains(r[0]));
            let i = choose|i: int| 0 <= i < pat.len() && pat[i] == r[0];
            assert(pat[i] != rep[0]);
        } else {
            let t2 = t.drop_first();
            let r2 = replace_seq(t2, pat, rep);
            assert(r == seq![t[0]] + r2);
            assert forall|m: int| 0 <= m < k - 1 implies pat.contains(#[trigger] r2[m]) by {
                assert(r[m + 1] == r2[m]);
            }
            lemma_replace_prefix(t2, pat, rep, k - 1);
            assert(t.subrange(0, k) =~= seq![t[0]] + t2.subrange(0, k - 1));
            assert(r.subrange(0, k) =~= seq![t[0]] + r2.subrange(0, k - 1));
        }
    } else {
        assert(t.subrange(0, 0) =~= r.subrange(0, 0));
    }
}

proof fn lemma_replace_clears(t: Seq<char>, pat: Seq<char>, rep: Seq<char>)
    requires
        pat.len() > 0,
        rep.len() > 0,
        disjoint_chars(pat, rep),
    ensures
        !seq_contains(replace_seq(t, pat, rep), pat),
    decreases t.len(),
{
    let r = replace_seq(t, pat, rep);
    if t.len() > 0 {
        if seq_starts_with(t, pat) {
            let t2 = t.skip(pat.len() as int);
            lemma_replace_clears(t2, pat, rep);
            let r2 = replace_seq(t2, pat, rep);
            assert(r == rep + r2);
            if seq_contains(r, pat) {
                let i = choose|i: int| occurs_at(r, pat, i);
                if i < rep.len() {
                    assert(r.subrange(i, i + pat.len())[0] == pat[0]);
                    assert(r[i] == rep[i]);
                } else {
                    assert(r2.subrange(i - rep.len(), i - rep.len() + pat.len()) =~= r.subrange(i, i + pat.len()));
                    assert(occurs_at(r2, pat, i - rep.len()));
                }
            }
        } else {
            let t2 = t.drop_first();
            lemma_replace_clears(t2, pat, rep);
            let r2 = replace_seq(t2, pat, rep);
            assert(r == seq![t[0]] + r2);
            if seq_contains(r, pat) {
                let i = choose|i: int| occurs_at(r, pat, i);
                if i == 0 {
                    assert(r.subrange(0, pat.len() as int) == pat);
                    assert forall|m: int| 0 <= m < pat.len() implies pat.contains(#[trigger] r[m]) by {
                        assert(r[m] == pat[m]);
                    }
                    lemma_replace_prefix(t, pat, rep, pat.len() as int);
                    assert(seq_starts_with(t, pat));
                } else {
                    assert(r2.subrange(i - 1, i - 1 + pat.len()) =~= r.subrange(i, i + pat.len()));
                    assert(occurs_at(r2, pat, i - 1));
                }
            }
        }
    }
}

/// Before the credential pairs are redacted, the bot's secret (trimmed) is
/// gone from the reply: no occurrence of it is left once it is replaced by
/// `<redacted>`, when it shares no character with `<redacted>`.
pub proof fn lemma_secret_replaced_everywhere(text: Seq<char>, secret: Seq<char>)
    requires
        trim_seq(secret).len() > 0,
        disjoint_chars(trim_seq(secret), "<redacted>"@),
    ensures
        !seq_contains(replace_seq(text, trim_seq(secret), "<redacted>"@), trim_seq(secret)),
{
    reveal_strlit("<redacted>");
    lemma_replace_clears(text, trim_seq(secret), "<redacted>"@);
}

/// The characters a redaction writes: those of `:"<redacted>"`.
pub open spec fn redaction_chars() -> Seq<char> {
    ":\"<redacted>\""@
}

proof fn lemma_redaction_chars()
    ensures
        forall|x: Seq<char>| disjoint_chars(x, redaction_chars()) ==> #[trigger] disjoint_chars(x, "<redacted>"@),
{
    reveal_strlit(":\"<redacted>\"");
    reveal_strlit("<redacted>");
    assert forall|x: Seq<char>| disjoint_chars(x, redaction_chars()) implies #[trigger] disjoint_chars(x, "<redacted>"@) by {
        assert forall|i: int, j: int| 0 <= i < x.len() && 0 <= j < "<redacted>"@.len() implies x[i] != "<redacted>"@[j] by {
            assert("<redacted>"@[j] == redaction_chars()[j + 2]);
        }
    }
}

proof fn lemma_contains_concat(a: Seq<char>, b: Seq<char>, x: Seq<char>)
    ensures
        seq_contains(a, x) ==> seq_contains(a + b, x),
        seq_contains(b, x) ==> seq_contains(a + b, x),
{
    if seq_contains(a, x) {
        let i = choose|i: int| occurs_at(a, x, i);
        assert((a + b).subrange(i, i + x.len()) =~= a.subrange(i, i + x.len()));
        assert(occurs_at(a + b, x, i));
    }
    if seq_contains(b, x) {
        let i = choose|i: int| occurs_at(b, x, i);
        assert((a + b).subrange(a.len() + i, a.len() + i + x.len()) =~= b.subrange(i, i + x.len()));
        assert(occurs_at(a + b, x, a.len() + i));
    }
}

proof fn lemma_separated(a: Seq<char>, b: Seq<char>, c: Seq<char>, x: Seq<char>)
    requires
        x.len() > 0,
        b.len() > 0,
        disjoint_chars(x, b),
        !seq_contains(a, x),
        !seq_contains(c, x),
    ensures
        !seq_contains(a + b + c, x),
{
    let w = a + b + c;
    if seq_contains(w, x) {
        let i = choose|i: int| occurs_at(w, x, i);
        if i + x.len() <= a.len() {
            assert(a.subrange(i, i + x.len()) =~= w.subrange(i, i + x.len()));
            assert(occurs_at(a, x, i));
        } else if i >= a.len() + b.len() {
            let k = i - a.len() - b.len();
            assert(c.subrange(k, k + x.len()) =~= w.subrange(i, i + x.len()));
            assert(occurs_at(c, x, k));
        } else {
            let j = if i > a.len() { i } else { a.len() as int };
            assert(w.subrange(i, i + x.len())[j - i] == x[j - i]);
            assert(w[j] == b[j - a.len()]);
        }
    }
}

proof fn lemma_index_of_bound(s: Seq<char>, c: char, from: int)
    requires
        0 <= from,
    ensures
        index_of(s, c, from) matches Some(i) ==> from <= i < s.len(),
    decreases s.len() - from,
{
    if from < s.len() && s[from] != c {
        lemma_index_of_bound(s, c, from + 1);
    }
}

proof fn lemma_pass_keeps_out(parts: Seq<Seq<char>>, ms: Seq<Seq<char>>, x: Seq<char>)
    requires
        parts.len() == ms.len() + 1,
        x.len() > 0,
        disjoint_chars(x, redaction_chars()),
        !seq_contains(woven(parts, ms), x),
    ensures
        !seq_contains(woven(parts, redacted_all(ms)), x),
    decreases ms.len(),
{
    let fs = redacted_all(ms);
    if ms.len() > 0 {
        let p0 = parts[0];
        let m0 = ms[0];
        let rest = woven(parts.drop_first(), ms.drop_first());
        assert(woven(parts, ms) == p0 + m0 + rest);
        lemma_contains_concat(p0 + m0, rest, x);
        assert(fs.drop_first() =~= redacted_all(ms.drop_first()));
        lemma_pass_keeps_out(parts.drop_first(), ms.drop_first(), x);
        let rrest = woven(parts.drop_first(), fs.drop_first());
        assert(woven(parts, fs) == p0 + fs[0] + rrest);
        lemma_redaction_chars();
        reveal_strlit(":\"<redacted>\"");
        reveal_strlit("<redacted>");
        lemma_index_of_bound(m0, ':', 0);
        let (pre, q) = match index_of(m0, ':', 0) {
            Some(i) => (m0.take(i), redaction_chars()),
            None => (Seq::<char>::empty(), "<redacted>"@),
        };
        assert(fs[0] == pre + q);
        assert(disjoint_chars(x, q));
        assert(m0 =~= pre + m0.skip(pre.len() as int));
        assert(p0 + m0 =~= (p0 + pre) + m0.skip(pre.len() as int));
        lemma_contains_concat(p0 + pre, m0.skip(pre.len() as int), x);
        lemma_separated(p0 + pre, q, rrest, x);
        assert(p0 + (pre + q) + rrest =~= (p0 + pre) + q + rrest);
    } else {
        assert(fs.len() == 0);
    }
}

} // verus!
