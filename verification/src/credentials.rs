//! Task-tracker connection settings: cleaning the server address a user
//! typed, and the checks made before a connection test.

use vstd::prelude::*;
use crate::commit_link::strs;
use crate::llm::{parse_url, parts_view, url_parts_of};
use crate::text::{
    chars_of, decimal_seq, decimal_string, ends_with_chars, lowercase_of, owned, push_str,
    seq_ends_with, seq_starts_with, slice_chars, starts_with_chars, string_of, to_lowercase, trim,
    trim_seq,
};

verus! {

/// What the connection test is given.
#[derive(Debug, Clone)]
pub struct ZentaoTestRequest {
    pub base_url: String,
    pub account: String,
    pub password: String,
}

/// The outcome of a connection test.
#[derive(Debug, Clone)]
pub struct ZentaoTestResult {
    pub ok: bool,
    pub message: String,
}

/// The non-empty pieces of a URL path between slashes, scanning from `i`.
pub open spec fn path_segments(p: Seq<char>, i: nat) -> Seq<Seq<char>>
    decreases p.len(), p.len() - i,
{
    if i >= p.len() {
        if p.len() == 0 {
            Seq::empty()
        } else {
            seq![p]
        }
    } else if p[i as int] == '/' {
        let rest = path_segments(p.subrange(i as int + 1, p.len() as int), 0);
        if i == 0 {
            rest
        } else {
            seq![p.take(i as int)] + rest
        }
    } else {
        path_segments(p, i + 1)
    }
}

/// A path segment naming a page or script (`index.php`, `a.html`, ...),
/// whatever its letter case.
pub open spec fn is_entry_segment(seg: Seq<char>) -> bool {
    let l = lowercase_of(seg);
    seq_ends_with(l, ".html"@) || seq_ends_with(l, ".htm"@) || seq_ends_with(l, ".php"@) || seq_ends_with(l, ".json"@)
        || seq_ends_with(l, ".jsp"@) || seq_ends_with(l, ".asp"@) || seq_ends_with(l, ".aspx"@)
}

/// The segments before the first page or script.
pub open spec fn kept_segments(segs: Seq<Seq<char>>) -> Seq<Seq<char>>
    decreases segs.len(),
{
    if segs.len() == 0 || is_entry_segment(segs[0]) {
        Seq::empty()
    } else {
        seq![segs[0]] + kept_segments(segs.drop_first())
    }
}

/// Segments joined by `/`.
pub open spec fn join_slash(segs: Seq<Seq<char>>) -> Seq<char>
    decreases segs.len(),
{
    if segs.len() == 0 {
        Seq::empty()
    } else if segs.len() == 1 {
        segs[0]
    } else {
        segs[0] + "/"@ + join_slash(segs.drop_first())
    }
}

/// The root address rebuilt from a parsed URL: scheme, host, the port when
/// one was given, and the path up to the first page or script.
pub open spec fn rebuilt_base(parts: (Seq<char>, Option<Seq<char>>, Option<u16>, Seq<char>)) -> Seq<char> {
    let host = match parts.1 {
        Some(h) => h,
        None => Seq::empty(),
    };
    let host_port = match parts.2 {
        Some(p) => host + ":"@ + decimal_seq(p as nat),
        None => host,
    };
    let kept = kept_segments(path_segments(parts.3, 0));
    let path = if kept.len() == 0 {
        Seq::empty()
    } else {
        "/"@ + join_slash(kept)
    };
    parts.0 + "://"@ + host_port + path
}

/// The address to parse: the trimmed input, with `http://` put in front
/// unless it already starts with `http://` or `https://` (in any case).
pub open spec fn with_scheme(t: Seq<char>) -> Seq<char> {
    let low = lowercase_of(t);
    if seq_starts_with(low, "http://"@) || seq_starts_with(low, "https://"@) {
        t
    } else {
        "http://"@ + t
    }
}

/// The cleaned tracker address: empty for blank input; the trimmed input
/// when it does not parse as a URL; else the rebuilt root address.
pub open spec fn normalized_base(input: Seq<char>) -> Seq<char> {
    let t = trim_seq(input);
    if t.len() == 0 {
        Seq::empty()
    } else {
        match url_parts_of(with_scheme(t)) {
            None => t,
            Some(parts) => rebuilt_base(parts),
        }
    }
}

fn path_segments_exec(v: &Vec<char>) -> (r: Vec<String>)
    ensures
        strs(r) == path_segments(v@, 0),
{
    let ghost s = v@;
    let mut out: Vec<String> = Vec::new();
    let mut start: usize = 0;
    let mut i: usize = 0;
    assert(s.subrange(0, s.len() as int) =~= s);
    while i < v.len()
        invariant
            v@ == s,
            start <= i <= v.len(),
            path_segments(s, 0) == strs(out) + path_segments(s.subrange(start as int, s.len() as int), (i - start) as nat),
        decreases v.len() - i,
    {
        let ghost sub = s.subrange(start as int, s.len() as int);
        let ghost k = (i - start) as nat;
        if v[i] == '/' {
            assert(sub[k as int] == '/');
            let ghost rest = path_segments(sub.subrange(k as int + 1, sub.len() as int), 0);
            assert(sub.subrange(k as int + 1, sub.len() as int) =~= s.subrange(i + 1, s.len() as int));
            if i > start {
                let piece = string_of(&slice_chars(v, start, i));
                assert(piece@ =~= sub.take(k as int));
                let ghost before = strs(out);
                out.push(piece);
                assert(strs(out) =~= before.push(piece@));
                assert(before + (seq![sub.take(k as int)] + rest) =~= strs(out) + rest);
            }
            start = i + 1;
            i = i + 1;
        } else {
            i = i + 1;
        }
    }
    let ghost sub = s.subrange(start as int, s.len() as int);
    if start < v.len() {
        let piece = string_of(&slice_chars(v, start, v.len()));
        assert(piece@ =~= sub);
        let ghost before = strs(out);
        out.push(piece);
        assert(strs(out) =~= before + seq![sub]);
    } else {
        assert(strs(out) + Seq::<Seq<char>>::empty() =~= strs(out));
    }
    out
}

fn is_entry_exec(seg: &String) -> (r: bool)
    ensures
        r == is_entry_segment(seg@),
{
    let l = chars_of(to_lowercase(seg.as_str()).as_str());
    ends_with_chars(&l, &chars_of(".html")) || ends_with_chars(&l, &chars_of(".htm")) || ends_with_chars(&l, &chars_of(".php"))
        || ends_with_chars(&l, &chars_of(".json")) || ends_with_chars(&l, &chars_of(".jsp")) || ends_with_chars(&l, &chars_of(".asp"))
        || ends_with_chars(&l, &chars_of(".aspx"))
}

fn kept_path(segs: &Vec<String>) -> (r: String)
    ensures
        r@ == if kept_segments(strs(*segs)).len() == 0 {
            Seq::empty()
        } else {
            "/"@ + join_slash(kept_segments(strs(*segs)))
        },
{
    let ghost all = strs(*segs);
    let mut k: usize = 0;
    while k < segs.len() && !is_entry_exec(&segs[k])
        invariant
            k <= segs.len(),
            all == strs(*segs),
            forall|j: int| 0 <= j < k ==> !is_entry_segment(#[trigger] all[j]),
        decreases segs.len() - k,
    {
        k = k + 1;
    }
    proof {
        lemma_kept_prefix(all, k as int);
    }
    if k == 0 {
        return String::new();
    }
    let mut out = owned("/");
    let mut j: usize = 0;
    while j < k
        invariant
            j <= k <= segs.len(),
            all == strs(*segs),
            out@ == "/"@ + join_slash(all.take(j as int)) + (if j > 0 && j < k { "/"@ } else { Seq::empty() }),
        decreases k - j,
    {
        let ghost before = out@;
        push_str(&mut out, segs[j].as_str());
        proof {
            lemma_join_push(all.take(j as int), all[j as int]);
            assert(all.take(j + 1) =~= all.take(j as int).push(all[j as int]));
        }
        if j + 1 < k {
            push_str(&mut out, "/");
        }
        j = j + 1;
        assert(out@ =~= "/"@ + join_slash(all.take(j as int)) + (if j > 0 && j < k { "/"@ } else { Seq::empty() }));
    }
    out
}

proof fn lemma_kept_prefix(all: Seq<Seq<char>>, k: int)
    requires
        0 <= k <= all.len(),
        forall|j: int| 0 <= j < k ==> !is_entry_segment(#[trigger] all[j]),
        k == all.len() || is_entry_segment(all[k]),
    ensures
        kept_segments(all) == all.take(k),
    decreases k,
{
    if k == 0 {
        assert(all.take(0) =~= Seq::<Seq<char>>::empty());
    } else {
        let rest = all.drop_first();
        assert forall|j: int| 0 <= j < k - 1 implies !is_entry_segment(#[trigger] rest[j]) by {
            assert(rest[j] == all[j + 1]);
        }
        if k < all.len() {
            assert(rest[k - 1] == all[k]);
        }
        lemma_kept_prefix(rest, k - 1);
        assert(!is_entry_segment(all[0]));
        assert(seq![all[0]] + rest.take(k - 1) =~= all.take(k));
    }
}

proof fn lemma_join_push(s: Seq<Seq<char>>, x: Seq<char>)
    ensures
        join_slash(s.push(x)) == if s.len() == 0 {
            x
        } else {
            join_slash(s) + "/"@ + x
        },
    decreases s.len(),
{
    if s.len() == 0 {
        assert(s.push(x) =~= seq![x]);
    } else if s.len() == 1 {
        assert(s.push(x).drop_first() =~= seq![x]);
        assert(s.push(x)[0] == s[0]);
        assert(join_slash(seq![x]) == x);
        assert(join_slash(s) == s[0]);
    } else {
        lemma_join_push(s.drop_first(), x);
        assert(s.push(x).drop_first() =~= s.drop_first().push(x));
        assert(s.push(x)[0] == s[0]);
        assert(s[0] + "/"@ + (join_slash(s.drop_first()) + "/"@ + x) =~= (s[0] + "/"@ + join_slash(s.drop_first())) + "/"@ + x);
    }
}

/// The root address once the address has been parsed (`None`: it did not
/// parse, and the trimmed input is kept).
pub fn base_from_parts(trimmed: &str, parts: Option<(String, Option<String>, Option<u16>, String)>) -> (r: String)
    ensures
        r@ == match parts {
            None => trimmed@,
            Some(p) => rebuilt_base(parts_view(p)),
        },
{
    match parts {
        None => owned(trimmed),
        Some(p) => {
            let (scheme, host, port, path) = p;
            let mut out = scheme;
            push_str(&mut out, "://");
            match host {
                Some(h) => push_str(&mut out, h.as_str()),
                None => {},
            }
            match port {
                Some(n) => {
                    push_str(&mut out, ":");
                    push_str(&mut out, decimal_string(n as u64).as_str());
                },
                None => {},
            }
            let segs = path_segments_exec(&chars_of(path.as_str()));
            let tail = kept_path(&segs);
            push_str(&mut out, tail.as_str());
            out
        },
    }
}

/// Cleans a tracker address typed by the user into the root that API paths
/// are appended to.
pub fn normalize_base_url(input: &str) -> (r: String)
    ensures
        r@ == normalized_base(input@),
{
    let t = trim(input);
    if t.as_str().is_empty() {
        return String::new();
    }
    let low = chars_of(to_lowercase(t.as_str()).as_str());
    let ws = if starts_with_chars(&low, &chars_of("http://")) || starts_with_chars(&low, &chars_of("https://")) {
        t.clone()
    } else {
        let mut w = owned("http://");
        push_str(&mut w, t.as_str());
        w
    };
    base_from_parts(t.as_str(), parse_url(ws.as_str()))
}

/// The answer of the connection test before anything is sent: an address
/// and an account are needed.
pub fn connection_precheck(base: &str, account: &str) -> (r: Option<ZentaoTestResult>)
    ensures
        base@.len() == 0 ==> (r matches Some(x) && !x.ok && x.message@ == "禅道地址不能为空"@),
        base@.len() > 0 && trim_seq(account@).len() == 0 ==> (r matches Some(x) && !x.ok && x.message@ == "账号不能为空"@),
        base@.len() > 0 && trim_seq(account@).len() > 0 ==> r is None,
{
    if base.is_empty() {
        return Some(ZentaoTestResult { ok: false, message: owned("禅道地址不能为空") });
    }
    if trim(account).as_str().is_empty() {
        return Some(ZentaoTestResult { ok: false, message: owned("账号不能为空") });
    }
    None
}

/// A normalized base address is empty exactly when the input is blank.
pub proof fn lemma_normalized_empty_iff_blank(input: Seq<char>)
    ensures
        normalized_base(input).len() == 0 <==> trim_seq(input).len() == 0,
{
    let t = trim_seq(input);
    if t.len() > 0 {
        match url_parts_of(with_scheme(t)) {
            None => {},
            Some(parts) => {
                reveal_strlit("://");
                let r = rebuilt_base(parts);
                assert(r.len() >= 3);
            },
        }
    }
}

} // verus!
