//! Lists read from the settings files: code directories (`repoRoots`),
//! excluded business lines, and business-line keyword aliases.

use vstd::prelude::*;
use crate::commit_link::strs;
use crate::config_json::{Json, JsonView, jview, jviews, fviews, lemma_fviews, lemma_jviews};
use crate::text::{chars_of, owned, string_of, trim, trim_chars, trim_seq};

verus! {

/// The trimmed, non-blank strings among the first `n` values.
pub open spec fn kept_strings(vs: Seq<JsonView>, n: int) -> Seq<Seq<char>>
    decreases n,
{
    if n <= 0 {
        Seq::empty()
    } else {
        let acc = kept_strings(vs, n - 1);
        match vs[n - 1] {
            JsonView::Str(s) => if trim_seq(s).len() > 0 {
                acc.push(trim_seq(s))
            } else {
                acc
            },
            _ => acc,
        }
    }
}

/// The trimmed, non-blank strings of an array (nothing for other values).
pub open spec fn string_list_spec(v: JsonView) -> Seq<Seq<char>> {
    match v {
        JsonView::Array(vs) => kept_strings(vs, vs.len() as int),
        _ => Seq::empty(),
    }
}

/// The strings of a JSON array, trimmed, blank ones and non-strings left
/// out, in order.
pub fn string_list(v: &Json) -> (r: Vec<String>)
    ensures
        strs(r) == string_list_spec(jview(*v)),
{
    let mut out: Vec<String> = Vec::new();
    match v {
        Json::Array(items) => {
            proof {
                lemma_jviews(items@);
            }
            let ghost vs = jviews(items@);
            let mut i: usize = 0;
            while i < items.len()
                invariant
                    i <= items.len(),
                    vs == jviews(items@),
                    vs.len() == items.len(),
                    forall|k: int| 0 <= k < items.len() ==> #[trigger] vs[k] == jview(items@[k]),
                    strs(out) == kept_strings(vs, i as int),
                decreases items.len() - i,
            {
                match &items[i] {
                    Json::Str(s) => {
                        let t = trim(s.as_str());
                        if !t.as_str().is_empty() {
                            let ghost before = strs(out);
                            out.push(t);
                            assert(strs(out) =~= before.push(t@));
                        }
                    },
                    _ => {},
                }
                i = i + 1;
            }
        },
        _ => {},
    }
    out
}

/// The aliases among the first `n` members: each member whose value is an
/// array with at least one non-blank string, with those strings.
pub open spec fn alias_entries(fs: Seq<(Seq<char>, JsonView)>, n: int) -> Seq<(Seq<char>, Seq<Seq<char>>)>
    decreases n,
{
    if n <= 0 {
        Seq::empty()
    } else {
        let acc = alias_entries(fs, n - 1);
        let kws = string_list_spec(fs[n - 1].1);
        if fs[n - 1].1 is Array && kws.len() > 0 {
            acc.push((fs[n - 1].0, kws))
        } else {
            acc
        }
    }
}

/// The business-line aliases an object gives.
pub open spec fn aliases_spec(v: JsonView) -> Seq<(Seq<char>, Seq<Seq<char>>)> {
    match v {
        JsonView::Object(fs) => alias_entries(fs, fs.len() as int),
        _ => Seq::empty(),
    }
}

/// Business line → extra keywords, from an object of string arrays: a
/// line whose array holds no non-blank string is left out.
pub fn business_aliases(v: &Json) -> (r: Vec<(String, Vec<String>)>)
    ensures
        r@.map_values(|e: (String, Vec<String>)| (e.0@, strs(e.1))) == aliases_spec(jview(*v)),
{
    let mut out: Vec<(String, Vec<String>)> = Vec::new();
    match v {
        Json::Object(fs) => {
            proof {
                lemma_fviews(fs@);
            }
            let ghost vs = fviews(fs@);
            let mut i: usize = 0;
            while i < fs.len()
                invariant
                    i <= fs.len(),
                    vs == fviews(fs@),
                    vs.len() == fs.len(),
                    forall|k: int| 0 <= k < fs.len() ==> #[trigger] vs[k] == (fs@[k].0@, jview(fs@[k].1)),
                    out@.map_values(|e: (String, Vec<String>)| (e.0@, strs(e.1))) == alias_entries(vs, i as int),
                decreases fs.len() - i,
            {
                let ghost before = out@;
                let kws = string_list(&fs[i].1);
                let is_array = match &fs[i].1 {
                    Json::Array(_) => true,
                    _ => false,
                };
                if is_array && kws.len() > 0 {
                    let k = owned(fs[i].0.as_str());
                    out.push((k, kws));
                    assert(out@.map_values(|e: (String, Vec<String>)| (e.0@, strs(e.1))) =~= before.map_values(
                        |e: (String, Vec<String>)| (e.0@, strs(e.1)),
                    ).push((k@, strs(kws))));
                }
                i = i + 1;
            }
        },
        _ => {},
    }
    out
}

/// A separator of the code-directory environment variable: `;` or `,`.
pub open spec fn is_root_sep(c: char) -> bool {
    c == ';' || c == ','
}

/// The pieces of `s` between separators, from position `start`, scanning
/// at `i`.
pub open spec fn root_pieces(s: Seq<char>, start: int, i: int) -> Seq<Seq<char>>
    decreases s.len() - i,
{
    if i >= s.len() || i < start || start < 0 {
        seq![s.subrange(start, s.len() as int)]
    } else if is_root_sep(s[i]) {
        seq![s.subrange(start, i)] + root_pieces(s, i + 1, i + 1)
    } else {
        root_pieces(s, start, i + 1)
    }
}

/// The trimmed, non-blank pieces among `ps`.
pub open spec fn non_blank_trimmed(ps: Seq<Seq<char>>) -> Seq<Seq<char>>
    decreases ps.len(),
{
    if ps.len() == 0 {
        Seq::empty()
    } else {
        let rest = non_blank_trimmed(ps.drop_first());
        if trim_seq(ps[0]).len() > 0 {
            seq![trim_seq(ps[0])] + rest
        } else {
            rest
        }
    }
}

/// The code directories a `;`- or `,`-separated list names, trimmed,
/// blank ones left out.
pub fn split_roots(raw: &str) -> (r: Vec<String>)
    ensures
        strs(r) == non_blank_trimmed(root_pieces(raw@, 0, 0)),
{
    let v = chars_of(raw);
    let mut out: Vec<String> = Vec::new();
    let mut start: usize = 0;
    let mut i: usize = 0;
    while i < v.len()
        invariant
            start <= i <= v.len(),
            v@ == raw@,
            non_blank_trimmed(root_pieces(raw@, 0, 0)) == strs(out) + non_blank_trimmed(
                root_pieces(raw@, start as int, i as int),
            ),
        decreases v.len() - i,
    {
        if v[i] == ';' || v[i] == ',' {
            let ghost rest = root_pieces(raw@, i + 1, i + 1);
            let piece = crate::text::slice_chars(&v, start, i);
            let t = trim_chars(&piece);
            let ghost before = strs(out);
            assert(root_pieces(raw@, start as int, i as int) == seq![raw@.subrange(start as int, i as int)] + rest);
            assert((seq![raw@.subrange(start as int, i as int)] + rest).drop_first() =~= rest);
            if t.len() > 0 {
                out.push(string_of(&t));
                assert(strs(out) =~= before.push(t@));
                assert(before + (seq![t@] + non_blank_trimmed(rest)) =~= strs(out) + non_blank_trimmed(rest));
            }
            start = i + 1;
        }
        i = i + 1;
    }
    let piece = crate::text::slice_chars(&v, start, v.len());
    let t = trim_chars(&piece);
    let ghost before = strs(out);
    assert(root_pieces(raw@, start as int, i as int) == seq![raw@.subrange(start as int, raw@.len() as int)]);
    let ghost last = seq![raw@.subrange(start as int, raw@.len() as int)];
    assert(last.drop_first() =~= Seq::<Seq<char>>::empty());
    assert(non_blank_trimmed(last.drop_first()) == Seq::<Seq<char>>::empty());
    assert(t@ == trim_seq(last[0]));
    if t.len() > 0 {
        out.push(string_of(&t));
        assert(strs(out) =~= before.push(t@));
        assert(non_blank_trimmed(last) =~= seq![t@]);
        assert(strs(out) =~= before + non_blank_trimmed(last));
    } else {
        assert(non_blank_trimmed(last) =~= Seq::<Seq<char>>::empty());
        assert(strs(out) =~= before + non_blank_trimmed(last));
    }
    out
}

} // verus!
