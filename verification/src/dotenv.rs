//! Reading one value out of a `.env` file's text: `KEY=value` lines, with
//! blank lines and `#` comments skipped and quotes around the value dropped.

use vstd::prelude::*;
use crate::commit_link::strs;
use crate::git_log::{index_of, index_of_exec, split_char, split_on};
use crate::text::{chars_of, seq_eq, slice_chars, string_of, trim_chars, trim_seq};

verus! {

/// A quote character around a value: `"` or `'`.
pub open spec fn is_quote(c: char) -> bool {
    c == '"' || c == '\''
}

/// The text with leading quote characters removed.
pub open spec fn unquote_start(s: Seq<char>) -> Seq<char>
    decreases s.len(),
{
    if s.len() > 0 && is_quote(s[0]) {
        unquote_start(s.drop_first())
    } else {
        s
    }
}

/// The text with trailing quote characters removed.
pub open spec fn unquote_end(s: Seq<char>) -> Seq<char>
    decreases s.len(),
{
    if s.len() > 0 && is_quote(s.last()) {
        unquote_end(s.drop_last())
    } else {
        s
    }
}

/// The text with quote characters removed at both ends
/// (`trim_matches(|c| c == '"' || c == '\'')`).
pub open spec fn unquote(s: Seq<char>) -> Seq<char> {
    unquote_end(unquote_start(s))
}

/// The value a line gives for `key`: the line trimmed, not blank and not a
/// `#` comment, split at its first `=`, the part before it trimmed equal to
/// `key`; the part after it trimmed and unquoted.
pub open spec fn line_value(line: Seq<char>, key: Seq<char>) -> Option<Seq<char>> {
    let t = trim_seq(line);
    if t.len() == 0 || t[0] == '#' {
        None
    } else {
        match index_of(t, '=', 0) {
            None => None,
            Some(e) => if trim_seq(t.take(e)) == key {
                Some(unquote(trim_seq(t.skip(e + 1))))
            } else {
                None
            },
        }
    }
}

/// The value of the first line from `i` on that gives one for `key`.
pub open spec fn first_value(lines: Seq<Seq<char>>, key: Seq<char>, i: int) -> Option<Seq<char>>
    decreases lines.len() - i,
{
    if i < 0 || i >= lines.len() {
        None
    } else {
        match line_value(lines[i], key) {
            Some(v) => Some(v),
            None => first_value(lines, key, i + 1),
        }
    }
}

/// The value of `key` in a `.env` text: the first line that gives one.
pub open spec fn dotenv_spec(content: Seq<char>, key: Seq<char>) -> Option<Seq<char>> {
    first_value(split_on(content, '\n'), key, 0)
}

fn unquote_chars(v: &Vec<char>) -> (r: Vec<char>)
    ensures
        r@ == unquote(v@),
{
    let mut lo: usize = 0;
    assert(v@.skip(0) =~= v@);
    while lo < v.len() && (v[lo] == '"' || v[lo] == '\'')
        invariant
            lo <= v.len(),
            unquote_start(v@) == unquote_start(v@.skip(lo as int)),
        decreases v.len() - lo,
    {
        assert(v@.skip(lo as int).drop_first() =~= v@.skip(lo + 1));
        lo = lo + 1;
    }
    assert(unquote_start(v@) == v@.skip(lo as int));
    let mut hi: usize = v.len();
    let ghost s = v@.skip(lo as int);
    assert(s =~= v@.subrange(lo as int, hi as int));
    while hi > lo && (v[hi - 1] == '"' || v[hi - 1] == '\'')
        invariant
            lo <= hi <= v.len(),
            s == v@.skip(lo as int),
            unquote_end(s) == unquote_end(v@.subrange(lo as int, hi as int)),
        decreases hi,
    {
        assert(v@.subrange(lo as int, hi as int).drop_last() =~= v@.subrange(lo as int, hi - 1));
        hi = hi - 1;
    }
    slice_chars(v, lo, hi)
}

fn line_value_exec(line: &str, key: &Vec<char>) -> (r: Option<String>)
    ensures
        match r {
            Some(v) => line_value(line@, key@) == Some(v@),
            None => line_value(line@, key@).is_none(),
        },
{
    let t = trim_chars(&chars_of(line));
    if t.len() == 0 || t[0] == '#' {
        return None;
    }
    match index_of_exec(&t, '=', 0) {
        None => None,
        Some(e) => {
            let k = trim_chars(&slice_chars(&t, 0, e));
            assert(t@.subrange(0, e as int) =~= t@.take(e as int));
            if seq_eq(&k, key) {
                let rest = trim_chars(&slice_chars(&t, e + 1, t.len()));
                assert(t@.subrange(e + 1, t.len() as int) =~= t@.skip(e + 1));
                Some(string_of(&unquote_chars(&rest)))
            } else {
                None
            }
        },
    }
}

/// The value of `key` in the text of a `.env` file: the first `KEY=value`
/// line (after trimming; blank lines and `#` comments skipped) whose name
/// is `key`, its value trimmed and stripped of surrounding quotes; none
/// when no line names it.
pub fn dotenv_value(content: &str, key: &str) -> (r: Option<String>)
    ensures
        match r {
            Some(v) => dotenv_spec(content@, key@) == Some(v@),
            None => dotenv_spec(content@, key@).is_none(),
        },
{
    let lines = split_char(content, '\n');
    let kv = chars_of(key);
    let ghost ls = split_on(content@, '\n');
    let mut i: usize = 0;
    while i < lines.len()
        invariant
            i <= lines.len(),
            strs(lines) == ls,
            ls == split_on(content@, '\n'),
            kv@ == key@,
            first_value(ls, key@, 0) == first_value(ls, key@, i as int),
        decreases lines.len() - i,
    {
        assert(ls[i as int] == lines@[i as int]@);
        match line_value_exec(lines[i].as_str(), &kv) {
            Some(v) => {
                assert(first_value(ls, key@, i as int) == Some(v@));
                return Some(v);
            },
            None => {},
        }
        i = i + 1;
    }
    None
}

} // verus!
